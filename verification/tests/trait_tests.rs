//! Trait propagation: renamed internal methods and public wrappers.

use contracts::errors::ExpandError;
use contracts::function::{Attr, FnArg, FnDecl, Pat};
use contracts::render::render_toks_str;
use contracts::tokens::{Delim, Tok};
use contracts::traits::{contract_method_impl_name, contract_trait_expand,
    contract_trait_item_impl, contract_trait_item_trait, ContractTarget, ImplBlock, Member,
    TraitDecl};

fn id(s: &str) -> Tok {
    Tok::Ident(s.to_owned())
}

fn op(s: &str) -> Tok {
    Tok::Op(s.to_owned())
}

fn paren(ts: Vec<Tok>) -> Tok {
    Tok::Group(Delim::Paren, ts)
}

fn attr(name: &str, args: Vec<Tok>) -> Attr {
    Attr { name: name.to_owned(), input: vec![paren(args)] }
}

fn has_attr(f: &FnDecl, name: &str) -> bool {
    f.attrs.iter().any(|a| a.name == name)
}

fn typed(name: &str, ty: &str) -> FnArg {
    FnArg::Typed(Pat::Ident(name.to_owned()), vec![op(":"), id(ty)])
}

fn random_number_method(attrs: Vec<Attr>, body: Option<Vec<Tok>>) -> FnDecl {
    FnDecl {
        attrs,
        vis: vec![],
        name: "random_number".to_owned(),
        generics: vec![],
        args: vec![typed("min", "u8"), typed("max", "u8")],
        ret_ty: Some(vec![id("u8")]),
        where_clause: vec![],
        body,
    }
}

#[test]
fn attributes_stay_on_trait_def() {
    // Attributes on methods apply to the outer wrapping declaration only;
    // the internal one is hidden and inlined.
    let post_args = vec![
        paren(vec![id("min"), op(".."), id("max")]),
        op("."),
        id("contains"),
        paren(vec![id("ret")]),
    ];
    let method = random_number_method(vec![attr("aaa", vec![]), attr("post", post_args)], None);
    let trait_ = TraitDecl { head: vec![id("trait"), id("Random")], items: vec![
        Member::Method(method),
    ] };
    let generated = contract_trait_item_trait(trait_).unwrap();
    assert_eq!(generated.items.len(), 2);
    if let Member::Method(m) = &generated.items[0] {
        // This is the generated item, no user-defined attributes on it.
        assert_ne!(m.name, "random_number");
        assert_eq!(has_attr(m, "aaa"), false);
        assert_eq!(has_attr(m, "inline"), true);
        assert_eq!(has_attr(m, "doc"), true);
    } else {
        panic!()
    }
    if let Member::Method(m) = &generated.items[1] {
        // This is the wrapper item, and carries all original attributes.
        assert_eq!(m.name, "random_number");
        assert_eq!(has_attr(m, "aaa"), true);
        assert_eq!(has_attr(m, "post"), true);
        assert_eq!(has_attr(m, "doc"), false);
    } else {
        panic!()
    }
}

#[test]
fn attributes_stay_on_trait_impl() {
    // Renaming the implementation's methods keeps all their attributes.
    let doc_attr = Attr {
        name: "doc".to_owned(),
        input: vec![op("="), Tok::LitStr("docs for this function!".to_owned())],
    };
    let method = random_number_method(
        vec![doc_attr, attr("no_panic", vec![])],
        Some(vec![id("min")]),
    );
    let impl_ = ImplBlock {
        head: vec![id("impl"), id("Random"), id("for"), id("AlwaysMin")],
        is_trait_impl: true,
        items: vec![Member::Method(method)],
    };
    let generated = contract_trait_item_impl(impl_);
    assert_eq!(generated.items.len(), 1);
    if let Member::Method(m) = &generated.items[0] {
        // The generated item is renamed and keeps the user's attributes.
        assert_ne!(m.name, "random_number");
        assert_eq!(has_attr(m, "no_panic"), true);
        assert_eq!(has_attr(m, "inline"), false);
        assert_eq!(has_attr(m, "doc"), true);
    } else {
        panic!()
    }
}

#[test]
fn test_impl_name_scheme() {
    assert_eq!(contract_method_impl_name("add"), "__contracts_impl_add");
    assert_eq!(contract_method_impl_name(""), "__contracts_impl_");
}

#[test]
fn test_wrapper_forwards_receiver_and_arguments() {
    // trait Adder { #[pre((self.tell() + val) < 20)] fn add(&mut self, val: usize); }
    let pre_args = vec![
        paren(vec![
            id("self"),
            op("."),
            id("tell"),
            paren(vec![]),
            op("+"),
            id("val"),
        ]),
        op("<"),
        Tok::LitOther("20".to_owned()),
    ];
    let add = FnDecl {
        attrs: vec![attr("pre", pre_args)],
        vis: vec![],
        name: "add".to_owned(),
        generics: vec![],
        args: vec![
            FnArg::Receiver(vec![op("&"), id("mut"), id("self")]),
            typed("val", "usize"),
        ],
        ret_ty: None,
        where_clause: vec![],
        body: None,
    };
    let trait_ = TraitDecl { head: vec![id("trait"), id("Adder")], items: vec![
        Member::Method(add),
    ] };
    let generated = contract_trait_item_trait(trait_).unwrap();
    let wrapper = match &generated.items[1] {
        Member::Method(m) => m,
        _ => panic!(),
    };
    assert_eq!(wrapper.name, "add");
    assert_eq!(has_attr(wrapper, "pre"), true);
    let body = wrapper.body.as_ref().unwrap();
    assert_eq!(render_toks_str(body), "Self :: __contracts_impl_add (self , val ,)");
    // The internal slot kept the declaration's signature and stays bodyless.
    let internal = match &generated.items[0] {
        Member::Method(m) => m,
        _ => panic!(),
    };
    assert_eq!(internal.name, "__contracts_impl_add");
    assert!(internal.body.is_none());
}

#[test]
fn test_tuple_pattern_forwarding() {
    // fn dist((x, y): (f1, f1)) — a tuple pattern forwards recursively.
    let tuple_pat = Pat::Tuple(vec![Pat::Ident("x".to_owned()), Pat::Ident("y".to_owned())]);
    let m = FnDecl {
        attrs: vec![],
        vis: vec![],
        name: "dist".to_owned(),
        generics: vec![],
        args: vec![FnArg::Typed(tuple_pat, vec![op(":"), id("Pair")])],
        ret_ty: None,
        where_clause: vec![],
        body: None,
    };
    let trait_ = TraitDecl { head: vec![id("trait"), id("T")], items: vec![Member::Method(m)] };
    let generated = contract_trait_item_trait(trait_).unwrap();
    let wrapper = match &generated.items[1] {
        Member::Method(m) => m,
        _ => panic!(),
    };
    assert_eq!(
        render_toks_str(wrapper.body.as_ref().unwrap()),
        "Self :: __contracts_impl_dist ((x , y ,) ,)"
    );
}

#[test]
fn test_unsupported_pattern_is_fatal() {
    let m = FnDecl {
        attrs: vec![],
        vis: vec![],
        name: "f".to_owned(),
        generics: vec![],
        args: vec![FnArg::Typed(
            Pat::Other(vec![id("S"), Tok::Group(Delim::Brace, vec![id("a")])]),
            vec![op(":"), id("S")],
        )],
        ret_ty: None,
        where_clause: vec![],
        body: None,
    };
    let trait_ = TraitDecl { head: vec![id("trait"), id("T")], items: vec![Member::Method(m)] };
    let err = match contract_trait_item_trait(trait_) {
        Err(e) => e,
        Ok(_) => panic!("expected an error"),
    };
    assert_eq!(err, ExpandError::UnsupportedPattern);
}

#[test]
fn test_non_method_items_kept_first() {
    let m = random_number_method(vec![], None);
    let assoc_ty = Member::Other(vec![id("type"), id("Output"), op(";")]);
    let trait_ = TraitDecl { head: vec![id("trait"), id("T")], items: vec![
        Member::Method(m),
        assoc_ty,
    ] };
    let generated = contract_trait_item_trait(trait_).unwrap();
    assert_eq!(generated.items.len(), 3);
    assert!(matches!(&generated.items[0], Member::Other(_)));
    assert!(matches!(&generated.items[1], Member::Method(_)));
    assert!(matches!(&generated.items[2], Member::Method(_)));
}

#[test]
fn test_marker_on_inherent_impl_is_fatal() {
    let impl_ = ImplBlock {
        head: vec![id("impl"), id("Thing")],
        is_trait_impl: false,
        items: vec![],
    };
    let err = match contract_trait_expand(ContractTarget::Impl(impl_)) {
        Err(e) => e,
        Ok(_) => panic!("expected an error"),
    };
    assert_eq!(err, ExpandError::NotATraitOrImpl);
}

#[test]
fn test_marker_on_other_item_is_fatal() {
    let err = match contract_trait_expand(ContractTarget::Other(vec![id("struct"), id("S"), op(";")]))
    {
        Err(e) => e,
        Ok(_) => panic!("expected an error"),
    };
    assert_eq!(err, ExpandError::NotATraitOrImpl);
}
