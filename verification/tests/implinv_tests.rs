//! Invariants applied to whole `impl` blocks.

use contracts::errors::ExpandError;
use contracts::function::{FnArg, FnDecl, Pat};
use contracts::implinv::{expand_impl_invariant, expand_invariant, InvariantTarget};
use contracts::modes::{BuildFlags, ContractMode};
use contracts::render::render_toks_str;
use contracts::tokens::{Delim, Tok};
use contracts::traits::{ImplBlock, Member};

fn id(s: &str) -> Tok {
    Tok::Ident(s.to_owned())
}

fn op(s: &str) -> Tok {
    Tok::Op(s.to_owned())
}

fn lit(s: &str) -> Tok {
    Tok::LitOther(s.to_owned())
}

fn no_flags() -> BuildFlags {
    BuildFlags { disable_contracts: false, override_debug: false, override_log: false }
}

fn receiver_method(name: &str, body: Vec<Tok>) -> FnDecl {
    FnDecl {
        attrs: vec![],
        vis: vec![],
        name: name.to_owned(),
        generics: vec![],
        args: vec![FnArg::Receiver(vec![op("&"), id("mut"), id("self")])],
        ret_ty: None,
        where_clause: vec![],
        body: Some(body),
    }
}

fn static_method(name: &str, body: Vec<Tok>) -> FnDecl {
    FnDecl {
        attrs: vec![],
        vis: vec![],
        name: name.to_owned(),
        generics: vec![],
        args: vec![FnArg::Typed(Pat::Ident("count".to_owned()), vec![op(":"), id("usize")])],
        ret_ty: Some(vec![id("Self")]),
        where_clause: vec![],
        body: Some(body),
    }
}

#[test]
fn test_invariant_replicated_on_receiver_methods() {
    // #[invariant(self.count % 2 == 0)] impl EvenAdder { ... }
    let inv_args = vec![
        id("self"),
        op("."),
        id("count"),
        op("%"),
        lit("2"),
        op("=="),
        lit("0"),
    ];
    let impl_ = ImplBlock {
        head: vec![id("impl"), id("EvenAdder")],
        is_trait_impl: false,
        items: vec![
            Member::Method(static_method("new", vec![id("Self"), op("::"), id("default"), Tok::Group(Delim::Paren, vec![])])),
            Member::Method(receiver_method(
                "advance",
                vec![id("self"), op("."), id("count"), op("+="), lit("2"), op(";")],
            )),
        ],
    };
    let out = expand_impl_invariant(impl_, ContractMode::Always, &inv_args, no_flags()).unwrap();
    assert_eq!(out.items.len(), 2);
    // A method without a receiver is untouched.
    if let Member::Method(m) = &out.items[0] {
        assert_eq!(m.name, "new");
        assert_eq!(render_toks_str(m.body.as_ref().unwrap()), "Self :: default ()");
    } else {
        panic!()
    }
    // A receiver-taking method checks the invariant on entry and before
    // returning.
    if let Member::Method(m) = &out.items[1] {
        assert_eq!(m.name, "advance");
        let rendered = render_toks_str(m.body.as_ref().unwrap());
        let entry = rendered
            .find("Invariant (as pre-condition) of advance violated: self . count % 2 == 0")
            .unwrap();
        let run_pos = rendered.find("let mut run").unwrap();
        let exit = rendered
            .find("Invariant (as post-condition) of advance violated: self . count % 2 == 0")
            .unwrap();
        assert!(entry < run_pos && run_pos < exit);
    } else {
        panic!()
    }
}

#[test]
fn test_invariant_on_function_target() {
    let inv_args = vec![op("*"), id("num"), op("%"), lit("2"), op("=="), lit("0")];
    let func = FnDecl {
        attrs: vec![],
        vis: vec![],
        name: "advance_even".to_owned(),
        generics: vec![],
        args: vec![FnArg::Typed(
            Pat::Ident("num".to_owned()),
            vec![op(":"), op("&"), id("mut"), id("usize")],
        )],
        ret_ty: None,
        where_clause: vec![],
        body: Some(vec![op("*"), id("num"), op("+="), lit("2"), op(";")]),
    };
    let out = expand_invariant(
        InvariantTarget::Func(func),
        ContractMode::Always,
        &inv_args,
        no_flags(),
    )
    .unwrap();
    let rendered = match out {
        InvariantTarget::Func(g) => render_toks_str(&g.body.unwrap()),
        _ => panic!(),
    };
    assert!(rendered.contains("Invariant (as pre-condition) of advance_even violated"));
    assert!(rendered.contains("Invariant (as post-condition) of advance_even violated"));
}

#[test]
fn test_invariant_on_other_item_is_fatal() {
    let inv_args = vec![id("x")];
    let err = match expand_invariant(
        InvariantTarget::Other(vec![id("struct"), id("S"), op(";")]),
        ContractMode::Always,
        &inv_args,
        no_flags(),
    ) {
        Err(e) => e,
        Ok(_) => panic!("expected an error"),
    };
    assert_eq!(err, ExpandError::NotAFunctionOrImpl);
}
