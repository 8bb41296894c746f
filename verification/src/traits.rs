//! Propagating contracts through traits.
//!
//! A contract-carrying trait is rewritten so that every invocation of its
//! methods goes through a checked path: each method splits into a hidden,
//! always-inlined internal declaration under a reserved name — stripped of
//! every attribute — and a public wrapper that keeps the original name and
//! attributes and forwards all arguments to the internal name through a
//! default body.  A matching trait `impl` renames its methods to the same
//! internal names, and nothing else; the checks live only in the trait's
//! wrappers.  Both sides must be transformed together to be correct.
//!
//! Forwarding reconstructs call syntax for identifier patterns and for
//! tuple patterns, recursively; any other pattern kind is a fatal
//! unsupported-pattern error.

use vstd::prelude::*;
use vstd::string::StringExecFns;
use crate::errors::ExpandError;
use crate::function::{args_model, attrs_model, copy_fn_decl, copy_opt_toks,
    lemma_args_model_index, lemma_args_model_len, lemma_pats_model_index, lemma_pats_model_len,
    pats_model, Attr, AttrModel, FnArg, FnArgModel, FnDecl, FnDeclModel, Pat, PatModel};
use crate::tokens::copy_toks;
use crate::tokens::{append_toks, push_tok, tok_ident, tok_op, toks_model, Delim, Tok, TokModel};

verus! {

/// The reserved internal name of a re-routed trait method.
pub open spec fn impl_name_of(name: Seq<char>) -> Seq<char> {
    "__contracts_impl_"@ + name
}

/// The internal name used for the re-routed method.
pub fn contract_method_impl_name(name: &str) -> (r: String)
    ensures
        r@ == impl_name_of(name@),
{
    let mut s: String = "__contracts_impl_".to_owned();
    s.append(name);
    s
}

/// One item of a trait or an `impl` block: a method, or anything else
/// kept verbatim.
pub enum Member {
    Method(FnDecl),
    Other(Vec<Tok>),
}

/// The model of one item.
pub enum MemberModel {
    Method(FnDeclModel),
    Other(Seq<TokModel>),
}

impl View for Member {
    type V = MemberModel;

    open spec fn view(&self) -> MemberModel {
        match self {
            Member::Method(f) => MemberModel::Method(f@),
            Member::Other(ts) => MemberModel::Other(toks_model(ts@)),
        }
    }
}

pub open spec fn members_model(ms: Seq<Member>) -> Seq<MemberModel>
    decreases ms,
{
    if ms.len() == 0 {
        Seq::empty()
    } else {
        members_model(ms.drop_last()).push(ms.last()@)
    }
}

pub proof fn lemma_members_model_index(ms: Seq<Member>, i: int)
    requires
        0 <= i < ms.len(),
    ensures
        members_model(ms).len() == ms.len(),
        members_model(ms)[i] == ms[i]@,
    decreases ms,
{
    lemma_members_model_len(ms);
    if i < ms.len() - 1 {
        lemma_members_model_index(ms.drop_last(), i);
    } else {
        assert(ms.last() == ms[i]);
    }
}

pub proof fn lemma_members_model_len(ms: Seq<Member>)
    ensures
        members_model(ms).len() == ms.len(),
    decreases ms,
{
    if ms.len() > 0 {
        lemma_members_model_len(ms.drop_last());
    }
}

pub proof fn lemma_members_model_push(ms: Seq<Member>, m: Member)
    ensures
        members_model(ms.push(m)) == members_model(ms).push(m@),
{
    assert(ms.push(m).drop_last() =~= ms);
}

/// A `trait` declaration: its header tokens and its items.
pub struct TraitDecl {
    /// Everything before the brace — attributes, visibility, `trait`, the
    /// name, generics, supertraits — kept verbatim.
    pub head: Vec<Tok>,
    /// The items inside the braces, in order.
    pub items: Vec<Member>,
}

/// The model of a trait declaration.
pub struct TraitDeclModel {
    pub head: Seq<TokModel>,
    pub items: Seq<MemberModel>,
}

impl View for TraitDecl {
    type V = TraitDeclModel;

    open spec fn view(&self) -> TraitDeclModel {
        TraitDeclModel { head: toks_model(self.head@), items: members_model(self.items@) }
    }
}

/// An `impl` block: its header tokens, whether it implements a trait, and
/// its items.
pub struct ImplBlock {
    /// Everything before the brace, kept verbatim.
    pub head: Vec<Tok>,
    /// Whether this is an `impl Trait for Type` block.
    pub is_trait_impl: bool,
    /// The items inside the braces, in order.
    pub items: Vec<Member>,
}

/// The model of an `impl` block.
pub struct ImplBlockModel {
    pub head: Seq<TokModel>,
    pub is_trait_impl: bool,
    pub items: Seq<MemberModel>,
}

impl View for ImplBlock {
    type V = ImplBlockModel;

    open spec fn view(&self) -> ImplBlockModel {
        ImplBlockModel {
            head: toks_model(self.head@),
            is_trait_impl: self.is_trait_impl,
            items: members_model(self.items@),
        }
    }
}

/// Whether forwarding supports one pattern.
pub open spec fn pat_supported(p: PatModel) -> bool
    decreases p,
{
    match p {
        PatModel::Ident(_) => true,
        PatModel::Tuple(ps) => pats_supported(ps),
        PatModel::Other(_) => false,
    }
}

pub open spec fn pats_supported(ps: Seq<PatModel>) -> bool
    decreases ps,
{
    if ps.len() == 0 {
        true
    } else {
        pats_supported(ps.drop_last()) && pat_supported(ps.last())
    }
}

/// The call tokens that forward one pattern's binding.
pub open spec fn pat_fwd(p: PatModel) -> Seq<TokModel>
    decreases p,
{
    match p {
        PatModel::Ident(s) => seq![TokModel::Ident(s)],
        PatModel::Tuple(ps) => seq![TokModel::Group(Delim::Paren, pats_fwd(ps))],
        PatModel::Other(_) => Seq::empty(),
    }
}

/// The forwarded elements of a tuple pattern, each followed by a comma.
pub open spec fn pats_fwd(ps: Seq<PatModel>) -> Seq<TokModel>
    decreases ps,
{
    if ps.len() == 0 {
        Seq::empty()
    } else {
        pats_fwd(ps.drop_last()) + pat_fwd(ps.last()) + seq![TokModel::Op(","@)]
    }
}

/// Whether forwarding supports every argument of a signature.
pub open spec fn args_supported(args: Seq<FnArgModel>) -> bool {
    forall|i: int|
        0 <= i < args.len() ==> match #[trigger] args[i] {
            FnArgModel::Receiver(_) => true,
            FnArgModel::Typed(p, _) => pat_supported(p),
        }
}

/// The forwarded call arguments of a signature, each followed by a comma;
/// a receiver forwards as `self`.
pub open spec fn args_fwd(args: Seq<FnArgModel>) -> Seq<TokModel>
    decreases args,
{
    if args.len() == 0 {
        Seq::empty()
    } else {
        args_fwd(args.drop_last()) + (match args.last() {
            FnArgModel::Receiver(_) => seq![TokModel::Ident("self"@)],
            FnArgModel::Typed(p, _) => pat_fwd(p),
        }) + seq![TokModel::Op(","@)]
    }
}

/// The attributes of the hidden internal declaration: the user's are
/// cleared, and it is marked hidden, documented as internal, and inlined.
pub open spec fn internal_attrs() -> Seq<AttrModel> {
    seq![
        AttrModel {
            name: "doc"@,
            input: seq![
                TokModel::Group(Delim::Paren, seq![TokModel::Ident("hidden"@)]),
            ],
        },
        AttrModel {
            name: "doc"@,
            input: seq![
                TokModel::Op("="@),
                TokModel::LitStr(
                    "This is an internal function that is not meant to be used directly!"@,
                ),
            ],
        },
        AttrModel {
            name: "doc"@,
            input: seq![
                TokModel::Op("="@),
                TokModel::LitStr(
                    "See the documentation of the `#[contract_trait]` attribute."@,
                ),
            ],
        },
        AttrModel {
            name: "inline"@,
            input: seq![
                TokModel::Group(Delim::Paren, seq![TokModel::Ident("always"@)]),
            ],
        },
    ]
}

/// The hidden internal declaration of one trait method: renamed, stripped
/// of the user's attributes, hidden and inlined, otherwise unchanged.
pub open spec fn renamed_method(m: FnDeclModel) -> FnDeclModel {
    FnDeclModel { attrs: internal_attrs(), name: impl_name_of(m.name), ..m }
}

/// The public wrapper of one trait method: the original name and
/// attributes, with a default body that forwards every argument to the
/// internal name: `Self::<internal>(<args>)`.
pub open spec fn wrapper_method(m: FnDeclModel) -> FnDeclModel {
    FnDeclModel {
        body: Some(
            seq![
                TokModel::Ident("Self"@),
                TokModel::Op("::"@),
                TokModel::Ident(impl_name_of(m.name)),
                TokModel::Group(Delim::Paren, args_fwd(m.args)),
            ],
        ),
        ..m
    }
}

/// The non-method items of a sequence, in order.
pub open spec fn non_methods(items: Seq<MemberModel>) -> Seq<MemberModel>
    decreases items,
{
    if items.len() == 0 {
        Seq::empty()
    } else if items.last() is Method {
        non_methods(items.drop_last())
    } else {
        non_methods(items.drop_last()).push(items.last())
    }
}

/// The internal/wrapper pairs of the method items, in method order.
pub open spec fn method_pairs(items: Seq<MemberModel>) -> Seq<MemberModel>
    decreases items,
{
    if items.len() == 0 {
        Seq::empty()
    } else {
        match items.last() {
            MemberModel::Method(m) => method_pairs(items.drop_last()).push(
                MemberModel::Method(renamed_method(m)),
            ).push(MemberModel::Method(wrapper_method(m))),
            MemberModel::Other(_) => method_pairs(items.drop_last()),
        }
    }
}

/// Whether forwarding supports every method of the item sequence.
pub open spec fn items_supported(items: Seq<MemberModel>) -> bool {
    forall|i: int|
        0 <= i < items.len() ==> match #[trigger] items[i] {
            MemberModel::Method(m) => args_supported(m.args),
            MemberModel::Other(_) => true,
        }
}

/// The transformed trait: the non-method items first, then one hidden
/// internal declaration and one public wrapper per method, in order.
pub open spec fn transformed_trait(t: TraitDeclModel) -> TraitDeclModel {
    TraitDeclModel { head: t.head, items: non_methods(t.items) + method_pairs(t.items) }
}

/// The transformed trait `impl`: every method renamed to its internal
/// name, nothing else changed.
pub open spec fn renamed_impl_items(items: Seq<MemberModel>) -> Seq<MemberModel>
    decreases items,
{
    if items.len() == 0 {
        Seq::empty()
    } else {
        renamed_impl_items(items.drop_last()).push(
            match items.last() {
                MemberModel::Method(m) => MemberModel::Method(
                    FnDeclModel { name: impl_name_of(m.name), ..m },
                ),
                o => o,
            },
        )
    }
}

pub open spec fn transformed_impl(b: ImplBlockModel) -> ImplBlockModel {
    ImplBlockModel { head: b.head, is_trait_impl: b.is_trait_impl, items: renamed_impl_items(b.items) }
}

/// Builds the forwarding tokens of one pattern.
///
/// Fails exactly on a pattern that forwarding does not support.
pub fn pat_fwd_toks(p: &Pat) -> (r: Result<Vec<Tok>, ExpandError>)
    ensures
        r is Ok <==> pat_supported(p@),
        r matches Ok(ts) ==> toks_model(ts@) == pat_fwd(p@),
    decreases p@,
{
    match p {
        Pat::Ident(s) => {
            let mut out: Vec<Tok> = Vec::new();
            push_tok(&mut out, Tok::Ident(s.clone()));
            proof {
                assert(toks_model(out@) =~= pat_fwd(p@));
            }
            Ok(out)
        },
        Pat::Tuple(ps) => {
            let ghost pm = pats_model(ps@);
            proof {
                lemma_pats_model_len(ps@);
            }
            let mut inner: Vec<Tok> = Vec::new();
            let mut i: usize = 0;
            proof {
                assert(toks_model(inner@) =~= pats_fwd(pm.take(0)));
            }
            while i < ps.len()
                invariant
                    0 <= i <= ps@.len(),
                    pm == pats_model(ps@),
                    pm.len() == ps@.len(),
                    p@ == PatModel::Tuple(pm),
                    toks_model(inner@) == pats_fwd(pm.take(i as int)),
                    pats_supported(pm.take(i as int)),
                decreases ps@.len() - i,
            {
                proof {
                    lemma_pats_model_index(ps@, i as int);
                    vstd::seq::axiom_seq_index_decreases(pm, i as int);
                    assert(decreases_to!(p@ => p@->Tuple_0));
                    assert(p@->Tuple_0 == pm);
                }
                let piece = match pat_fwd_toks(&ps[i]) {
                    Ok(ts) => ts,
                    Err(e) => {
                        proof {
                            assert(!pats_supported(pm)) by {
                                lemma_pats_supported_index(pm, i as int);
                            }
                        }
                        return Err(e);
                    },
                };
                append_toks(&mut inner, &piece);
                push_tok(&mut inner, tok_op(","));
                proof {
                    assert(pm.take(i as int + 1).drop_last() =~= pm.take(i as int));
                    assert(pm.take(i as int + 1).last() == pm[i as int]);
                    assert(toks_model(inner@) =~= pats_fwd(pm.take(i as int + 1)));
                }
                i = i + 1;
            }
            proof {
                assert(pm.take(ps@.len() as int) =~= pm);
            }
            let mut out: Vec<Tok> = Vec::new();
            push_tok(&mut out, Tok::Group(Delim::Paren, inner));
            proof {
                assert(toks_model(out@) =~= pat_fwd(p@));
            }
            Ok(out)
        },
        Pat::Other(_) => Err(ExpandError::UnsupportedPattern),
    }
}

/// A supported pattern sequence is supported at every index, and a failure
/// at one index refutes the whole.
proof fn lemma_pats_supported_index(ps: Seq<PatModel>, i: int)
    requires
        0 <= i < ps.len(),
        !pat_supported(ps[i]),
    ensures
        !pats_supported(ps),
    decreases ps,
{
    if i < ps.len() - 1 {
        lemma_pats_supported_index(ps.drop_last(), i);
    } else {
        assert(ps.last() == ps[i]);
    }
}

/// Builds the forwarded call arguments of one signature.
///
/// Fails exactly on an argument pattern that forwarding does not support.
pub fn args_fwd_toks(args: &Vec<FnArg>) -> (r: Result<Vec<Tok>, ExpandError>)
    ensures
        r is Ok <==> args_supported(args_model(args@)),
        r matches Ok(ts) ==> toks_model(ts@) == args_fwd(args_model(args@)),
{
    let ghost am = args_model(args@);
    proof {
        lemma_args_model_len(args@);
    }
    let mut out: Vec<Tok> = Vec::new();
    let mut i: usize = 0;
    proof {
        assert(toks_model(out@) =~= args_fwd(am.take(0)));
    }
    while i < args.len()
        invariant
            0 <= i <= args@.len(),
            am == args_model(args@),
            am.len() == args@.len(),
            toks_model(out@) == args_fwd(am.take(i as int)),
            forall|j: int|
                0 <= j < i ==> match #[trigger] am[j] {
                    FnArgModel::Receiver(_) => true,
                    FnArgModel::Typed(pp, _) => pat_supported(pp),
                },
        decreases args@.len() - i,
    {
        proof {
            lemma_args_model_index(args@, i as int);
            assert(am.take(i as int + 1).drop_last() =~= am.take(i as int));
            assert(am.take(i as int + 1).last() == am[i as int]);
        }
        match &args[i] {
            FnArg::Receiver(_) => {
                push_tok(&mut out, tok_ident("self"));
                push_tok(&mut out, tok_op(","));
            },
            FnArg::Typed(p, _) => {
                let piece = match pat_fwd_toks(p) {
                    Ok(ts) => ts,
                    Err(e) => {
                        proof {
                            assert(!args_supported(am));
                        }
                        return Err(e);
                    },
                };
                append_toks(&mut out, &piece);
                push_tok(&mut out, tok_op(","));
            },
        }
        proof {
            assert(toks_model(out@) =~= args_fwd(am.take(i as int + 1)));
        }
        i = i + 1;
    }
    proof {
        assert(am.take(args@.len() as int) =~= am);
    }
    Ok(out)
}

/// Builds the attribute list of the hidden internal declaration.
fn internal_attrs_vec() -> (r: Vec<Attr>)
    ensures
        attrs_model(r@) == internal_attrs(),
{
    let mut hidden_inner: Vec<Tok> = Vec::new();
    push_tok(&mut hidden_inner, tok_ident("hidden"));
    proof {
        assert(toks_model(hidden_inner@) =~= seq![TokModel::Ident("hidden"@)]);
    }
    let mut a0_input: Vec<Tok> = Vec::new();
    push_tok(&mut a0_input, Tok::Group(Delim::Paren, hidden_inner));
    let a0 = Attr { name: "doc".to_owned(), input: a0_input };

    let mut a1_input: Vec<Tok> = Vec::new();
    push_tok(&mut a1_input, tok_op("="));
    push_tok(
        &mut a1_input,
        Tok::LitStr(
            "This is an internal function that is not meant to be used directly!".to_owned(),
        ),
    );
    let a1 = Attr { name: "doc".to_owned(), input: a1_input };

    let mut a2_input: Vec<Tok> = Vec::new();
    push_tok(&mut a2_input, tok_op("="));
    push_tok(
        &mut a2_input,
        Tok::LitStr("See the documentation of the `#[contract_trait]` attribute.".to_owned()),
    );
    let a2 = Attr { name: "doc".to_owned(), input: a2_input };

    let mut always_inner: Vec<Tok> = Vec::new();
    push_tok(&mut always_inner, tok_ident("always"));
    proof {
        assert(toks_model(always_inner@) =~= seq![TokModel::Ident("always"@)]);
    }
    let mut a3_input: Vec<Tok> = Vec::new();
    push_tok(&mut a3_input, Tok::Group(Delim::Paren, always_inner));
    let a3 = Attr { name: "inline".to_owned(), input: a3_input };

    let ghost a0m = a0@;
    let ghost a1m = a1@;
    let ghost a2m = a2@;
    let ghost a3m = a3@;
    let mut r: Vec<Attr> = Vec::new();
    r.push(a0);
    r.push(a1);
    r.push(a2);
    r.push(a3);
    proof {
        crate::function::lemma_attrs_model_index(r@, 0);
        crate::function::lemma_attrs_model_index(r@, 1);
        crate::function::lemma_attrs_model_index(r@, 2);
        crate::function::lemma_attrs_model_index(r@, 3);
        assert(a0m.input =~= internal_attrs()[0].input);
        assert(a1m.input =~= internal_attrs()[1].input);
        assert(a2m.input =~= internal_attrs()[2].input);
        assert(a3m.input =~= internal_attrs()[3].input);
        assert(a0m == internal_attrs()[0]);
        assert(a1m == internal_attrs()[1]);
        assert(a2m == internal_attrs()[2]);
        assert(a3m == internal_attrs()[3]);
        assert(attrs_model(r@) =~= internal_attrs());
    }
    r
}

/// Builds the hidden internal declaration of one trait method.
pub fn create_method_rename(m: &FnDecl) -> (r: FnDecl)
    ensures
        r@ == renamed_method(m@),
{
    let copy = copy_fn_decl(m);
    FnDecl {
        attrs: internal_attrs_vec(),
        vis: copy.vis,
        name: contract_method_impl_name(m.name.as_str()),
        generics: copy.generics,
        args: copy.args,
        ret_ty: copy.ret_ty,
        where_clause: copy.where_clause,
        body: copy.body,
    }
}

/// Builds the public wrapper of one trait method.
///
/// Fails exactly on an argument pattern that forwarding does not support.
pub fn create_method_wrapper(m: &FnDecl) -> (r: Result<FnDecl, ExpandError>)
    ensures
        r is Ok <==> args_supported(args_model(m.args@)),
        r matches Ok(f) ==> f@ == wrapper_method(m@),
{
    let fwd = match args_fwd_toks(&m.args) {
        Ok(ts) => ts,
        Err(e) => {
            return Err(e);
        },
    };
    let copy = copy_fn_decl(m);
    let mut body: Vec<Tok> = Vec::new();
    push_tok(&mut body, tok_ident("Self"));
    push_tok(&mut body, tok_op("::"));
    push_tok(&mut body, Tok::Ident(contract_method_impl_name(m.name.as_str())));
    push_tok(&mut body, Tok::Group(Delim::Paren, fwd));
    proof {
        assert(toks_model(body@) =~= wrapper_method(m@).body->0);
    }
    Ok(
        FnDecl {
            attrs: copy.attrs,
            vis: copy.vis,
            name: copy.name,
            generics: copy.generics,
            args: copy.args,
            ret_ty: copy.ret_ty,
            where_clause: copy.where_clause,
            body: Some(body),
        },
    )
}

/// Modifies a trait declaration so that every method invocation goes
/// through the checked wrapper: non-method items stay first, and each
/// method becomes a hidden internal declaration followed by its public
/// wrapper.
///
/// Fails exactly on a method argument pattern that forwarding does not
/// support.
pub fn contract_trait_item_trait(trait_: TraitDecl) -> (r: Result<TraitDecl, ExpandError>)
    ensures
        r is Ok <==> items_supported(members_model(trait_.items@)),
        r matches Ok(t) ==> t@ == transformed_trait(trait_@),
{
    let ghost im = members_model(trait_.items@);
    proof {
        lemma_members_model_len(trait_.items@);
    }
    let mut others: Vec<Member> = Vec::new();
    let mut pairs: Vec<Member> = Vec::new();
    let mut i: usize = 0;
    proof {
        assert(members_model(others@) =~= non_methods(im.take(0)));
        assert(members_model(pairs@) =~= method_pairs(im.take(0)));
    }
    while i < trait_.items.len()
        invariant
            0 <= i <= trait_.items@.len(),
            im == members_model(trait_.items@),
            im.len() == trait_.items@.len(),
            members_model(others@) == non_methods(im.take(i as int)),
            members_model(pairs@) == method_pairs(im.take(i as int)),
            forall|j: int|
                0 <= j < i ==> match #[trigger] im[j] {
                    MemberModel::Method(mm) => args_supported(mm.args),
                    MemberModel::Other(_) => true,
                },
        decreases trait_.items@.len() - i,
    {
        proof {
            lemma_members_model_index(trait_.items@, i as int);
            assert(im.take(i as int + 1).drop_last() =~= im.take(i as int));
            assert(im.take(i as int + 1).last() == im[i as int]);
        }
        match &trait_.items[i] {
            Member::Method(m) => {
                let rename = create_method_rename(m);
                let wrapper = match create_method_wrapper(m) {
                    Ok(w) => w,
                    Err(e) => {
                        proof {
                            assert(!items_supported(im));
                        }
                        return Err(e);
                    },
                };
                let ghost rename_m = rename@;
                let ghost wrapper_m = wrapper@;
                proof {
                    lemma_members_model_push(pairs@, Member::Method(rename));
                }
                pairs.push(Member::Method(rename));
                proof {
                    lemma_members_model_push(pairs@, Member::Method(wrapper));
                }
                pairs.push(Member::Method(wrapper));
                proof {
                    assert(members_model(pairs@) =~= method_pairs(im.take(i as int + 1)));
                    assert(members_model(others@) =~= non_methods(im.take(i as int + 1)));
                }
            },
            Member::Other(ts) => {
                let keep = Member::Other(copy_toks(ts));
                proof {
                    lemma_members_model_push(others@, keep);
                    assert(keep@ == im[i as int]);
                }
                others.push(keep);
                proof {
                    assert(members_model(others@) =~= non_methods(im.take(i as int + 1)));
                    assert(members_model(pairs@) =~= method_pairs(im.take(i as int + 1)));
                }
            },
        }
        i = i + 1;
    }
    proof {
        assert(im.take(trait_.items@.len() as int) =~= im);
    }
    let mut items = others;
    let ghost others_m = members_model(items@);
    let mut k: usize = 0;
    proof {
        lemma_members_model_len(pairs@);
        assert(members_model(pairs@).take(0) =~= Seq::<MemberModel>::empty());
        assert(others_m + members_model(pairs@).take(0) =~= others_m);
    }
    while k < pairs.len()
        invariant
            0 <= k <= pairs@.len(),
            members_model(pairs@).len() == pairs@.len(),
            members_model(items@) == others_m + members_model(pairs@).take(k as int),
        decreases pairs@.len() - k,
    {
        proof {
            lemma_members_model_index(pairs@, k as int);
        }
        let mv = copy_member(&pairs[k]);
        proof {
            lemma_members_model_push(items@, mv);
            assert((others_m + members_model(pairs@).take(k as int)).push(
                members_model(pairs@)[k as int],
            ) =~= others_m + members_model(pairs@).take(k as int + 1));
        }
        items.push(mv);
        k = k + 1;
    }
    proof {
        assert(members_model(pairs@).take(pairs@.len() as int) =~= members_model(pairs@));
    }
    Ok(TraitDecl { head: trait_.head, items })
}

/// A structure-preserving copy of one item.
fn copy_member(m: &Member) -> (r: Member)
    ensures
        r@ == m@,
{
    match m {
        Member::Method(f) => Member::Method(copy_fn_decl(f)),
        Member::Other(ts) => Member::Other(copy_toks(ts)),
    }
}

/// Renames every method of a trait `impl` to its internal name, the only
/// change the implementation side needs: the checks live in the trait's
/// wrappers, which dispatch through the renamed slots.
pub fn contract_trait_item_impl(impl_: ImplBlock) -> (r: ImplBlock)
    ensures
        r@ == transformed_impl(impl_@),
{
    let ghost im = members_model(impl_.items@);
    proof {
        lemma_members_model_len(impl_.items@);
    }
    let mut items: Vec<Member> = Vec::new();
    let mut i: usize = 0;
    proof {
        assert(members_model(items@) =~= renamed_impl_items(im.take(0)));
    }
    while i < impl_.items.len()
        invariant
            0 <= i <= impl_.items@.len(),
            im == members_model(impl_.items@),
            im.len() == impl_.items@.len(),
            members_model(items@) == renamed_impl_items(im.take(i as int)),
        decreases impl_.items@.len() - i,
    {
        proof {
            lemma_members_model_index(impl_.items@, i as int);
            assert(im.take(i as int + 1).drop_last() =~= im.take(i as int));
            assert(im.take(i as int + 1).last() == im[i as int]);
        }
        let item = match &impl_.items[i] {
            Member::Method(m) => {
                let copy = copy_fn_decl(m);
                Member::Method(
                    FnDecl {
                        attrs: copy.attrs,
                        vis: copy.vis,
                        name: contract_method_impl_name(m.name.as_str()),
                        generics: copy.generics,
                        args: copy.args,
                        ret_ty: copy.ret_ty,
                        where_clause: copy.where_clause,
                        body: copy.body,
                    },
                )
            },
            Member::Other(ts) => Member::Other(copy_toks(ts)),
        };
        proof {
            lemma_members_model_push(items@, item);
            assert(members_model(items@).push(item@) =~= renamed_impl_items(im.take(i as int + 1)));
        }
        items.push(item);
        i = i + 1;
    }
    proof {
        assert(im.take(impl_.items@.len() as int) =~= im);
    }
    ImplBlock { head: impl_.head, is_trait_impl: impl_.is_trait_impl, items }
}

/// An item the contract-trait marker was applied to.
pub enum ContractTarget {
    /// A `trait` declaration.
    Trait(TraitDecl),
    /// An `impl` block.
    Impl(ImplBlock),
    /// Any other item, kept for the error report.
    Other(Vec<Tok>),
}

impl View for ContractTarget {
    type V = ContractTargetModel;

    open spec fn view(&self) -> ContractTargetModel {
        match self {
            ContractTarget::Trait(t) => ContractTargetModel::Trait(t@),
            ContractTarget::Impl(b) => ContractTargetModel::Impl(b@),
            ContractTarget::Other(ts) => ContractTargetModel::Other(toks_model(ts@)),
        }
    }
}

/// The model of a marker target.
pub enum ContractTargetModel {
    Trait(TraitDeclModel),
    Impl(ImplBlockModel),
    Other(Seq<TokModel>),
}

/// Applies the contract-trait marker to one item: a trait is rewritten to
/// route every call through its checked wrappers, a trait `impl` renames
/// its methods to match, and anything else — a non-trait item or an
/// inherent `impl` — is a fatal error.
pub fn contract_trait_expand(item: ContractTarget) -> (r: Result<ContractTarget, ExpandError>)
    ensures
        r is Ok <==> (match item@ {
            ContractTargetModel::Trait(t) => items_supported(t.items),
            ContractTargetModel::Impl(b) => b.is_trait_impl,
            ContractTargetModel::Other(_) => false,
        }),
        r matches Ok(out) ==> (match (item@, out@) {
            (ContractTargetModel::Trait(t), ContractTargetModel::Trait(t2)) => t2
                == transformed_trait(t),
            (ContractTargetModel::Impl(b), ContractTargetModel::Impl(b2)) => b2
                == transformed_impl(b),
            _ => false,
        }),
{
    match item {
        ContractTarget::Trait(t) => {
            match contract_trait_item_trait(t) {
                Ok(t2) => Ok(ContractTarget::Trait(t2)),
                Err(e) => Err(e),
            }
        },
        ContractTarget::Impl(b) => {
            if b.is_trait_impl {
                Ok(ContractTarget::Impl(contract_trait_item_impl(b)))
            } else {
                Err(ExpandError::NotATraitOrImpl)
            }
        },
        ContractTarget::Other(_) => Err(ExpandError::NotATraitOrImpl),
    }
}

} // verus!
