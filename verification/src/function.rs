//! The modeled shape of the declarations the transformation rewrites.
//!
//! A function declaration is carried with its attributes, name, argument
//! list and body as structured data; everything the pipeline only re-emits
//! — visibility, generics, argument types, the where clause — stays an
//! opaque token run.  Argument patterns are structured as far as argument
//! forwarding must understand them: identifiers and tuples of supported
//! patterns; anything else is kept verbatim and refused where forwarding
//! would need it.

use vstd::prelude::*;
use crate::tokens::{copy_toks, toks_model, Tok, TokModel};

verus! {

/// An argument pattern, as far as forwarding understands it.
pub enum Pat {
    /// A plain identifier pattern, possibly behind `mut` or `ref`.
    Ident(String),
    /// A tuple of patterns, forwarded recursively.
    Tuple(Vec<Pat>),
    /// Any other pattern, kept verbatim; forwarding refuses it.
    Other(Vec<Tok>),
}

/// The model of an argument pattern.
pub enum PatModel {
    Ident(Seq<char>),
    Tuple(Seq<PatModel>),
    Other(Seq<TokModel>),
}

pub open spec fn pat_model(p: Pat) -> PatModel
    decreases p,
{
    match p {
        Pat::Ident(s) => PatModel::Ident(s@),
        Pat::Tuple(ps) => PatModel::Tuple(pats_model(ps@)),
        Pat::Other(ts) => PatModel::Other(toks_model(ts@)),
    }
}

pub open spec fn pats_model(ps: Seq<Pat>) -> Seq<PatModel>
    decreases ps,
{
    if ps.len() == 0 {
        Seq::empty()
    } else {
        pats_model(ps.drop_last()).push(pat_model(ps.last()))
    }
}

impl View for Pat {
    type V = PatModel;

    open spec fn view(&self) -> PatModel {
        pat_model(*self)
    }
}

/// The models of a pattern sequence, index by index.
pub proof fn lemma_pats_model_index(ps: Seq<Pat>, i: int)
    requires
        0 <= i < ps.len(),
    ensures
        pats_model(ps).len() == ps.len(),
        pats_model(ps)[i] == ps[i]@,
    decreases ps,
{
    lemma_pats_model_len(ps);
    if i < ps.len() - 1 {
        lemma_pats_model_index(ps.drop_last(), i);
    } else {
        assert(ps.last() == ps[i]);
    }
}

pub proof fn lemma_pats_model_len(ps: Seq<Pat>)
    ensures
        pats_model(ps).len() == ps.len(),
    decreases ps,
{
    if ps.len() > 0 {
        lemma_pats_model_len(ps.drop_last());
    }
}

/// One argument of a function signature.
pub enum FnArg {
    /// A receiver (`self`, `&self`, `&mut self`), by its tokens.
    Receiver(Vec<Tok>),
    /// An ordinary argument: its pattern, and its type from the colon on.
    Typed(Pat, Vec<Tok>),
}

/// The model of one argument.
pub enum FnArgModel {
    Receiver(Seq<TokModel>),
    Typed(PatModel, Seq<TokModel>),
}

impl View for FnArg {
    type V = FnArgModel;

    open spec fn view(&self) -> FnArgModel {
        match *self {
            FnArg::Receiver(ts) => FnArgModel::Receiver(toks_model(ts@)),
            FnArg::Typed(p, ts) => FnArgModel::Typed(pat_model(p), toks_model(ts@)),
        }
    }
}

pub open spec fn args_model(args: Seq<FnArg>) -> Seq<FnArgModel>
    decreases args,
{
    if args.len() == 0 {
        Seq::empty()
    } else {
        args_model(args.drop_last()).push(args.last()@)
    }
}

pub proof fn lemma_args_model_index(args: Seq<FnArg>, i: int)
    requires
        0 <= i < args.len(),
    ensures
        args_model(args).len() == args.len(),
        args_model(args)[i] == args[i]@,
    decreases args,
{
    lemma_args_model_len(args);
    if i < args.len() - 1 {
        lemma_args_model_index(args.drop_last(), i);
    } else {
        assert(args.last() == args[i]);
    }
}

pub proof fn lemma_args_model_len(args: Seq<FnArg>)
    ensures
        args_model(args).len() == args.len(),
    decreases args,
{
    if args.len() > 0 {
        lemma_args_model_len(args.drop_last());
    }
}

pub proof fn lemma_args_model_push(args: Seq<FnArg>, a: FnArg)
    ensures
        args_model(args.push(a)) == args_model(args).push(a@),
{
    assert(args.push(a).drop_last() =~= args);
}

/// One attribute on a declaration: the last segment of its path, and its
/// raw input tokens.
pub struct Attr {
    pub name: String,
    pub input: Vec<Tok>,
}

/// The model of one attribute.
pub struct AttrModel {
    pub name: Seq<char>,
    pub input: Seq<TokModel>,
}

impl View for Attr {
    type V = AttrModel;

    open spec fn view(&self) -> AttrModel {
        AttrModel { name: self.name@, input: toks_model(self.input@) }
    }
}

pub open spec fn attrs_model(attrs: Seq<Attr>) -> Seq<AttrModel>
    decreases attrs,
{
    if attrs.len() == 0 {
        Seq::empty()
    } else {
        attrs_model(attrs.drop_last()).push(attrs.last()@)
    }
}

pub proof fn lemma_attrs_model_index(attrs: Seq<Attr>, i: int)
    requires
        0 <= i < attrs.len(),
    ensures
        attrs_model(attrs).len() == attrs.len(),
        attrs_model(attrs)[i] == attrs[i]@,
    decreases attrs,
{
    lemma_attrs_model_len(attrs);
    if i < attrs.len() - 1 {
        lemma_attrs_model_index(attrs.drop_last(), i);
    } else {
        assert(attrs.last() == attrs[i]);
    }
}

pub proof fn lemma_attrs_model_len(attrs: Seq<Attr>)
    ensures
        attrs_model(attrs).len() == attrs.len(),
    decreases attrs,
{
    if attrs.len() > 0 {
        lemma_attrs_model_len(attrs.drop_last());
    }
}

pub proof fn lemma_attrs_model_push(attrs: Seq<Attr>, a: Attr)
    ensures
        attrs_model(attrs.push(a)) == attrs_model(attrs).push(a@),
{
    assert(attrs.push(a).drop_last() =~= attrs);
}

/// One function declaration, attributes and body included.
pub struct FnDecl {
    /// The attributes still attached to the declaration, in source order.
    pub attrs: Vec<Attr>,
    /// Visibility and qualifiers before `fn`, kept verbatim.
    pub vis: Vec<Tok>,
    /// The function's name.
    pub name: String,
    /// Generic parameters, kept verbatim.
    pub generics: Vec<Tok>,
    /// The arguments, in order.
    pub args: Vec<FnArg>,
    /// The return type's tokens, or `None` for the unit return.
    pub ret_ty: Option<Vec<Tok>>,
    /// The where clause, kept verbatim.
    pub where_clause: Vec<Tok>,
    /// The tokens inside the body block, or `None` for a bodyless
    /// declaration.
    pub body: Option<Vec<Tok>>,
}

/// The model of a function declaration.
pub struct FnDeclModel {
    pub attrs: Seq<AttrModel>,
    pub vis: Seq<TokModel>,
    pub name: Seq<char>,
    pub generics: Seq<TokModel>,
    pub args: Seq<FnArgModel>,
    pub ret_ty: Option<Seq<TokModel>>,
    pub where_clause: Seq<TokModel>,
    pub body: Option<Seq<TokModel>>,
}

impl View for FnDecl {
    type V = FnDeclModel;

    open spec fn view(&self) -> FnDeclModel {
        FnDeclModel {
            attrs: attrs_model(self.attrs@),
            vis: toks_model(self.vis@),
            name: self.name@,
            generics: toks_model(self.generics@),
            args: args_model(self.args@),
            ret_ty: match self.ret_ty {
                Some(ts) => Some(toks_model(ts@)),
                None => None,
            },
            where_clause: toks_model(self.where_clause@),
            body: match self.body {
                Some(ts) => Some(toks_model(ts@)),
                None => None,
            },
        }
    }
}

/// Whether a declaration's argument list starts with a receiver.
pub open spec fn has_receiver(args: Seq<FnArgModel>) -> bool {
    exists|i: int| 0 <= i < args.len() && args[i] is Receiver
}

/// Whether one executable argument is a receiver.
pub fn arg_is_receiver(a: &FnArg) -> (r: bool)
    ensures
        r == (a@ is Receiver),
{
    match a {
        FnArg::Receiver(_) => true,
        FnArg::Typed(_, _) => false,
    }
}

/// Whether the declaration takes a receiver.
pub fn decl_has_receiver(args: &Vec<FnArg>) -> (r: bool)
    ensures
        r == has_receiver(args_model(args@)),
{
    let ghost am = args_model(args@);
    proof {
        lemma_args_model_len(args@);
    }
    let mut i: usize = 0;
    while i < args.len()
        invariant
            0 <= i <= args@.len(),
            am == args_model(args@),
            am.len() == args@.len(),
            forall|j: int| 0 <= j < i ==> !(am[j] is Receiver),
        decreases args@.len() - i,
    {
        proof {
            lemma_args_model_index(args@, i as int);
        }
        if arg_is_receiver(&args[i]) {
            return true;
        }
        i = i + 1;
    }
    false
}

/// A structure-preserving copy of one pattern.
pub fn copy_pat(p: &Pat) -> (r: Pat)
    ensures
        r@ == p@,
    decreases p@,
{
    match p {
        Pat::Ident(s) => Pat::Ident(s.clone()),
        Pat::Tuple(ps) => {
            let ghost pm = pats_model(ps@);
            proof {
                lemma_pats_model_len(ps@);
                assert(decreases_to!(p@ => p@->Tuple_0));
                assert(p@->Tuple_0 == pm);
            }
            let mut out: Vec<Pat> = Vec::new();
            let mut i: usize = 0;
            proof {
                assert(pats_model(out@) =~= pm.take(0));
            }
            while i < ps.len()
                invariant
                    0 <= i <= ps@.len(),
                    pm == pats_model(ps@),
                    pm.len() == ps@.len(),
                    p@ == PatModel::Tuple(pm),
                    pats_model(out@) == pm.take(i as int),
                decreases ps@.len() - i,
            {
                proof {
                    lemma_pats_model_index(ps@, i as int);
                    vstd::seq::axiom_seq_index_decreases(pm, i as int);
                    assert(decreases_to!(p@ => p@->Tuple_0));
                    assert(p@->Tuple_0 == pm);
                }
                let q = copy_pat(&ps[i]);
                proof {
                    assert(out@.push(q).drop_last() =~= out@);
                    assert(pm.take(i as int).push(pm[i as int]) =~= pm.take(i as int + 1));
                }
                out.push(q);
                i = i + 1;
            }
            proof {
                assert(pm.take(ps@.len() as int) =~= pm);
            }
            Pat::Tuple(out)
        },
        Pat::Other(ts) => Pat::Other(copy_toks(ts)),
    }
}

/// A structure-preserving copy of one argument.
pub fn copy_arg(a: &FnArg) -> (r: FnArg)
    ensures
        r@ == a@,
{
    match a {
        FnArg::Receiver(ts) => FnArg::Receiver(copy_toks(ts)),
        FnArg::Typed(p, ts) => FnArg::Typed(copy_pat(p), copy_toks(ts)),
    }
}

/// A structure-preserving copy of an argument list.
pub fn copy_args(args: &Vec<FnArg>) -> (r: Vec<FnArg>)
    ensures
        args_model(r@) == args_model(args@),
        r@.len() == args@.len(),
{
    let ghost am = args_model(args@);
    proof {
        lemma_args_model_len(args@);
    }
    let mut out: Vec<FnArg> = Vec::new();
    let mut i: usize = 0;
    proof {
        assert(args_model(out@) =~= am.take(0));
    }
    while i < args.len()
        invariant
            0 <= i <= args@.len(),
            am == args_model(args@),
            am.len() == args@.len(),
            out@.len() == i,
            args_model(out@) == am.take(i as int),
        decreases args@.len() - i,
    {
        proof {
            lemma_args_model_index(args@, i as int);
        }
        let a = copy_arg(&args[i]);
        proof {
            lemma_args_model_push(out@, a);
            assert(am.take(i as int).push(am[i as int]) =~= am.take(i as int + 1));
        }
        out.push(a);
        i = i + 1;
    }
    proof {
        assert(am.take(args@.len() as int) =~= am);
    }
    out
}

/// A structure-preserving copy of an attribute list.
pub fn copy_attrs(attrs: &Vec<Attr>) -> (r: Vec<Attr>)
    ensures
        attrs_model(r@) == attrs_model(attrs@),
{
    let ghost am = attrs_model(attrs@);
    proof {
        lemma_attrs_model_len(attrs@);
    }
    let mut out: Vec<Attr> = Vec::new();
    let mut i: usize = 0;
    proof {
        assert(attrs_model(out@) =~= am.take(0));
    }
    while i < attrs.len()
        invariant
            0 <= i <= attrs@.len(),
            am == attrs_model(attrs@),
            am.len() == attrs@.len(),
            attrs_model(out@) == am.take(i as int),
        decreases attrs@.len() - i,
    {
        proof {
            lemma_attrs_model_index(attrs@, i as int);
        }
        let a = Attr { name: attrs[i].name.clone(), input: copy_toks(&attrs[i].input) };
        proof {
            lemma_attrs_model_push(out@, a);
            assert(a@ == am[i as int]);
            assert(am.take(i as int).push(am[i as int]) =~= am.take(i as int + 1));
        }
        out.push(a);
        i = i + 1;
    }
    proof {
        assert(am.take(attrs@.len() as int) =~= am);
    }
    out
}

/// A structure-preserving copy of an optional token run.
pub fn copy_opt_toks(ts: &Option<Vec<Tok>>) -> (r: Option<Vec<Tok>>)
    ensures
        (match (r, ts) {
            (Some(a), Some(b)) => toks_model(a@) == toks_model(b@),
            (None, None) => true,
            _ => false,
        }),
{
    match ts {
        Some(v) => Some(copy_toks(v)),
        None => None,
    }
}

/// A structure-preserving copy of a whole declaration.
pub fn copy_fn_decl(f: &FnDecl) -> (r: FnDecl)
    ensures
        r@ == f@,
{
    FnDecl {
        attrs: copy_attrs(&f.attrs),
        vis: copy_toks(&f.vis),
        name: f.name.clone(),
        generics: copy_toks(&f.generics),
        args: copy_args(&f.args),
        ret_ty: copy_opt_toks(&f.ret_ty),
        where_clause: copy_toks(&f.where_clause),
        body: copy_opt_toks(&f.body),
    }
}

} // verus!
