//! Applying an invariant attribute to a whole `impl` block.
//!
//! An invariant attached to an `impl` block is replicated onto every
//! method that takes a receiver: each such method is expanded as if the
//! invariant had been written on it, so it checks the condition both on
//! entry and before returning.  Methods without a receiver and all other
//! items are left unchanged.  Applying the attribute to anything that is
//! neither a function nor an `impl` block is a fatal expansion error.

use vstd::prelude::*;
use crate::codegen::{expand_function, expanded_fn, expansion_wellformed};
use crate::errors::ExpandError;
use crate::function::{copy_fn_decl, decl_has_receiver, has_receiver, FnDecl};
use crate::modes::{BuildFlags, ContractMode, ContractType};
use crate::tokens::{copy_toks, toks_model, Tok, TokModel};
use crate::traits::{lemma_members_model_index, lemma_members_model_len, lemma_members_model_push,
    members_model, ImplBlock, ImplBlockModel, Member, MemberModel};

verus! {

/// The items of an `impl` block under an invariant: every receiver-taking
/// method expanded with the invariant as its initial contract, everything
/// else unchanged.
pub open spec fn inv_impl_items(
    items: Seq<MemberModel>,
    mode: ContractMode,
    cargs: Seq<TokModel>,
    flags: BuildFlags,
) -> Seq<MemberModel>
    decreases items,
{
    if items.len() == 0 {
        Seq::empty()
    } else {
        inv_impl_items(items.drop_last(), mode, cargs, flags).push(
            match items.last() {
                MemberModel::Method(m) => if has_receiver(m.args) {
                    MemberModel::Method(expanded_fn(m, ContractType::Invariant, mode, cargs, flags))
                } else {
                    MemberModel::Method(m)
                },
                o => o,
            },
        )
    }
}

/// Whether replication can succeed: every receiver-taking method has a
/// body and well-formed contract attributes, and the invariant's own
/// arguments parse.
pub open spec fn inv_impl_wellformed(items: Seq<MemberModel>, cargs: Seq<TokModel>) -> bool {
    forall|i: int|
        0 <= i < items.len() ==> match #[trigger] items[i] {
            MemberModel::Method(m) => has_receiver(m.args) ==> expansion_wellformed(m, cargs),
            MemberModel::Other(_) => true,
        }
}

/// Replicates an invariant attribute onto every receiver-taking method of
/// an `impl` block.
///
/// Fails exactly when the invariant's arguments are malformed for some
/// such method, or one of them has no body — each method resolves its
/// final mode itself, so the declared mode is passed through unchanged.
pub fn expand_impl_invariant(
    impl_: ImplBlock,
    mode: ContractMode,
    ctoks: &Vec<Tok>,
    flags: BuildFlags,
) -> (r: Result<ImplBlock, ExpandError>)
    ensures
        r is Ok <==> inv_impl_wellformed(members_model(impl_.items@), toks_model(ctoks@)),
        r matches Ok(out) ==> out@ == (ImplBlockModel {
            items: inv_impl_items(
                members_model(impl_.items@),
                mode,
                toks_model(ctoks@),
                flags,
            ),
            ..impl_@
        }),
{
    let ghost im = members_model(impl_.items@);
    let ghost cm = toks_model(ctoks@);
    proof {
        lemma_members_model_len(impl_.items@);
    }
    let mut items: Vec<Member> = Vec::new();
    let mut i: usize = 0;
    proof {
        assert(members_model(items@) =~= inv_impl_items(im.take(0), mode, cm, flags));
    }
    while i < impl_.items.len()
        invariant
            0 <= i <= impl_.items@.len(),
            im == members_model(impl_.items@),
            cm == toks_model(ctoks@),
            im.len() == impl_.items@.len(),
            members_model(items@) == inv_impl_items(im.take(i as int), mode, cm, flags),
            forall|j: int|
                0 <= j < i ==> match #[trigger] im[j] {
                    MemberModel::Method(m) => has_receiver(m.args) ==> expansion_wellformed(m, cm),
                    MemberModel::Other(_) => true,
                },
        decreases impl_.items@.len() - i,
    {
        proof {
            lemma_members_model_index(impl_.items@, i as int);
            assert(im.take(i as int + 1).drop_last() =~= im.take(i as int));
            assert(im.take(i as int + 1).last() == im[i as int]);
        }
        let item = match &impl_.items[i] {
            Member::Method(m) => {
                if decl_has_receiver(&m.args) {
                    let copy = copy_fn_decl(m);
                    match expand_function(copy, ContractType::Invariant, mode, ctoks, flags) {
                        Ok(g) => Member::Method(g),
                        Err(e) => {
                            proof {
                                assert(!inv_impl_wellformed(im, cm));
                            }
                            return Err(e);
                        },
                    }
                } else {
                    Member::Method(copy_fn_decl(m))
                }
            },
            Member::Other(ts) => Member::Other(copy_toks(ts)),
        };
        proof {
            lemma_members_model_push(items@, item);
            assert(members_model(items@).push(item@) =~= inv_impl_items(
                im.take(i as int + 1),
                mode,
                cm,
                flags,
            ));
        }
        items.push(item);
        i = i + 1;
    }
    proof {
        assert(im.take(impl_.items@.len() as int) =~= im);
    }
    Ok(ImplBlock { head: impl_.head, is_trait_impl: impl_.is_trait_impl, items })
}

/// An item an invariant attribute was applied to.
pub enum InvariantTarget {
    /// A function or method declaration.
    Func(FnDecl),
    /// An `impl` block.
    Impl(ImplBlock),
    /// Any other item, kept for the error report.
    Other(Vec<Tok>),
}

/// Applies an invariant attribute to one item: a function is expanded with
/// the invariant as its initial contract, an `impl` block has it
/// replicated onto every receiver-taking method, and anything else is a
/// fatal error.
pub fn expand_invariant(
    item: InvariantTarget,
    mode: ContractMode,
    ctoks: &Vec<Tok>,
    flags: BuildFlags,
) -> (r: Result<InvariantTarget, ExpandError>)
    ensures
        r is Ok <==> (match item {
            InvariantTarget::Func(f) => expansion_wellformed(f@, toks_model(ctoks@)),
            InvariantTarget::Impl(b) => inv_impl_wellformed(
                members_model(b.items@),
                toks_model(ctoks@),
            ),
            InvariantTarget::Other(_) => false,
        }),
        r matches Ok(out) ==> (match (item, out) {
            (InvariantTarget::Func(f), InvariantTarget::Func(g)) => g@ == expanded_fn(
                f@,
                ContractType::Invariant,
                mode,
                toks_model(ctoks@),
                flags,
            ),
            (InvariantTarget::Impl(b), InvariantTarget::Impl(b2)) => b2@ == (ImplBlockModel {
                items: inv_impl_items(
                    members_model(b.items@),
                    mode,
                    toks_model(ctoks@),
                    flags,
                ),
                ..b@
            }),
            _ => false,
        }),
{
    match item {
        InvariantTarget::Func(f) => {
            match expand_function(f, ContractType::Invariant, mode, ctoks, flags) {
                Ok(g) => Ok(InvariantTarget::Func(g)),
                Err(e) => Err(e),
            }
        },
        InvariantTarget::Impl(b) => {
            match expand_impl_invariant(b, mode, ctoks, flags) {
                Ok(b2) => Ok(InvariantTarget::Impl(b2)),
                Err(e) => Err(e),
            }
        },
        InvariantTarget::Other(_) => Err(ExpandError::NotAFunctionOrImpl),
    }
}

} // verus!
