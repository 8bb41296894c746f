//! The pipeline's cross-cutting guarantees, stated once and proved.

use vstd::prelude::*;
use crate::codegen::{expanded_fn, post_runs_cab, post_stream, violation_message};
use crate::contract::ContractModel;
use crate::function::FnDeclModel;
use crate::modes::{resolved_mode, BuildFlags, ContractMode, ContractType};
use crate::oldstate::{ext_run, lemma_ext_run_count, lemma_ext_run_names,
    lemma_ext_run_no_residual, old_binder_name, old_call_count, well_old};
use crate::tokens::TokModel;

verus! {

/// A post-condition with exactly one well-formed old-state call yields
/// exactly one binding, named for the next id, its expression free of
/// further captures, and the rewritten condition no longer contains the
/// marker call syntax.
pub proof fn lemma_single_old_capture(ts: Seq<TokModel>, next: nat)
    requires
        well_old(ts),
        old_call_count(ts) == 1,
    ensures
        ext_run(ts, next).1.len() == 1,
        ext_run(ts, next).1[0].name == old_binder_name(next),
        ext_run(ts, next).2 == next + 1,
        old_call_count(ext_run(ts, next).0) == 0,
        old_call_count(ext_run(ts, next).1[0].expr) == 0,
{
    lemma_ext_run_count(ts, next);
    lemma_ext_run_names(ts, next);
    lemma_ext_run_no_residual(ts, next);
}

/// Synthesis of a function with one post-condition holding exactly one
/// well-formed old-state call produces exactly one pre-body binding, named
/// for id zero, and the emitted post-check's expression — the one whose
/// source text the failure message renders — no longer contains the marker
/// call syntax.
pub proof fn lemma_post_single_old(
    c: ContractModel,
    fn_name: Seq<char>,
    flags: BuildFlags,
)
    requires
        c.ty == ContractType::Post,
        c.assertions.len() == 1,
        well_old(c.assertions[0]),
        old_call_count(c.assertions[0]) == 1,
    ensures
        post_stream(seq![c], fn_name, flags, 0).1.len() == 1,
        post_stream(seq![c], fn_name, flags, 0).1[0].name == old_binder_name(0),
        old_call_count(post_stream(seq![c], fn_name, flags, 0).1[0].expr) == 0,
        old_call_count(ext_run(c.assertions[0], 0).0) == 0,
{
    let cs = seq![c];
    assert(cs.drop_last() =~= Seq::<ContractModel>::empty());
    assert(cs.last() == c);
    let runs = c.assertions;
    assert(runs.drop_last() =~= Seq::<Seq<TokModel>>::empty());
    assert(runs.last() == runs[0]);
    let mode = resolved_mode(c.mode, flags);
    lemma_single_old_capture(runs[0], 0);
    let cab0 = post_runs_cab(Seq::<Seq<TokModel>>::empty(), mode, c.ty, fn_name, c.desc, 0);
    assert(cab0.1 =~= Seq::<crate::oldstate::OldBindingModel>::empty());
    assert(cab0.2 == 0);
    let cab = post_runs_cab(runs, mode, c.ty, fn_name, c.desc, 0);
    let e = ext_run(runs[0], 0);
    assert(cab.1 == cab0.1 + e.1);
    assert(cab.1 =~= e.1);
    let st0 = post_stream(Seq::<ContractModel>::empty(), fn_name, flags, 0);
    assert(st0.1 =~= Seq::<crate::oldstate::OldBindingModel>::empty());
    assert(st0.2 == 0);
    let st = post_stream(cs, fn_name, flags, 0);
    assert(st.1 == st0.1 + cab.1);
    assert(st.1 =~= cab.1);
}

/// Every assertion stored in a contract is free of the implication marker,
/// at its top level and inside every nested group: the rewrite runs before
/// an expression is treated as a plain boolean condition.
pub proof fn lemma_contract_assertions_marker_free(
    ty: ContractType,
    mode: ContractMode,
    args: Seq<TokModel>,
    k: int,
)
    requires
        0 <= k < crate::contract::contract_of_args(ty, mode, args).assertions.len(),
    ensures
        crate::implication::seq_marker_free(
            crate::contract::contract_of_args(ty, mode, args).assertions[k],
        ),
{
    let runs = crate::parse::parsed_assertion_runs(args);
    crate::contract::lemma_rewritten_runs_len(runs);
    crate::contract::lemma_rewritten_runs_index(runs, k);
    crate::implication::lemma_imp_rewrite_marker_free(runs[k]);
}

/// Distinct capture ids carry distinct binder names: the reserved prefix
/// is shared, so the names differ exactly where the numerals do.
pub proof fn lemma_binder_name_injective(i: nat, j: nat)
    requires
        old_binder_name(i) == old_binder_name(j),
    ensures
        i == j,
{
    let p = "__contract_old_"@;
    let ni = old_binder_name(i);
    let nj = old_binder_name(j);
    crate::text::lemma_dec_str_len(i);
    crate::text::lemma_dec_str_len(j);
    assert(ni.skip(p.len() as int) =~= crate::text::dec_str(i));
    assert(nj.skip(p.len() as int) =~= crate::text::dec_str(j));
    crate::text::lemma_dec_str_injective(i, j);
}

/// Binder names never collide within one synthesized body: the captures of
/// one extraction all carry distinct names.
pub proof fn lemma_binder_names_unique(ts: Seq<TokModel>, next: nat, k1: int, k2: int)
    requires
        0 <= k1 < ext_run(ts, next).1.len(),
        0 <= k2 < ext_run(ts, next).1.len(),
        k1 != k2,
    ensures
        ext_run(ts, next).1[k1].name != ext_run(ts, next).1[k2].name,
{
    lemma_ext_run_names(ts, next);
    if ext_run(ts, next).1[k1].name == ext_run(ts, next).1[k2].name {
        lemma_binder_name_injective((next + k1) as nat, (next + k2) as nat);
    }
}

/// Expansion is a pure function of the declaration, the triggering
/// attribute and the build flags: re-expanding the same annotated
/// declaration yields structurally identical output syntax, with no
/// incidental non-determinism — in particular the binder-id counter is not
/// carried over, since every expansion threads its extraction from id
/// zero.
pub proof fn lemma_expansion_round_trip(
    f: FnDeclModel,
    cty: ContractType,
    cmode: ContractMode,
    cargs: Seq<TokModel>,
    flags: BuildFlags,
    g1: FnDeclModel,
    g2: FnDeclModel,
)
    requires
        g1 == expanded_fn(f, cty, cmode, cargs, flags),
        g2 == expanded_fn(f, cty, cmode, cargs, flags),
    ensures
        g1 == g2,
{
}

/// Every emitted failure message opens with the exact required shape:
/// `<Kind> of <function-name> violated`.
pub proof fn lemma_violation_message_prefix(
    ty: ContractType,
    post_position: bool,
    fn_name: Seq<char>,
    desc: Option<Seq<char>>,
    expr: Seq<TokModel>,
)
    ensures
        ({
            let prefix = crate::codegen::kind_label(ty, post_position) + " of "@ + fn_name
                + " violated"@;
            violation_message(ty, post_position, fn_name, desc, expr).take(prefix.len() as int)
                == prefix
        }),
{
    let prefix = crate::codegen::kind_label(ty, post_position) + " of "@ + fn_name + " violated"@;
    let msg = violation_message(ty, post_position, fn_name, desc, expr);
    assert(msg.take(prefix.len() as int) =~= prefix);
}

} // verus!
