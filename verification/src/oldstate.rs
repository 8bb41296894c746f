//! Extracting old-state captures from post-condition expressions.
//!
//! A call of the one-argument pseudo-function `old(...)` inside a
//! post-condition asks for its argument to be evaluated *before* the
//! function body runs.  The extractor walks a post-condition's token run,
//! finds each such call — an `old` identifier heading a parenthesized
//! single-argument group, not reached through `.` or `::` — processes the
//! argument first so that nested captures resolve inside out, records a
//! binding under the next sequential binder name, and replaces the call
//! with a reference to that binder.  A malformed call with zero or several
//! arguments is left untouched, as an ordinary function call.
//!
//! Binder names carry a reserved prefix, so they never collide with user
//! identifiers, and their ids count up from zero for each expansion.

use vstd::prelude::*;
use vstd::seq::{axiom_seq_index_decreases, axiom_seq_subrange_decreases};
use vstd::string::StringExecFns;
use crate::parse::is_comma;
use crate::text::{dec_digit, dec_str, str_eq, u64_dec_str};
use crate::tokens::{copy_tok, lemma_toks_model_index, lemma_toks_model_len,
    lemma_toks_model_push, toks_model, Delim, Tok, TokModel};

verus! {

/// The reserved binder name of the old-state capture with id `id`.
pub open spec fn old_binder_name(id: nat) -> Seq<char> {
    "__contract_old_"@ + dec_str(id)
}

/// The binder name of capture `id`.
pub fn old_binder_name_str(id: u64) -> (r: String)
    ensures
        r@ == old_binder_name(id as nat),
{
    let mut s: String = "__contract_old_".to_owned();
    let digits = u64_dec_str(id);
    s.append(digits.as_str());
    s
}

/// One recorded old-state capture: the binder's name and the expression to
/// evaluate for it before the function body runs.
pub struct OldBinding {
    /// The generated binder name.
    pub name: String,
    /// The captured expression's tokens, with nested captures already
    /// replaced by their own binders.
    pub expr: Vec<Tok>,
}

/// The model of one recorded capture.
pub struct OldBindingModel {
    pub name: Seq<char>,
    pub expr: Seq<TokModel>,
}

impl View for OldBinding {
    type V = OldBindingModel;

    open spec fn view(&self) -> OldBindingModel {
        OldBindingModel { name: self.name@, expr: toks_model(self.expr@) }
    }
}

/// The model of a sequence of recorded captures.
pub open spec fn binds_model(bs: Seq<OldBinding>) -> Seq<OldBindingModel>
    decreases bs,
{
    if bs.len() == 0 {
        Seq::empty()
    } else {
        binds_model(bs.drop_last()).push(bs.last()@)
    }
}

/// Appending one capture appends its model.
pub proof fn lemma_binds_model_push(bs: Seq<OldBinding>, b: OldBinding)
    ensures
        binds_model(bs.push(b)) == binds_model(bs).push(b@),
{
    assert(bs.push(b).drop_last() =~= bs);
}

/// The model of a capture sequence, index by index.
pub proof fn lemma_binds_model_index(bs: Seq<OldBinding>, i: int)
    requires
        0 <= i < bs.len(),
    ensures
        binds_model(bs).len() == bs.len(),
        binds_model(bs)[i] == bs[i]@,
    decreases bs,
{
    lemma_binds_model_len(bs);
    if i < bs.len() - 1 {
        lemma_binds_model_index(bs.drop_last(), i);
    } else {
        assert(bs.last() == bs[i]);
    }
}

/// The model of a capture sequence has one entry per capture.
pub proof fn lemma_binds_model_len(bs: Seq<OldBinding>)
    ensures
        binds_model(bs).len() == bs.len(),
    decreases bs,
{
    if bs.len() > 0 {
        lemma_binds_model_len(bs.drop_last());
    }
}

/// Whether one token is the `old` marker identifier.
pub open spec fn is_old_ident(t: TokModel) -> bool {
    t matches TokModel::Ident(s) && s == "old"@
}

/// Whether one token is a member or path separator, `.` or `::`.
pub open spec fn is_path_sep(t: TokModel) -> bool {
    t matches TokModel::Op(s) && (s == "."@ || s == "::"@)
}

/// The index of the first top-level comma, or the run's length when it has
/// none.
pub open spec fn first_comma_ix(ts: Seq<TokModel>) -> int
    decreases ts.len(),
{
    if ts.len() == 0 {
        0
    } else if is_comma(ts[0]) {
        0
    } else {
        1 + first_comma_ix(ts.skip(1))
    }
}

/// `first_comma_ix` points at the first top-level comma.
pub proof fn lemma_first_comma_ix(ts: Seq<TokModel>)
    ensures
        0 <= first_comma_ix(ts) <= ts.len(),
        first_comma_ix(ts) < ts.len() ==> is_comma(ts[first_comma_ix(ts)]),
        forall|j: int| 0 <= j < first_comma_ix(ts) ==> !is_comma(ts[j]),
    decreases ts.len(),
{
    if ts.len() > 0 && !is_comma(ts[0]) {
        lemma_first_comma_ix(ts.skip(1));
        assert forall|j: int| 0 <= j < first_comma_ix(ts) implies !is_comma(ts[j]) by {
            if j > 0 {
                assert(ts.skip(1)[j - 1] == ts[j]);
            }
        }
        if first_comma_ix(ts) < ts.len() {
            assert(ts.skip(1)[first_comma_ix(ts) - 1] == ts[first_comma_ix(ts)]);
        }
    }
}

/// A scan that finds no comma before `i` and a comma at `i` has found the
/// first one.
pub proof fn lemma_first_comma_ix_found(ts: Seq<TokModel>, i: int)
    requires
        0 <= i < ts.len(),
        is_comma(ts[i]),
        forall|j: int| 0 <= j < i ==> !is_comma(ts[j]),
    ensures
        first_comma_ix(ts) == i,
    decreases ts.len(),
{
    if i > 0 {
        assert forall|j: int| 0 <= j < i - 1 implies !is_comma(ts.skip(1)[j]) by {
            assert(ts.skip(1)[j] == ts[j + 1]);
        }
        assert(ts.skip(1)[i - 1] == ts[i]);
        lemma_first_comma_ix_found(ts.skip(1), i - 1);
    }
}

/// A scan that reaches the end without a comma has found none.
pub proof fn lemma_first_comma_ix_none(ts: Seq<TokModel>)
    requires
        forall|j: int| 0 <= j < ts.len() ==> !is_comma(ts[j]),
    ensures
        first_comma_ix(ts) == ts.len(),
    decreases ts.len(),
{
    if ts.len() > 0 {
        assert forall|j: int| 0 <= j < ts.skip(1).len() implies !is_comma(ts.skip(1)[j]) by {
            assert(ts.skip(1)[j] == ts[j + 1]);
        }
        lemma_first_comma_ix_none(ts.skip(1));
    }
}

/// The single argument of a call's parenthesized contents, if the call has
/// exactly one: a non-empty run, at most a trailing comma after it.
pub open spec fn single_arg_of(inner: Seq<TokModel>) -> Option<Seq<TokModel>> {
    let c = first_comma_ix(inner);
    if 0 < c && (c == inner.len() || c == inner.len() - 1) {
        Some(inner.take(c))
    } else {
        None
    }
}

/// Whether a run starts with an extractable old-state call: the `old`
/// identifier heading a parenthesized single-argument group.
pub open spec fn head_old_call(ts: Seq<TokModel>) -> bool {
    &&& ts.len() >= 2
    &&& is_old_ident(ts[0])
    &&& ts[1] matches TokModel::Group(Delim::Paren, inner) && single_arg_of(inner) is Some
}

/// The extraction of every old-state call in one token run, with fresh
/// binder ids counted from `next`.
///
/// Returns the rewritten run, the recorded captures in the order their ids
/// were assigned, and the next unused id.  A `.` or `::` shields the
/// identifier after it, so a method or path call named `old` is not a
/// capture; a nested capture inside an argument is assigned its id before
/// the enclosing one.
pub open spec fn ext_run(ts: Seq<TokModel>, next: nat) -> (Seq<TokModel>, Seq<OldBindingModel>, nat)
    decreases ts,
    via ext_run_decreases
{
    if ts.len() == 0 {
        (Seq::empty(), Seq::empty(), next)
    } else if ts.len() >= 2 && is_path_sep(ts[0]) && ts[1] is Ident {
        let (t2, b2, n2) = ext_run(ts.skip(2), next);
        (seq![ts[0], ts[1]] + t2, b2, n2)
    } else if head_old_call(ts) {
        let inner = ts[1]->Group_1;
        let arg = single_arg_of(inner)->0;
        let (ta, ba, na) = ext_run(arg, next);
        let (tr, br, nr) = ext_run(ts.skip(2), na + 1);
        (
            seq![TokModel::Ident(old_binder_name(na))] + tr,
            ba.push(OldBindingModel { name: old_binder_name(na), expr: ta }) + br,
            nr,
        )
    } else {
        match ts[0] {
            TokModel::Group(d, inner) => {
                let (ti, bi, ni) = ext_run(inner, next);
                let (tr, br, nr) = ext_run(ts.skip(1), ni);
                (seq![TokModel::Group(d, ti)] + tr, bi + br, nr)
            },
            t => {
                let (tr, br, nr) = ext_run(ts.skip(1), next);
                (seq![t] + tr, br, nr)
            },
        }
    }
}

#[via_fn]
proof fn ext_run_decreases(ts: Seq<TokModel>, next: nat) {
    if ts.len() > 0 {
        axiom_seq_subrange_decreases(ts, 1, ts.len() as int);
        assert(ts.skip(1) == ts.subrange(1, ts.len() as int));
        if ts.len() >= 2 {
            axiom_seq_subrange_decreases(ts, 2, ts.len() as int);
            assert(ts.skip(2) == ts.subrange(2, ts.len() as int));
        }
        axiom_seq_index_decreases(ts, 0);
        match ts[0] {
            TokModel::Group(d, inner) => {
                assert(decreases_to!(ts[0] => ts[0]->Group_1));
                assert(ts[0]->Group_1 == inner);
            },
            _ => {},
        }
        if head_old_call(ts) {
            axiom_seq_index_decreases(ts, 1);
            let inner = ts[1]->Group_1;
            assert(decreases_to!(ts[1] => ts[1]->Group_1));
            let c = first_comma_ix(inner);
            lemma_first_comma_ix(inner);
            let arg = single_arg_of(inner)->0;
            if c == inner.len() {
                assert(arg =~= inner);
            } else {
                axiom_seq_subrange_decreases(inner, 0, c);
                assert(arg == inner.subrange(0, c));
            }
        }
    }
}

/// The number of extractable old-state calls in a run, nested arguments
/// included.
pub open spec fn old_call_count(ts: Seq<TokModel>) -> nat
    decreases ts,
    via old_call_count_decreases
{
    if ts.len() == 0 {
        0
    } else if ts.len() >= 2 && is_path_sep(ts[0]) && ts[1] is Ident {
        old_call_count(ts.skip(2))
    } else if head_old_call(ts) {
        let inner = ts[1]->Group_1;
        let arg = single_arg_of(inner)->0;
        1 + old_call_count(arg) + old_call_count(ts.skip(2))
    } else {
        match ts[0] {
            TokModel::Group(d, inner) => old_call_count(inner) + old_call_count(ts.skip(1)),
            t => old_call_count(ts.skip(1)),
        }
    }
}

#[via_fn]
proof fn old_call_count_decreases(ts: Seq<TokModel>) {
    if ts.len() > 0 {
        axiom_seq_subrange_decreases(ts, 1, ts.len() as int);
        assert(ts.skip(1) == ts.subrange(1, ts.len() as int));
        if ts.len() >= 2 {
            axiom_seq_subrange_decreases(ts, 2, ts.len() as int);
            assert(ts.skip(2) == ts.subrange(2, ts.len() as int));
        }
        axiom_seq_index_decreases(ts, 0);
        match ts[0] {
            TokModel::Group(d, inner) => {
                assert(decreases_to!(ts[0] => ts[0]->Group_1));
                assert(ts[0]->Group_1 == inner);
            },
            _ => {},
        }
        if head_old_call(ts) {
            axiom_seq_index_decreases(ts, 1);
            let inner = ts[1]->Group_1;
            assert(decreases_to!(ts[1] => ts[1]->Group_1));
            let c = first_comma_ix(inner);
            lemma_first_comma_ix(inner);
            let arg = single_arg_of(inner)->0;
            if c == inner.len() {
                assert(arg =~= inner);
            } else {
                axiom_seq_subrange_decreases(inner, 0, c);
                assert(arg == inner.subrange(0, c));
            }
        }
    }
}

/// Helper for inductions that follow the extraction's recursion: the facts
/// that make each recursive step smaller.
proof fn lemma_ext_step_smaller(ts: Seq<TokModel>)
    requires
        ts.len() > 0,
    ensures
        decreases_to!(ts => ts.skip(1)),
        ts.len() >= 2 ==> decreases_to!(ts => ts.skip(2)),
        (ts[0] matches TokModel::Group(d, inner) ==> decreases_to!(ts => inner)),
        head_old_call(ts) ==> decreases_to!(ts => single_arg_of(ts[1]->Group_1)->0),
{
    axiom_seq_subrange_decreases(ts, 1, ts.len() as int);
    assert(ts.skip(1) == ts.subrange(1, ts.len() as int));
    if ts.len() >= 2 {
        axiom_seq_subrange_decreases(ts, 2, ts.len() as int);
        assert(ts.skip(2) == ts.subrange(2, ts.len() as int));
    }
    axiom_seq_index_decreases(ts, 0);
    match ts[0] {
        TokModel::Group(d, inner) => {
            assert(decreases_to!(ts[0] => ts[0]->Group_1));
            assert(ts[0]->Group_1 == inner);
        },
        _ => {},
    }
    if head_old_call(ts) {
        axiom_seq_index_decreases(ts, 1);
        let inner = ts[1]->Group_1;
        assert(decreases_to!(ts[1] => ts[1]->Group_1));
        let c = first_comma_ix(inner);
        lemma_first_comma_ix(inner);
        let arg = single_arg_of(inner)->0;
        if c == inner.len() {
            assert(arg =~= inner);
        } else {
            axiom_seq_subrange_decreases(inner, 0, c);
            assert(arg == inner.subrange(0, c));
        }
    }
}

/// Extraction records one binding per extractable call, and advances the
/// id counter by exactly that number.
pub proof fn lemma_ext_run_count(ts: Seq<TokModel>, next: nat)
    ensures
        ext_run(ts, next).1.len() == old_call_count(ts),
        ext_run(ts, next).2 == next + old_call_count(ts),
    decreases ts,
{
    if ts.len() == 0 {
    } else {
        lemma_ext_step_smaller(ts);
        if ts.len() >= 2 && is_path_sep(ts[0]) && ts[1] is Ident {
            lemma_ext_run_count(ts.skip(2), next);
        } else if head_old_call(ts) {
            let inner = ts[1]->Group_1;
            let arg = single_arg_of(inner)->0;
            lemma_ext_run_count(arg, next);
            let na = ext_run(arg, next).2;
            lemma_ext_run_count(ts.skip(2), na + 1);
        } else {
            match ts[0] {
                TokModel::Group(d, inner) => {
                    lemma_ext_run_count(inner, next);
                    let ni = ext_run(inner, next).2;
                    lemma_ext_run_count(ts.skip(1), ni);
                },
                t => {
                    lemma_ext_run_count(ts.skip(1), next);
                },
            }
        }
    }
}

/// The recorded bindings carry the sequential binder names: binding `k`
/// of an extraction that starts at id `next` is named for id `next + k`.
pub proof fn lemma_ext_run_names(ts: Seq<TokModel>, next: nat)
    ensures
        forall|k: int|
            0 <= k < ext_run(ts, next).1.len() ==> #[trigger] ext_run(ts, next).1[k].name
                == old_binder_name((next + k) as nat),
    decreases ts,
{
    if ts.len() == 0 {
    } else {
        lemma_ext_step_smaller(ts);
        if ts.len() >= 2 && is_path_sep(ts[0]) && ts[1] is Ident {
            lemma_ext_run_names(ts.skip(2), next);
            assert(ext_run(ts, next).1 == ext_run(ts.skip(2), next).1);
            assert forall|k: int| 0 <= k < ext_run(ts, next).1.len() implies #[trigger] ext_run(
                ts,
                next,
            ).1[k].name == old_binder_name((next + k) as nat) by {
                assert(ext_run(ts.skip(2), next).1[k].name == old_binder_name((next + k) as nat));
            }
        } else if head_old_call(ts) {
            let inner = ts[1]->Group_1;
            let arg = single_arg_of(inner)->0;
            lemma_ext_run_names(arg, next);
            lemma_ext_run_count(arg, next);
            let na = ext_run(arg, next).2;
            let ba = ext_run(arg, next).1;
            lemma_ext_run_names(ts.skip(2), na + 1);
            let br = ext_run(ts.skip(2), na + 1).1;
            let mid = OldBindingModel { name: old_binder_name(na), expr: ext_run(arg, next).0 };
            let all = ba.push(mid) + br;
            assert(ext_run(ts, next).1 == all);
            assert forall|k: int| 0 <= k < ext_run(ts, next).1.len() implies #[trigger] ext_run(
                ts,
                next,
            ).1[k].name == old_binder_name((next + k) as nat) by {
                if k < ba.len() {
                    assert(all[k] == ba[k]);
                    assert(ba[k].name == old_binder_name((next + k) as nat));
                } else if k == ba.len() {
                    assert(all[k] == mid);
                } else {
                    assert(all[k] == br[k - ba.len() - 1]);
                    assert(br[k - ba.len() - 1].name == old_binder_name(
                        ((na + 1) + (k - ba.len() - 1)) as nat,
                    ));
                }
            }
        } else {
            match ts[0] {
                TokModel::Group(d, inner) => {
                    lemma_ext_run_names(inner, next);
                    lemma_ext_run_count(inner, next);
                    let ni = ext_run(inner, next).2;
                    let bi = ext_run(inner, next).1;
                    lemma_ext_run_names(ts.skip(1), ni);
                    let br = ext_run(ts.skip(1), ni).1;
                    let all = bi + br;
                    assert(ext_run(ts, next).1 == all);
                    assert forall|k: int| 0 <= k < ext_run(ts, next).1.len() implies
                        #[trigger] ext_run(ts, next).1[k].name == old_binder_name(
                        (next + k) as nat,
                    ) by {
                        if k < bi.len() {
                            assert(all[k] == bi[k]);
                            assert(bi[k].name == old_binder_name((next + k) as nat));
                        } else {
                            assert(all[k] == br[k - bi.len()]);
                            assert(br[k - bi.len()].name == old_binder_name(
                                (ni + (k - bi.len())) as nat,
                            ));
                        }
                    }
                },
                t => {
                    lemma_ext_run_names(ts.skip(1), next);
                    assert(ext_run(ts, next).1 == ext_run(ts.skip(1), next).1);
                    assert forall|k: int| 0 <= k < ext_run(ts, next).1.len() implies
                        #[trigger] ext_run(ts, next).1[k].name == old_binder_name(
                        (next + k) as nat,
                    ) by {
                        assert(ext_run(ts.skip(1), next).1[k].name == old_binder_name(
                            (next + k) as nat,
                        ));
                    }
                },
            }
        }
    }
}

/// Whether every occurrence of the `old` marker identifier in a run heads
/// a proper single-argument call (or stands shielded behind `.` or `::`).
pub open spec fn well_old(ts: Seq<TokModel>) -> bool
    decreases ts,
    via well_old_decreases
{
    if ts.len() == 0 {
        true
    } else if ts.len() >= 2 && is_path_sep(ts[0]) && ts[1] is Ident {
        well_old(ts.skip(2))
    } else if head_old_call(ts) {
        let inner = ts[1]->Group_1;
        let arg = single_arg_of(inner)->0;
        well_old(arg) && well_old(ts.skip(2))
    } else {
        match ts[0] {
            TokModel::Group(d, inner) => well_old(inner) && well_old(ts.skip(1)),
            t => !is_old_ident(t) && well_old(ts.skip(1)),
        }
    }
}

#[via_fn]
proof fn well_old_decreases(ts: Seq<TokModel>) {
    if ts.len() > 0 {
        lemma_ext_step_smaller(ts);
    }
}

/// A generated binder identifier is never the marker identifier itself.
pub proof fn lemma_binder_not_old(id: nat)
    ensures
        !is_old_ident(TokModel::Ident(old_binder_name(id))),
{
    reveal_strlit("__contract_old_");
    reveal_strlit("old");
    assert(dec_str(id).len() >= 1) by {
        if id >= 10 {
            assert(dec_str(id) == dec_str(id / 10).push(dec_digit((id % 10) as int)));
        }
    }
    assert(old_binder_name(id).len() >= 16);
    assert("old"@.len() == 3);
}

/// After extraction of a well-formed run nothing extractable is left: the
/// rewritten run holds no old-state call, and neither does any recorded
/// binding's expression.
pub proof fn lemma_ext_run_no_residual(ts: Seq<TokModel>, next: nat)
    requires
        well_old(ts),
    ensures
        old_call_count(ext_run(ts, next).0) == 0,
        forall|k: int|
            0 <= k < ext_run(ts, next).1.len() ==> #[trigger] old_call_count(
                ext_run(ts, next).1[k].expr,
            ) == 0,
    decreases ts,
{
    if ts.len() == 0 {
    } else {
        lemma_ext_step_smaller(ts);
        if ts.len() >= 2 && is_path_sep(ts[0]) && ts[1] is Ident {
            lemma_ext_run_no_residual(ts.skip(2), next);
            let t2 = ext_run(ts.skip(2), next).0;
            let out = seq![ts[0], ts[1]] + t2;
            assert(out[0] == ts[0]);
            assert(out[1] == ts[1]);
            assert(out.skip(2) =~= t2);
            assert(old_call_count(out) == old_call_count(t2));
        } else if head_old_call(ts) {
            let inner = ts[1]->Group_1;
            let arg = single_arg_of(inner)->0;
            lemma_ext_run_no_residual(arg, next);
            lemma_ext_run_count(arg, next);
            let na = ext_run(arg, next).2;
            let ta = ext_run(arg, next).0;
            let ba = ext_run(arg, next).1;
            lemma_ext_run_no_residual(ts.skip(2), na + 1);
            let tr = ext_run(ts.skip(2), na + 1).0;
            let br = ext_run(ts.skip(2), na + 1).1;
            let out = seq![TokModel::Ident(old_binder_name(na))] + tr;
            lemma_binder_not_old(na);
            assert(out[0] == TokModel::Ident(old_binder_name(na)));
            assert(out.skip(1) =~= tr);
            assert(old_call_count(out) == old_call_count(tr));
            let mid = OldBindingModel { name: old_binder_name(na), expr: ta };
            let all = ba.push(mid) + br;
            assert forall|k: int| 0 <= k < all.len() implies #[trigger] old_call_count(all[k].expr)
                == 0 by {
                if k < ba.len() {
                    assert(all[k] == ba[k]);
                } else if k == ba.len() {
                    assert(all[k] == mid);
                } else {
                    assert(all[k] == br[k - ba.len() - 1]);
                }
            }
        } else {
            match ts[0] {
                TokModel::Group(d, inner) => {
                    lemma_ext_run_no_residual(inner, next);
                    lemma_ext_run_count(inner, next);
                    let ni = ext_run(inner, next).2;
                    let ti = ext_run(inner, next).0;
                    let bi = ext_run(inner, next).1;
                    lemma_ext_run_no_residual(ts.skip(1), ni);
                    let tr = ext_run(ts.skip(1), ni).0;
                    let br = ext_run(ts.skip(1), ni).1;
                    let out = seq![TokModel::Group(d, ti)] + tr;
                    assert(out[0] == TokModel::Group(d, ti));
                    assert(out.skip(1) =~= tr);
                    assert(old_call_count(out) == old_call_count(ti) + old_call_count(tr));
                    let all = bi + br;
                    assert forall|k: int| 0 <= k < all.len() implies #[trigger] old_call_count(
                        all[k].expr,
                    ) == 0 by {
                        if k < bi.len() {
                            assert(all[k] == bi[k]);
                        } else {
                            assert(all[k] == br[k - bi.len()]);
                        }
                    }
                },
                t => {
                    lemma_ext_run_no_residual(ts.skip(1), next);
                    let tr = ext_run(ts.skip(1), next).0;
                    let out = seq![t] + tr;
                    assert(out[0] == t);
                    assert(out.skip(1) =~= tr);
                    if is_path_sep(t) && tr.len() >= 1 && tr[0] is Ident {
                        // A separator kept as-is cannot pair with the head of the
                        // rewritten rest: the rest began with a non-identifier,
                        // and rewriting keeps that.
                        lemma_ext_head_not_ident(ts.skip(1), next);
                        assert(false);
                    }
                    assert(old_call_count(out) == old_call_count(tr));
                },
            }
        }
    }
}

/// The rewritten form of a run that does not start with an identifier does
/// not start with one either.
pub proof fn lemma_ext_head_not_ident(ts: Seq<TokModel>, next: nat)
    requires
        ts.len() > 0,
        !(ts[0] is Ident),
    ensures
        ext_run(ts, next).0.len() > 0,
        !(ext_run(ts, next).0[0] is Ident),
{
    if ts.len() >= 2 && is_path_sep(ts[0]) && ts[1] is Ident {
        let t2 = ext_run(ts.skip(2), next).0;
        let out = seq![ts[0], ts[1]] + t2;
        assert(out[0] == ts[0]);
    } else {
        assert(!head_old_call(ts));
        match ts[0] {
            TokModel::Group(d, inner) => {
                let ti = ext_run(inner, next).0;
                let ni = ext_run(inner, next).2;
                let tr = ext_run(ts.skip(1), ni).0;
                let out = seq![TokModel::Group(d, ti)] + tr;
                assert(out[0] == TokModel::Group(d, ti));
            },
            t => {
                let tr = ext_run(ts.skip(1), next).0;
                let out = seq![t] + tr;
                assert(out[0] == t);
            },
        }
    }
}

/// Whether one executable token is the `old` marker identifier.
pub fn tok_is_old_ident(t: &Tok) -> (r: bool)
    ensures
        r == is_old_ident(t@),
{
    match t {
        Tok::Ident(s) => str_eq(s.as_str(), "old"),
        _ => false,
    }
}

/// Whether one executable token is `.` or `::`.
pub fn tok_is_path_sep(t: &Tok) -> (r: bool)
    ensures
        r == is_path_sep(t@),
{
    match t {
        Tok::Op(s) => str_eq(s.as_str(), ".") || str_eq(s.as_str(), "::"),
        _ => false,
    }
}

/// Whether one executable token is an identifier.
pub fn tok_is_ident(t: &Tok) -> (r: bool)
    ensures
        r == (t@ is Ident),
{
    match t {
        Tok::Ident(_) => true,
        _ => false,
    }
}

/// The single argument of a call's parenthesized contents, if the call
/// has exactly one.
pub fn find_single_arg(inner: &Vec<Tok>) -> (r: Option<Vec<Tok>>)
    ensures
        match r {
            Some(a) => single_arg_of(toks_model(inner@)) == Some(toks_model(a@)),
            None => single_arg_of(toks_model(inner@)) is None,
        },
{
    let ghost m = toks_model(inner@);
    proof {
        lemma_toks_model_len(inner@);
    }
    let mut c: usize = 0;
    let mut found: bool = false;
    while c < inner.len() && !found
        invariant
            0 <= c <= inner@.len(),
            m == toks_model(inner@),
            m.len() == inner@.len(),
            found ==> c < inner@.len() && is_comma(m[c as int]),
            forall|j: int| 0 <= j < c ==> !is_comma(m[j]),
        decreases inner@.len() - c + (if found { 0int } else { 1int }),
    {
        proof {
            lemma_toks_model_index(inner@, c as int);
        }
        if crate::parse::tok_is_comma(&inner[c]) {
            found = true;
        } else {
            c = c + 1;
        }
    }
    proof {
        if found {
            lemma_first_comma_ix_found(m, c as int);
        } else {
            lemma_first_comma_ix_none(m);
        }
    }
    if c == 0 {
        return None;
    }
    if found && c + 1 < inner.len() {
        return None;
    }
    let mut arg: Vec<Tok> = Vec::new();
    let mut j: usize = 0;
    while j < c
        invariant
            0 <= j <= c <= inner@.len(),
            m == toks_model(inner@),
            m.len() == inner@.len(),
            toks_model(arg@) == m.take(c as int).take(j as int),
        decreases c - j,
    {
        let t = copy_tok(&inner[j]);
        proof {
            lemma_toks_model_index(inner@, j as int);
            lemma_toks_model_push(arg@, t);
            assert(m.take(c as int).take(j as int).push(m[j as int]) =~= m.take(c as int).take(
                j as int + 1,
            ));
        }
        arg.push(t);
        j = j + 1;
    }
    proof {
        assert(m.take(c as int).take(c as int) =~= m.take(c as int));
    }
    Some(arg)
}

/// Extracts every old-state call in one token run, appending the recorded
/// captures to `binds`.  Ids continue from the number of captures already
/// recorded, so an extraction over a fresh vector counts from zero.
pub fn extract_olds(ts: &Vec<Tok>, binds: &mut Vec<OldBinding>) -> (out: Vec<Tok>)
    ensures
        toks_model(out@) == ext_run(toks_model(ts@), old(binds)@.len() as nat).0,
        binds_model(final(binds)@) == binds_model(old(binds)@) + ext_run(
            toks_model(ts@),
            old(binds)@.len() as nat,
        ).1,
        final(binds)@.len() == old(binds)@.len() + ext_run(
            toks_model(ts@),
            old(binds)@.len() as nat,
        ).1.len(),
    decreases toks_model(ts@),
{
    let ghost m = toks_model(ts@);
    let ghost binds0 = binds@;
    let ghost n0: nat = binds@.len() as nat;
    proof {
        lemma_toks_model_len(ts@);
        lemma_binds_model_len(binds@);
    }
    let mut out: Vec<Tok> = Vec::new();
    let mut i: usize = 0;
    proof {
        assert(m.skip(0) =~= m);
        assert(toks_model(out@) =~= Seq::<TokModel>::empty());
        assert(toks_model(out@) + ext_run(m, n0).0 =~= ext_run(m, n0).0);
    }
    while i < ts.len()
        invariant
            0 <= i <= ts@.len(),
            m == toks_model(ts@),
            m.len() == ts@.len(),
            n0 == binds0.len(),
            binds@.len() >= binds0.len(),
            binds_model(binds@).len() == binds@.len(),
            ext_run(m, n0).0 == toks_model(out@) + ext_run(m.skip(i as int), binds@.len() as nat).0,
            binds_model(binds0) + ext_run(m, n0).1 == binds_model(binds@) + ext_run(
                m.skip(i as int),
                binds@.len() as nat,
            ).1,
            ext_run(m, n0).2 == ext_run(m.skip(i as int), binds@.len() as nat).2,
        decreases ts@.len() - i,
    {
        let ghost rest = m.skip(i as int);
        let ghost nb: nat = binds@.len() as nat;
        proof {
            lemma_toks_model_index(ts@, i as int);
            assert(rest.len() == m.len() - i);
            assert(rest[0] == m[i as int]);
            if i as int + 1 < m.len() {
                lemma_toks_model_index(ts@, i as int + 1);
                assert(rest[1] == m[i as int + 1]);
            }
        }
        let pair = i + 1 < ts.len() && tok_is_path_sep(&ts[i]) && tok_is_ident(&ts[i + 1]);
        if pair {
            proof {
                lemma_toks_model_index(ts@, i as int + 1);
            }
            let t0 = copy_tok(&ts[i]);
            let t1 = copy_tok(&ts[i + 1]);
            proof {
                lemma_toks_model_push(out@, t0);
                lemma_toks_model_push(out@.push(t0), t1);
                assert(rest.skip(2) =~= m.skip(i as int + 2));
                assert(ext_run(rest, nb).0 == seq![rest[0], rest[1]] + ext_run(
                    rest.skip(2),
                    nb,
                ).0);
                assert(toks_model(out@) + ext_run(rest, nb).0 =~= toks_model(
                    out@.push(t0).push(t1),
                ) + ext_run(m.skip(i as int + 2), nb).0);
            }
            out.push(t0);
            out.push(t1);
            i = i + 2;
        } else {
            let mut handled = false;
            if i + 1 < ts.len() && tok_is_old_ident(&ts[i]) {
                proof {
                    lemma_toks_model_index(ts@, i as int + 1);
                }
                match &ts[i + 1] {
                    Tok::Group(Delim::Paren, inner) => {
                        let ghost inner_m = toks_model(inner@);
                        match find_single_arg(inner) {
                            Some(arg) => {
                                proof {
                                    assert(m[i as int + 1] == ts@[i as int + 1]@);
                                    assert(m[i as int + 1]->Group_1 == inner_m);
                                    assert(head_old_call(rest));
                                    assert(single_arg_of(inner_m) == Some(toks_model(arg@)));
                                    // The argument is strictly below the run.
                                    axiom_seq_index_decreases(m, i as int + 1);
                                    assert(decreases_to!(m[i as int + 1] => m[i as int
                                        + 1]->Group_1));
                                    let c = first_comma_ix(inner_m);
                                    lemma_first_comma_ix(inner_m);
                                    if c == inner_m.len() {
                                        assert(toks_model(arg@) =~= inner_m);
                                    } else {
                                        axiom_seq_subrange_decreases(inner_m, 0, c);
                                        assert(toks_model(arg@) == inner_m.subrange(0, c));
                                    }
                                }
                                let ghost binds_pre = binds@;
                                let arg_ext = extract_olds(&arg, binds);
                                proof {
                                    lemma_ext_run_count(toks_model(arg@), nb);
                                    lemma_binds_model_len(binds@);
                                }
                                let id: u64 = binds.len() as u64;
                                let name = old_binder_name_str(id);
                                let name_tok = Tok::Ident(name.clone());
                                let b = OldBinding { name, expr: arg_ext };
                                proof {
                                    let ghost arg_m = toks_model(arg@);
                                    let na = ext_run(arg_m, nb).2;
                                    assert(id as nat == na);
                                    lemma_binds_model_push(binds@, b);
                                    lemma_toks_model_push(out@, name_tok);
                                    assert(rest.skip(2) =~= m.skip(i as int + 2));
                                    let ta = ext_run(arg_m, nb).0;
                                    let ba = ext_run(arg_m, nb).1;
                                    let tr = ext_run(rest.skip(2), na + 1).0;
                                    let br = ext_run(rest.skip(2), na + 1).1;
                                    assert(ext_run(rest, nb).0 == seq![
                                        TokModel::Ident(old_binder_name(na)),
                                    ] + tr);
                                    assert(ext_run(rest, nb).1 == ba.push(
                                        OldBindingModel { name: old_binder_name(na), expr: ta },
                                    ) + br);
                                    assert(b@ == OldBindingModel {
                                        name: old_binder_name(na),
                                        expr: ta,
                                    });
                                    assert(toks_model(out@) + ext_run(rest, nb).0 =~= toks_model(
                                        out@.push(name_tok),
                                    ) + tr);
                                    assert(binds_model(binds_pre) + (ba.push(
                                        OldBindingModel { name: old_binder_name(na), expr: ta },
                                    ) + br) =~= binds_model(binds@.push(b)) + br);
                                }
                                binds.push(b);
                                out.push(name_tok);
                                i = i + 2;
                                handled = true;
                                proof {
                                    lemma_binds_model_len(binds@);
                                }
                            },
                            None => {
                                proof {
                                    assert(m[i as int + 1] == ts@[i as int + 1]@);
                                    assert(m[i as int + 1]->Group_1 == inner_m);
                                    assert(!head_old_call(rest));
                                }
                            },
                        }
                    },
                    _ => {
                        proof {
                            assert(m[i as int + 1] == ts@[i as int + 1]@);
                            assert(!head_old_call(rest));
                        }
                    },
                }
            }
            if !handled {
                proof {
                    assert(!head_old_call(rest));
                }
                match &ts[i] {
                    Tok::Group(d, inner) => {
                        let ghost inner_m = toks_model(inner@);
                        proof {
                            assert(m[i as int] == ts@[i as int]@);
                            assert(m[i as int]->Group_1 == inner_m);
                            axiom_seq_index_decreases(m, i as int);
                            assert(decreases_to!(m[i as int] => m[i as int]->Group_1));
                        }
                        let ghost binds_pre = binds@;
                        let sub = extract_olds(inner, binds);
                        let g = Tok::Group(*d, sub);
                        proof {
                            lemma_ext_run_count(inner_m, nb);
                            lemma_binds_model_len(binds@);
                            lemma_toks_model_push(out@, g);
                            assert(rest.skip(1) =~= m.skip(i as int + 1));
                            let ti = ext_run(inner_m, nb).0;
                            let bi = ext_run(inner_m, nb).1;
                            let ni = ext_run(inner_m, nb).2;
                            let tr = ext_run(rest.skip(1), ni).0;
                            let br = ext_run(rest.skip(1), ni).1;
                            assert(ext_run(rest, nb).0 == seq![TokModel::Group(*d, ti)] + tr);
                            assert(ext_run(rest, nb).1 == bi + br);
                            assert(g@ == TokModel::Group(*d, ti));
                            assert(toks_model(out@) + ext_run(rest, nb).0 =~= toks_model(
                                out@.push(g),
                            ) + tr);
                            assert(binds_model(binds_pre) + (bi + br) =~= binds_model(binds@)
                                + br);
                        }
                        out.push(g);
                        i = i + 1;
                    },
                    other => {
                        let t = copy_tok(other);
                        proof {
                            lemma_toks_model_push(out@, t);
                            assert(rest.skip(1) =~= m.skip(i as int + 1));
                            assert(t@ == m[i as int]);
                            assert(ext_run(rest, nb).0 == seq![rest[0]] + ext_run(
                                rest.skip(1),
                                nb,
                            ).0);
                            assert(toks_model(out@) + ext_run(rest, nb).0 =~= toks_model(
                                out@.push(t),
                            ) + ext_run(m.skip(i as int + 1), nb).0);
                        }
                        out.push(t);
                        i = i + 1;
                    },
                }
            }
        }
    }
    proof {
        assert(m.skip(ts@.len() as int) =~= Seq::<TokModel>::empty());
        assert(ext_run(Seq::<TokModel>::empty(), binds@.len() as nat).0 =~= Seq::<
            TokModel,
        >::empty());
        assert(ext_run(Seq::<TokModel>::empty(), binds@.len() as nat).1 =~= Seq::<
            OldBindingModel,
        >::empty());
        assert(toks_model(out@) + Seq::<TokModel>::empty() =~= toks_model(out@));
        assert(binds_model(binds@) + Seq::<OldBindingModel>::empty() =~= binds_model(binds@));
        assert(binds_model(binds0) + ext_run(m, n0).1 =~= binds_model(binds@));
        lemma_binds_model_len(binds0);
        lemma_binds_model_len(binds@);
        lemma_ext_run_count(m, n0);
    }
    out
}

} // verus!
