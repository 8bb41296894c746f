//! Rewriting the implication operator out of an expression's tokens.
//!
//! The host grammar has no implication operator, so `A ==> B` must be
//! eliminated before an expression is treated as a plain boolean condition.
//! The scan splits a token run at its first top-level marker — markers
//! inside a nested group never act as split points for the enclosing run —
//! and reconstructs `!(A) || (B)`, recursing into the consequent, so that
//! chains associate to the right: `A ==> B ==> C` becomes
//! `!(A) || (!(B) || (C))`.  Group contents are rewritten in place, which
//! is what lets explicit parentheses scope the operator.

use vstd::prelude::*;
use vstd::seq::{axiom_seq_index_decreases, axiom_seq_subrange_decreases};
use crate::text::str_eq;
use crate::tokens::{copy_tok, lemma_toks_model_index, lemma_toks_model_len,
    lemma_toks_model_push, toks_model, Delim, Tok, TokModel};

verus! {

/// Whether one token is the implication marker `==>`.
pub open spec fn is_imp_marker(t: TokModel) -> bool {
    t matches TokModel::Op(s) && s == "==>"@
}

/// The index of the first top-level implication marker, or the length of
/// the run when it has none.
pub open spec fn top_marker_ix(ts: Seq<TokModel>) -> int
    decreases ts.len(),
{
    if ts.len() == 0 {
        0
    } else if is_imp_marker(ts[0]) {
        0
    } else {
        1 + top_marker_ix(ts.skip(1))
    }
}

/// `top_marker_ix` points at the first top-level marker: everything before
/// it is no marker, and it is within the run exactly when a marker exists.
pub proof fn lemma_top_marker_ix(ts: Seq<TokModel>)
    ensures
        0 <= top_marker_ix(ts) <= ts.len(),
        top_marker_ix(ts) < ts.len() ==> is_imp_marker(ts[top_marker_ix(ts)]),
        forall|j: int| 0 <= j < top_marker_ix(ts) ==> !is_imp_marker(ts[j]),
    decreases ts.len(),
{
    if ts.len() > 0 && !is_imp_marker(ts[0]) {
        lemma_top_marker_ix(ts.skip(1));
        assert forall|j: int| 0 <= j < top_marker_ix(ts) implies !is_imp_marker(ts[j]) by {
            if j > 0 {
                assert(ts.skip(1)[j - 1] == ts[j]);
            }
        }
        if top_marker_ix(ts) < ts.len() {
            assert(ts.skip(1)[top_marker_ix(ts) - 1] == ts[top_marker_ix(ts)]);
        }
    }
}

/// A scan that finds no marker before `i` and a marker at `i` has found the
/// first one.
pub proof fn lemma_top_marker_ix_found(ts: Seq<TokModel>, i: int)
    requires
        0 <= i < ts.len(),
        is_imp_marker(ts[i]),
        forall|j: int| 0 <= j < i ==> !is_imp_marker(ts[j]),
    ensures
        top_marker_ix(ts) == i,
    decreases ts.len(),
{
    if i > 0 {
        assert(!is_imp_marker(ts[0]));
        assert forall|j: int| 0 <= j < i - 1 implies !is_imp_marker(ts.skip(1)[j]) by {
            assert(ts.skip(1)[j] == ts[j + 1]);
        }
        assert(ts.skip(1)[i - 1] == ts[i]);
        lemma_top_marker_ix_found(ts.skip(1), i - 1);
    }
}

/// A scan that reaches the end without a marker has found none.
pub proof fn lemma_top_marker_ix_none(ts: Seq<TokModel>)
    requires
        forall|j: int| 0 <= j < ts.len() ==> !is_imp_marker(ts[j]),
    ensures
        top_marker_ix(ts) == ts.len(),
    decreases ts.len(),
{
    if ts.len() > 0 {
        assert forall|j: int| 0 <= j < ts.skip(1).len() implies !is_imp_marker(ts.skip(1)[j]) by {
            assert(ts.skip(1)[j] == ts[j + 1]);
        }
        lemma_top_marker_ix_none(ts.skip(1));
    }
}

/// The rewritten form of one token run.
///
/// With a top-level marker at `i`, the run `A ==> B` becomes the four
/// tokens `!`, `(A)`, `||`, `(B)` with the antecedent's groups and the
/// whole consequent rewritten in turn; without one, every group's contents
/// are rewritten in place.
pub open spec fn imp_rewrite(ts: Seq<TokModel>) -> Seq<TokModel>
    decreases ts, 1int,
    via imp_rewrite_decreases
{
    let i = top_marker_ix(ts);
    if i < ts.len() {
        seq![
            TokModel::Op("!"@),
            TokModel::Group(Delim::Paren, imp_rewrite_groups(ts.take(i))),
            TokModel::Op("||"@),
            TokModel::Group(Delim::Paren, imp_rewrite(ts.skip(i + 1))),
        ]
    } else {
        imp_rewrite_groups(ts)
    }
}

#[via_fn]
proof fn imp_rewrite_decreases(ts: Seq<TokModel>) {
    let i = top_marker_ix(ts);
    lemma_top_marker_ix(ts);
    if i < ts.len() {
        axiom_seq_subrange_decreases(ts, 0, i);
        assert(ts.take(i) == ts.subrange(0, i));
        axiom_seq_subrange_decreases(ts, i + 1, ts.len() as int);
        assert(ts.skip(i + 1) == ts.subrange(i + 1, ts.len() as int));
    }
}

/// Every group's contents rewritten in place, all other tokens unchanged.
pub open spec fn imp_rewrite_groups(ts: Seq<TokModel>) -> Seq<TokModel>
    decreases ts, 0int,
    via imp_rewrite_groups_decreases
{
    if ts.len() == 0 {
        Seq::empty()
    } else {
        imp_rewrite_groups(ts.drop_last()).push(
            match ts.last() {
                TokModel::Group(d, inner) => TokModel::Group(d, imp_rewrite(inner)),
                t => t,
            },
        )
    }
}

#[via_fn]
proof fn imp_rewrite_groups_decreases(ts: Seq<TokModel>) {
    if ts.len() > 0 {
        axiom_seq_subrange_decreases(ts, 0, ts.len() - 1);
        assert(ts.drop_last() == ts.subrange(0, ts.len() - 1));
        axiom_seq_index_decreases(ts, ts.len() - 1);
        assert(ts.last() == ts[ts.len() - 1]);
        match ts.last() {
            TokModel::Group(d, inner) => {
                assert(decreases_to!(ts.last() => ts.last()->Group_1));
                assert(ts.last()->Group_1 == inner);
            },
            _ => {},
        }
    }
}

/// Whether a token and everything below it is free of the marker.
pub open spec fn tok_marker_free(t: TokModel) -> bool
    decreases t,
{
    match t {
        TokModel::Group(_, inner) => seq_marker_free(inner),
        _ => !is_imp_marker(t),
    }
}

/// Whether a whole run, nested groups included, is free of the marker.
pub open spec fn seq_marker_free(ts: Seq<TokModel>) -> bool
    decreases ts,
{
    if ts.len() == 0 {
        true
    } else {
        seq_marker_free(ts.drop_last()) && tok_marker_free(ts.last())
    }
}

/// Extending a marker-free run by a marker-free token keeps it marker-free.
pub proof fn lemma_seq_marker_free_push(ts: Seq<TokModel>, t: TokModel)
    ensures
        seq_marker_free(ts.push(t)) == (seq_marker_free(ts) && tok_marker_free(t)),
{
    assert(ts.push(t).drop_last() =~= ts);
}

/// A marker-free run is marker-free at every index.
pub proof fn lemma_seq_marker_free_index(ts: Seq<TokModel>, i: int)
    requires
        seq_marker_free(ts),
        0 <= i < ts.len(),
    ensures
        tok_marker_free(ts[i]),
    decreases ts,
{
    if i < ts.len() - 1 {
        lemma_seq_marker_free_index(ts.drop_last(), i);
    }
}

/// The connective tokens the rewrite inserts are not the marker.
proof fn lemma_connectives_not_marker()
    ensures
        !is_imp_marker(TokModel::Op("!"@)),
        !is_imp_marker(TokModel::Op("||"@)),
{
    reveal_strlit("!");
    reveal_strlit("||");
    reveal_strlit("==>");
    assert("!"@.len() == 1);
    assert("||"@.len() == 2);
    assert("==>"@.len() == 3);
}

/// Rewriting eliminates the implication marker everywhere: no marker is
/// left in the result, at the top level or inside any nested group.
pub proof fn lemma_imp_rewrite_marker_free(ts: Seq<TokModel>)
    ensures
        seq_marker_free(imp_rewrite(ts)),
    decreases ts, 1int,
{
    let i = top_marker_ix(ts);
    lemma_top_marker_ix(ts);
    if i < ts.len() {
        axiom_seq_subrange_decreases(ts, 0, i);
        assert(ts.take(i) == ts.subrange(0, i));
        axiom_seq_subrange_decreases(ts, i + 1, ts.len() as int);
        assert(ts.skip(i + 1) == ts.subrange(i + 1, ts.len() as int));
        assert forall|j: int| 0 <= j < ts.take(i).len() implies !is_imp_marker(ts.take(i)[j]) by {
            assert(ts.take(i)[j] == ts[j]);
        }
        lemma_imp_rewrite_groups_marker_free(ts.take(i));
        lemma_imp_rewrite_marker_free(ts.skip(i + 1));
        lemma_connectives_not_marker();
        let r = imp_rewrite(ts);
        let s0 = seq![TokModel::Op("!"@)];
        let s1 = s0.push(TokModel::Group(Delim::Paren, imp_rewrite_groups(ts.take(i))));
        let s2 = s1.push(TokModel::Op("||"@));
        let s3 = s2.push(TokModel::Group(Delim::Paren, imp_rewrite(ts.skip(i + 1))));
        assert(s0.drop_last() =~= Seq::<TokModel>::empty());
        assert(seq_marker_free(Seq::<TokModel>::empty()));
        assert(s0.last() == TokModel::Op("!"@));
        assert(tok_marker_free(TokModel::Op("!"@)));
        assert(seq_marker_free(s0));
        lemma_seq_marker_free_push(s0, TokModel::Group(Delim::Paren, imp_rewrite_groups(ts.take(i))));
        lemma_seq_marker_free_push(s1, TokModel::Op("||"@));
        lemma_seq_marker_free_push(s2, TokModel::Group(Delim::Paren, imp_rewrite(ts.skip(i + 1))));
        assert(r =~= s3);
    } else {
        assert forall|j: int| 0 <= j < ts.len() implies !is_imp_marker(ts[j]) by {}
        lemma_imp_rewrite_groups_marker_free(ts);
    }
}

/// Rewriting every group's contents leaves no marker below the top level,
/// and the top level itself had none to begin with.
pub proof fn lemma_imp_rewrite_groups_marker_free(ts: Seq<TokModel>)
    requires
        forall|j: int| 0 <= j < ts.len() ==> !is_imp_marker(ts[j]),
    ensures
        seq_marker_free(imp_rewrite_groups(ts)),
    decreases ts, 0int,
{
    if ts.len() > 0 {
        axiom_seq_subrange_decreases(ts, 0, ts.len() - 1);
        assert(ts.drop_last() == ts.subrange(0, ts.len() - 1));
        assert forall|j: int| 0 <= j < ts.drop_last().len() implies !is_imp_marker(
            ts.drop_last()[j],
        ) by {
            assert(ts.drop_last()[j] == ts[j]);
        }
        lemma_imp_rewrite_groups_marker_free(ts.drop_last());
        let t = match ts.last() {
            TokModel::Group(d, inner) => TokModel::Group(d, imp_rewrite(inner)),
            t => t,
        };
        match ts.last() {
            TokModel::Group(d, inner) => {
                axiom_seq_index_decreases(ts, ts.len() - 1);
                assert(ts.last() == ts[ts.len() - 1]);
                assert(decreases_to!(ts.last() => ts.last()->Group_1));
                assert(ts.last()->Group_1 == inner);
                lemma_imp_rewrite_marker_free(inner);
            },
            _ => {
                assert(ts.last() == ts[ts.len() - 1]);
                assert(!is_imp_marker(ts[ts.len() - 1]));
            },
        }
        lemma_seq_marker_free_push(imp_rewrite_groups(ts.drop_last()), t);
    }
}

/// Whether one executable token is the implication marker.
pub fn tok_is_imp_marker(t: &Tok) -> (r: bool)
    ensures
        r == is_imp_marker(t@),
{
    match t {
        Tok::Op(s) => str_eq(s.as_str(), "==>"),
        _ => false,
    }
}

/// Rewrites the implication operator out of one token run.
pub fn imp_rewrite_toks(ts: &Vec<Tok>) -> (r: Vec<Tok>)
    ensures
        toks_model(r@) == imp_rewrite(toks_model(ts@)),
    decreases toks_model(ts@), 1int,
{
    let ghost m = toks_model(ts@);
    proof {
        lemma_toks_model_len(ts@);
    }
    let mut i: usize = 0;
    let mut found: bool = false;
    while i < ts.len() && !found
        invariant
            0 <= i <= ts@.len(),
            m == toks_model(ts@),
            m.len() == ts@.len(),
            found ==> i < ts@.len() && is_imp_marker(m[i as int]),
            forall|j: int| 0 <= j < i ==> !is_imp_marker(m[j]),
        decreases ts@.len() - i + (if found { 0int } else { 1int }),
    {
        proof {
            lemma_toks_model_index(ts@, i as int);
        }
        if tok_is_imp_marker(&ts[i]) {
            found = true;
        } else {
            i = i + 1;
        }
    }
    if found {
        proof {
            lemma_top_marker_ix_found(m, i as int);
        }
        let mut lhs: Vec<Tok> = Vec::new();
        let mut j: usize = 0;
        while j < i
            invariant
                0 <= j <= i < ts@.len(),
                m == toks_model(ts@),
                m.len() == ts@.len(),
                toks_model(lhs@) == m.take(i as int).take(j as int),
            decreases i - j,
        {
            let t = copy_tok(&ts[j]);
            proof {
                lemma_toks_model_index(ts@, j as int);
                lemma_toks_model_push(lhs@, t);
                assert(m.take(i as int).take(j as int).push(m[j as int]) =~= m.take(i as int).take(
                    j as int + 1,
                ));
            }
            lhs.push(t);
            j = j + 1;
        }
        proof {
            assert(m.take(i as int).take(i as int) =~= m.take(i as int));
        }
        let mut rhs: Vec<Tok> = Vec::new();
        let mut k: usize = i + 1;
        while k < ts.len()
            invariant
                i as int + 1 <= k as int <= ts@.len(),
                m == toks_model(ts@),
                m.len() == ts@.len(),
                toks_model(rhs@) == m.skip(i as int + 1).take(k - i - 1),
            decreases ts@.len() - k,
        {
            let t = copy_tok(&ts[k]);
            proof {
                lemma_toks_model_index(ts@, k as int);
                lemma_toks_model_push(rhs@, t);
                assert(m.skip(i as int + 1).take(k - i - 1).push(m[k as int]) =~= m.skip(
                    i as int + 1,
                ).take(k as int + 1 - i - 1));
            }
            rhs.push(t);
            k = k + 1;
        }
        proof {
            assert(m.skip(i as int + 1).take(ts@.len() - i - 1) =~= m.skip(i as int + 1));
            axiom_seq_subrange_decreases(m, 0, i as int);
            assert(m.take(i as int) == m.subrange(0, i as int));
            axiom_seq_subrange_decreases(m, i as int + 1, m.len() as int);
            assert(m.skip(i as int + 1) == m.subrange(i as int + 1, m.len() as int));
        }
        let lhs_rw = imp_rewrite_groups_toks(&lhs);
        let rhs_rw = imp_rewrite_toks(&rhs);
        let mut r: Vec<Tok> = Vec::new();
        r.push(Tok::Op("!".to_owned()));
        r.push(Tok::Group(Delim::Paren, lhs_rw));
        r.push(Tok::Op("||".to_owned()));
        r.push(Tok::Group(Delim::Paren, rhs_rw));
        proof {
            lemma_toks_model_len(r@);
            lemma_toks_model_index(r@, 0);
            lemma_toks_model_index(r@, 1);
            lemma_toks_model_index(r@, 2);
            lemma_toks_model_index(r@, 3);
            assert(toks_model(r@) =~= imp_rewrite(m));
        }
        r
    } else {
        proof {
            lemma_top_marker_ix_none(m);
        }
        imp_rewrite_groups_toks(ts)
    }
}

/// Rewrites every group's contents in one token run, leaving all other
/// tokens unchanged.
pub fn imp_rewrite_groups_toks(ts: &Vec<Tok>) -> (r: Vec<Tok>)
    ensures
        toks_model(r@) == imp_rewrite_groups(toks_model(ts@)),
    decreases toks_model(ts@), 0int,
{
    let ghost m = toks_model(ts@);
    proof {
        lemma_toks_model_len(ts@);
    }
    let mut r: Vec<Tok> = Vec::new();
    let mut i: usize = 0;
    while i < ts.len()
        invariant
            0 <= i <= ts@.len(),
            m == toks_model(ts@),
            m.len() == ts@.len(),
            toks_model(r@) == imp_rewrite_groups(m.take(i as int)),
        decreases ts@.len() - i,
    {
        proof {
            lemma_toks_model_index(ts@, i as int);
        }
        let t = match &ts[i] {
            Tok::Group(d, inner) => {
                proof {
                    axiom_seq_index_decreases(m, i as int);
                    assert(m[i as int] == ts@[i as int]@);
                    assert(decreases_to!(m[i as int] => m[i as int]->Group_1));
                    assert(m[i as int]->Group_1 == toks_model(inner@));
                }
                Tok::Group(*d, imp_rewrite_toks(inner))
            },
            other => copy_tok(other),
        };
        proof {
            lemma_toks_model_push(r@, t);
            assert(m.take(i as int).push(m[i as int]) =~= m.take(i as int + 1));
            assert(m.take(i as int + 1).drop_last() =~= m.take(i as int));
            assert(m.take(i as int + 1).last() == m[i as int]);
        }
        r.push(t);
        i = i + 1;
    }
    proof {
        assert(m.take(ts@.len() as int) =~= m);
    }
    r
}

} // verus!
