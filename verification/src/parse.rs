//! Parsing a contract attribute's argument list.
//!
//! The arguments are a comma-separated, non-empty list of expression token
//! runs, with a trailing comma tolerated.  When the final run is a lone
//! string literal it is separated out as the human-readable description and
//! only the preceding runs are kept as assertions; a string literal in any
//! earlier position stays a real assertion.  An empty run anywhere is a
//! malformed list and a fatal expansion error.

use vstd::prelude::*;
use crate::errors::ExpandError;
use crate::text::str_eq;
use crate::tokens::{copy_toks, lemma_runs_model_index, lemma_runs_model_len,
    lemma_runs_model_push, lemma_toks_model_index, lemma_toks_model_len, lemma_toks_model_push,
    runs_model, toks_model, Tok, TokModel};

verus! {

/// Whether one token is a top-level separating comma.
pub open spec fn is_comma(t: TokModel) -> bool {
    t matches TokModel::Op(s) && s == ","@
}

/// The runs between top-level commas, in order.  An empty argument list is
/// one empty run; every comma opens a new run.
pub open spec fn split_commas(ts: Seq<TokModel>) -> Seq<Seq<TokModel>>
    decreases ts.len(),
{
    if ts.len() == 0 {
        seq![Seq::<TokModel>::empty()]
    } else if is_comma(ts.last()) {
        split_commas(ts.drop_last()).push(Seq::empty())
    } else {
        let r = split_commas(ts.drop_last());
        r.update(r.len() - 1, r.last().push(ts.last()))
    }
}

/// Splitting always yields at least one run.
pub proof fn lemma_split_commas_len(ts: Seq<TokModel>)
    ensures
        split_commas(ts).len() >= 1,
    decreases ts.len(),
{
    if ts.len() > 0 {
        lemma_split_commas_len(ts.drop_last());
    }
}

/// The argument runs with one trailing comma tolerated: a final empty run
/// is dropped.
pub open spec fn arg_runs(ts: Seq<TokModel>) -> Seq<Seq<TokModel>> {
    let rs = split_commas(ts);
    if rs.last().len() == 0 {
        rs.drop_last()
    } else {
        rs
    }
}

/// A well-formed argument list has no empty run: no leading comma, no two
/// commas in a row, and at most one trailing comma.
pub open spec fn args_wellformed(ts: Seq<TokModel>) -> bool {
    forall|i: int| 0 <= i < arg_runs(ts).len() ==> arg_runs(ts)[i].len() > 0
}

/// Whether a run is a lone string literal, the shape that serves as a
/// description.
pub open spec fn run_is_desc(run: Seq<TokModel>) -> bool {
    run.len() == 1 && run[0] is LitStr
}

/// The description separated out of the argument list, if its final run is
/// a lone string literal.
pub open spec fn parsed_desc(ts: Seq<TokModel>) -> Option<Seq<char>> {
    let rs = arg_runs(ts);
    if rs.len() > 0 && run_is_desc(rs.last()) {
        Some(rs.last()[0]->LitStr_0)
    } else {
        None
    }
}

/// The assertion runs of the argument list: every run, except a final one
/// that serves as the description.
pub open spec fn parsed_assertion_runs(ts: Seq<TokModel>) -> Seq<Seq<TokModel>> {
    let rs = arg_runs(ts);
    if rs.len() > 0 && run_is_desc(rs.last()) {
        rs.drop_last()
    } else {
        rs
    }
}

/// An argument list ending in a lone string literal has exactly that
/// literal separated out as the description, and keeps all preceding runs,
/// in order, as assertions.
pub proof fn lemma_trailing_literal_is_description(ts: Seq<TokModel>)
    requires
        arg_runs(ts).len() > 0,
        run_is_desc(arg_runs(ts).last()),
    ensures
        parsed_desc(ts) == Some(arg_runs(ts).last()[0]->LitStr_0),
        parsed_assertion_runs(ts) == arg_runs(ts).drop_last(),
{
}

/// An argument list not ending in a lone string literal has no
/// description, and every run — a string literal in a non-final position
/// included — stays an assertion.
pub proof fn lemma_no_trailing_literal_keeps_all(ts: Seq<TokModel>)
    requires
        arg_runs(ts).len() == 0 || !run_is_desc(arg_runs(ts).last()),
    ensures
        parsed_desc(ts) is None,
        parsed_assertion_runs(ts) == arg_runs(ts),
{
}

/// Whether one executable token is a comma.
pub fn tok_is_comma(t: &Tok) -> (r: bool)
    ensures
        r == is_comma(t@),
{
    match t {
        Tok::Op(s) => str_eq(s.as_str(), ","),
        _ => false,
    }
}

/// Splits one token run at its top-level commas.
pub fn split_top_commas(ts: &Vec<Tok>) -> (r: Vec<Vec<Tok>>)
    ensures
        runs_model(r@) == split_commas(toks_model(ts@)),
        r@.len() >= 1,
{
    let ghost m = toks_model(ts@);
    proof {
        lemma_toks_model_len(ts@);
    }
    let mut done: Vec<Vec<Tok>> = Vec::new();
    let mut cur: Vec<Tok> = Vec::new();
    let mut i: usize = 0;
    while i < ts.len()
        invariant
            0 <= i <= ts@.len(),
            m == toks_model(ts@),
            m.len() == ts@.len(),
            runs_model(done@).push(toks_model(cur@)) == split_commas(m.take(i as int)),
        decreases ts@.len() - i,
    {
        proof {
            lemma_toks_model_index(ts@, i as int);
            assert(m.take(i as int + 1).drop_last() =~= m.take(i as int));
            assert(m.take(i as int + 1).last() == m[i as int]);
        }
        if tok_is_comma(&ts[i]) {
            let finished = cur;
            cur = Vec::new();
            proof {
                lemma_runs_model_push(done@, finished);
            }
            done.push(finished);
            proof {
                assert(runs_model(done@).push(toks_model(cur@)) =~= split_commas(
                    m.take(i as int + 1),
                ));
            }
        } else {
            let ghost prev = split_commas(m.take(i as int));
            let t = crate::tokens::copy_tok(&ts[i]);
            proof {
                lemma_toks_model_push(cur@, t);
                lemma_runs_model_len(done@);
                assert(prev.last() == toks_model(cur@));
                assert(split_commas(m.take(i as int + 1)) == prev.update(
                    prev.len() - 1,
                    prev.last().push(m[i as int]),
                ));
                assert(runs_model(done@).push(toks_model(cur@).push(m[i as int])) =~= prev.update(
                    prev.len() - 1,
                    prev.last().push(m[i as int]),
                ));
            }
            cur.push(t);
            i = i + 1;
            continue;
        }
        i = i + 1;
    }
    proof {
        assert(m.take(ts@.len() as int) =~= m);
        lemma_runs_model_push(done@, cur);
        lemma_runs_model_len(done@);
    }
    done.push(cur);
    done
}

/// Parses a contract attribute's arguments into the assertion runs and the
/// optional description.
///
/// Fails exactly on a malformed list: one with an empty run between or
/// before its commas.
pub fn parse_attr_args(args: &Vec<Tok>) -> (r: Result<(Vec<Vec<Tok>>, Option<String>), ExpandError>)
    ensures
        r is Ok <==> args_wellformed(toks_model(args@)),
        r matches Ok((asserts, desc)) ==> {
            &&& runs_model(asserts@) == parsed_assertion_runs(toks_model(args@))
            &&& (match desc {
                Some(s) => parsed_desc(toks_model(args@)) == Some(s@),
                None => parsed_desc(toks_model(args@)) is None,
            })
        },
{
    let ghost m = toks_model(args@);
    let runs = split_top_commas(args);
    let ghost rsm = runs_model(runs@);
    proof {
        lemma_runs_model_len(runs@);
        lemma_split_commas_len(m);
    }
    // Tolerate one trailing comma: a final empty run is dropped.
    let n_runs: usize = runs.len();
    let eff: usize = {
        proof {
            lemma_runs_model_index(runs@, n_runs as int - 1);
        }
        if runs[n_runs - 1].len() == 0 {
            n_runs - 1
        } else {
            n_runs
        }
    };
    proof {
        lemma_toks_model_len(runs@[n_runs as int - 1]@);
        assert(rsm.last() == toks_model(runs@[n_runs as int - 1]@));
        if rsm.last().len() == 0 {
            assert(arg_runs(m) =~= rsm.take(eff as int));
        } else {
            assert(arg_runs(m) =~= rsm.take(eff as int));
        }
    }
    // Any remaining empty run is a malformed argument list.
    let mut i: usize = 0;
    while i < eff
        invariant
            0 <= i <= eff <= runs@.len(),
            m == toks_model(args@),
            rsm == runs_model(runs@),
            rsm.len() == runs@.len(),
            arg_runs(m) == rsm.take(eff as int),
            forall|j: int| 0 <= j < i ==> rsm[j].len() > 0,
        decreases eff - i,
    {
        proof {
            lemma_runs_model_index(runs@, i as int);
            lemma_toks_model_len(runs@[i as int]@);
        }
        if runs[i].len() == 0 {
            proof {
                assert(!args_wellformed(m)) by {
                    assert(arg_runs(m).len() == eff as int);
                    assert(arg_runs(m)[i as int].len() == 0);
                }
            }
            return Err(ExpandError::MalformedAttributeArgs);
        }
        i = i + 1;
    }
    proof {
        assert(args_wellformed(m)) by {
            assert forall|j: int| 0 <= j < arg_runs(m).len() implies arg_runs(m)[j].len() > 0 by {
                assert(arg_runs(m)[j] == rsm[j]);
            }
        }
    }
    // A final lone string literal is the description.
    let mut n_asserts: usize = eff;
    let mut desc: Option<String> = None;
    if eff > 0 {
        proof {
            lemma_runs_model_index(runs@, eff as int - 1);
            lemma_toks_model_len(runs@[eff as int - 1]@);
        }
        let last_run = &runs[eff - 1];
        if last_run.len() == 1 {
            proof {
                lemma_toks_model_index(runs@[eff as int - 1]@, 0);
            }
            match &last_run[0] {
                Tok::LitStr(s) => {
                    desc = Some(s.clone());
                    n_asserts = eff - 1;
                },
                _ => {},
            }
        }
    }
    proof {
        let rs = arg_runs(m);
        if desc is Some {
            assert(rs.len() > 0 && run_is_desc(rs.last()));
            assert(parsed_assertion_runs(m) =~= rsm.take(n_asserts as int));
        } else {
            if rs.len() > 0 {
                assert(rs.last() == rsm[eff as int - 1]);
                assert(!run_is_desc(rs.last()));
            }
            assert(parsed_assertion_runs(m) =~= rsm.take(n_asserts as int));
        }
    }
    // Keep the assertion runs, in order.
    let mut asserts: Vec<Vec<Tok>> = Vec::new();
    let mut k: usize = 0;
    while k < n_asserts
        invariant
            0 <= k <= n_asserts <= runs@.len(),
            rsm == runs_model(runs@),
            rsm.len() == runs@.len(),
            parsed_assertion_runs(m) == rsm.take(n_asserts as int),
            runs_model(asserts@) == rsm.take(k as int),
        decreases n_asserts - k,
    {
        proof {
            lemma_runs_model_index(runs@, k as int);
        }
        let run = copy_toks(&runs[k]);
        proof {
            lemma_runs_model_push(asserts@, run);
            assert(rsm.take(k as int).push(rsm[k as int]) =~= rsm.take(k as int + 1));
        }
        asserts.push(run);
        k = k + 1;
    }
    Ok((asserts, desc))
}

} // verus!
