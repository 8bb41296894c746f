//! The syntax the transformation works on: token trees.
//!
//! Attribute arguments, expressions and function bodies are carried as
//! sequences of token trees.  An identifier, an operator, a literal or a
//! delimited group is one token; a group holds a nested sequence.  Multi
//! character operators such as `==>` or `||` are single `Op` tokens.

use vstd::prelude::*;

verus! {

/// Grouping delimiter of a token group.
#[derive(Clone, Copy, PartialEq, Eq, Structural, Debug)]
pub enum Delim {
    Paren,
    Brace,
    Bracket,
}

/// Mathematical model of one token tree.
pub enum TokModel {
    Ident(Seq<char>),
    Op(Seq<char>),
    LitStr(Seq<char>),
    LitOther(Seq<char>),
    Group(Delim, Seq<TokModel>),
}

/// One executable token tree.
pub enum Tok {
    /// An identifier or keyword, by its text.
    Ident(String),
    /// An operator or punctuation run, joined into one token (`,`, `!`, `==>`).
    Op(String),
    /// A string literal, by its unquoted contents.
    LitStr(String),
    /// Any other literal, by its source text.
    LitOther(String),
    /// A delimited group of tokens.
    Group(Delim, Vec<Tok>),
}

pub open spec fn tok_model(t: Tok) -> TokModel
    decreases t,
{
    match t {
        Tok::Ident(s) => TokModel::Ident(s@),
        Tok::Op(s) => TokModel::Op(s@),
        Tok::LitStr(s) => TokModel::LitStr(s@),
        Tok::LitOther(s) => TokModel::LitOther(s@),
        Tok::Group(d, ts) => TokModel::Group(d, toks_model(ts@)),
    }
}

pub open spec fn toks_model(ts: Seq<Tok>) -> Seq<TokModel>
    decreases ts,
{
    if ts.len() == 0 {
        Seq::empty()
    } else {
        toks_model(ts.drop_last()).push(tok_model(ts.last()))
    }
}

impl View for Tok {
    type V = TokModel;

    open spec fn view(&self) -> TokModel {
        tok_model(*self)
    }
}

/// Appending one token appends its model.
pub proof fn lemma_toks_model_push(ts: Seq<Tok>, t: Tok)
    ensures
        toks_model(ts.push(t)) == toks_model(ts).push(tok_model(t)),
{
    assert(ts.push(t).drop_last() =~= ts);
    assert(ts.push(t).last() == t);
}

/// The model of a token sequence has one entry per token.
pub proof fn lemma_toks_model_len(ts: Seq<Tok>)
    ensures
        toks_model(ts).len() == ts.len(),
    decreases ts,
{
    if ts.len() > 0 {
        lemma_toks_model_len(ts.drop_last());
    }
}

/// The model of a token sequence is the sequence of the tokens' models.
pub proof fn lemma_toks_model_index(ts: Seq<Tok>, i: int)
    requires
        0 <= i < ts.len(),
    ensures
        toks_model(ts).len() == ts.len(),
        toks_model(ts)[i] == ts[i]@,
    decreases ts,
{
    lemma_toks_model_len(ts);
    if i < ts.len() - 1 {
        lemma_toks_model_index(ts.drop_last(), i);
    } else {
        assert(ts.last() == ts[i]);
    }
}

/// The model of a sequence of token runs.
pub open spec fn runs_model(rs: Seq<Vec<Tok>>) -> Seq<Seq<TokModel>>
    decreases rs,
{
    if rs.len() == 0 {
        Seq::empty()
    } else {
        runs_model(rs.drop_last()).push(toks_model(rs.last()@))
    }
}

/// Appending one run appends its model.
pub proof fn lemma_runs_model_push(rs: Seq<Vec<Tok>>, r: Vec<Tok>)
    ensures
        runs_model(rs.push(r)) == runs_model(rs).push(toks_model(r@)),
{
    assert(rs.push(r).drop_last() =~= rs);
    assert(rs.push(r).last() == r);
}

/// The model of a run sequence is the runs' models, index by index.
pub proof fn lemma_runs_model_index(rs: Seq<Vec<Tok>>, i: int)
    requires
        0 <= i < rs.len(),
    ensures
        runs_model(rs).len() == rs.len(),
        runs_model(rs)[i] == toks_model(rs[i]@),
    decreases rs,
{
    lemma_runs_model_len(rs);
    if i < rs.len() - 1 {
        lemma_runs_model_index(rs.drop_last(), i);
    } else {
        assert(rs.last() == rs[i]);
    }
}

/// The model of a run sequence has one entry per run.
pub proof fn lemma_runs_model_len(rs: Seq<Vec<Tok>>)
    ensures
        runs_model(rs).len() == rs.len(),
    decreases rs,
{
    if rs.len() > 0 {
        lemma_runs_model_len(rs.drop_last());
    }
}

/// A structure-preserving copy of one token tree.
pub fn copy_tok(t: &Tok) -> (r: Tok)
    ensures
        r@ == t@,
    decreases *t,
{
    match t {
        Tok::Ident(s) => Tok::Ident(s.clone()),
        Tok::Op(s) => Tok::Op(s.clone()),
        Tok::LitStr(s) => Tok::LitStr(s.clone()),
        Tok::LitOther(s) => Tok::LitOther(s.clone()),
        Tok::Group(d, ts) => Tok::Group(*d, copy_toks(ts)),
    }
}

/// A structure-preserving copy of a token sequence.
pub fn copy_toks(ts: &Vec<Tok>) -> (r: Vec<Tok>)
    ensures
        toks_model(r@) == toks_model(ts@),
        r@.len() == ts@.len(),
    decreases ts@,
{
    let mut r: Vec<Tok> = Vec::new();
    let mut i: usize = 0;
    while i < ts.len()
        invariant
            i <= ts@.len(),
            r@.len() == i,
            toks_model(r@) == toks_model(ts@.subrange(0, i as int)),
        decreases ts@.len() - i,
    {
        proof {
            assert(decreases_to!(ts@ => ts@[i as int]));
        }
        let t = copy_tok(&ts[i]);
        proof {
            lemma_toks_model_push(r@, t);
            lemma_toks_model_push(ts@.subrange(0, i as int), ts@[i as int]);
            assert(ts@.subrange(0, i as int).push(ts@[i as int]) =~= ts@.subrange(
                0,
                i as int + 1,
            ));
        }
        r.push(t);
        i = i + 1;
    }
    proof {
        assert(ts@.subrange(0, ts@.len() as int) =~= ts@);
    }
    r
}

/// Appends one token, extending the model by its model.
pub fn push_tok(dst: &mut Vec<Tok>, t: Tok)
    ensures
        toks_model(final(dst)@) == toks_model(old(dst)@).push(t@),
{
    proof {
        lemma_toks_model_push(dst@, t);
    }
    dst.push(t);
}

/// Appends a copy of every token of `src`, extending the model by theirs.
pub fn append_toks(dst: &mut Vec<Tok>, src: &Vec<Tok>)
    ensures
        toks_model(final(dst)@) == toks_model(old(dst)@) + toks_model(src@),
{
    let ghost m0 = toks_model(dst@);
    let ghost sm = toks_model(src@);
    proof {
        lemma_toks_model_len(src@);
        assert(m0 + sm.take(0) =~= m0);
    }
    let mut i: usize = 0;
    while i < src.len()
        invariant
            0 <= i <= src@.len(),
            sm == toks_model(src@),
            sm.len() == src@.len(),
            toks_model(dst@) == m0 + sm.take(i as int),
        decreases src@.len() - i,
    {
        let t = copy_tok(&src[i]);
        proof {
            lemma_toks_model_index(src@, i as int);
            lemma_toks_model_push(dst@, t);
            assert((m0 + sm.take(i as int)).push(sm[i as int]) =~= m0 + sm.take(i as int + 1));
        }
        dst.push(t);
        i = i + 1;
    }
    proof {
        assert(m0 + sm.take(src@.len() as int) =~= m0 + sm);
    }
}

/// An identifier token for the given text.
pub fn tok_ident(s: &str) -> (t: Tok)
    ensures
        t@ == TokModel::Ident(s@),
{
    Tok::Ident(s.to_owned())
}

/// An operator token for the given text.
pub fn tok_op(s: &str) -> (t: Tok)
    ensures
        t@ == TokModel::Op(s@),
{
    Tok::Op(s.to_owned())
}

} // verus!
