//! Rendering token runs back to source text.
//!
//! The failure message of a generated check embeds the checked expression's
//! source text.  Tokens are joined by single spaces, a string literal is
//! quoted, and a group is wrapped in its delimiters; what is rendered is
//! the expression as the pipeline rewrote it, with the implication operator
//! eliminated and old-state calls replaced by their binders.

use vstd::prelude::*;
use vstd::seq::{axiom_seq_index_decreases, axiom_seq_subrange_decreases};
use vstd::string::StringExecFns;
use crate::tokens::{lemma_toks_model_index, lemma_toks_model_len, toks_model, Delim, Tok,
    TokModel};

verus! {

/// The opening text of a delimiter.
pub open spec fn open_delim(d: Delim) -> Seq<char> {
    match d {
        Delim::Paren => "("@,
        Delim::Brace => "{"@,
        Delim::Bracket => "["@,
    }
}

/// The closing text of a delimiter.
pub open spec fn close_delim(d: Delim) -> Seq<char> {
    match d {
        Delim::Paren => ")"@,
        Delim::Brace => "}"@,
        Delim::Bracket => "]"@,
    }
}

/// The source text of one token.
pub open spec fn render_tok(t: TokModel) -> Seq<char>
    decreases t,
{
    match t {
        TokModel::Ident(s) => s,
        TokModel::Op(s) => s,
        TokModel::LitStr(s) => "\""@ + s + "\""@,
        TokModel::LitOther(s) => s,
        TokModel::Group(d, inner) => open_delim(d) + render_toks(inner) + close_delim(d),
    }
}

/// The source text of a token run, tokens joined by single spaces.
pub open spec fn render_toks(ts: Seq<TokModel>) -> Seq<char>
    decreases ts,
{
    if ts.len() == 0 {
        Seq::empty()
    } else if ts.len() == 1 {
        render_tok(ts[0])
    } else {
        render_toks(ts.drop_last()) + " "@ + render_tok(ts.last())
    }
}

/// Renders one token to text.
pub fn render_tok_str(t: &Tok) -> (r: String)
    ensures
        r@ == render_tok(t@),
    decreases t@,
{
    match t {
        Tok::Ident(s) => s.clone(),
        Tok::Op(s) => s.clone(),
        Tok::LitStr(s) => {
            let mut r: String = "\"".to_owned();
            r.append(s.as_str());
            r.append("\"");
            r
        },
        Tok::LitOther(s) => s.clone(),
        Tok::Group(d, inner) => {
            let mut r: String = match d {
                Delim::Paren => "(".to_owned(),
                Delim::Brace => "{".to_owned(),
                Delim::Bracket => "[".to_owned(),
            };
            proof {
                assert(decreases_to!(t@ => t@->Group_1));
                assert(t@->Group_1 == toks_model(inner@));
            }
            let inner_r = render_toks_str(inner);
            r.append(inner_r.as_str());
            match d {
                Delim::Paren => r.append(")"),
                Delim::Brace => r.append("}"),
                Delim::Bracket => r.append("]"),
            }
            r
        },
    }
}

/// Renders a token run to text.
pub fn render_toks_str(ts: &Vec<Tok>) -> (r: String)
    ensures
        r@ == render_toks(toks_model(ts@)),
    decreases toks_model(ts@),
{
    let ghost m = toks_model(ts@);
    proof {
        lemma_toks_model_len(ts@);
    }
    let mut r: String = String::new();
    let mut i: usize = 0;
    while i < ts.len()
        invariant
            0 <= i <= ts@.len(),
            m == toks_model(ts@),
            m.len() == ts@.len(),
            r@ == render_toks(m.take(i as int)),
        decreases ts@.len() - i,
    {
        proof {
            lemma_toks_model_index(ts@, i as int);
            axiom_seq_index_decreases(m, i as int);
            assert(m.take(i as int + 1).drop_last() =~= m.take(i as int));
            assert(m.take(i as int + 1).last() == m[i as int]);
            assert(m.take(i as int + 1)[0] == m[0]);
        }
        if i > 0 {
            r.append(" ");
        }
        let piece = render_tok_str(&ts[i]);
        r.append(piece.as_str());
        proof {
            if i == 0 {
                assert(r@ =~= render_toks(m.take(1)));
            } else {
                assert(r@ =~= render_toks(m.take(i as int + 1)));
            }
        }
        i = i + 1;
    }
    proof {
        assert(m.take(ts@.len() as int) =~= m);
    }
    r
}

} // verus!
