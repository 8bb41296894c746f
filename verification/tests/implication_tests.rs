//! The implication rewrite on token runs.

use contracts::implication::imp_rewrite_toks;
use contracts::render::render_toks_str;
use contracts::tokens::{Delim, Tok};

fn id(s: &str) -> Tok {
    Tok::Ident(s.to_owned())
}

fn op(s: &str) -> Tok {
    Tok::Op(s.to_owned())
}

fn paren(ts: Vec<Tok>) -> Tok {
    Tok::Group(Delim::Paren, ts)
}

fn rewrite(ts: Vec<Tok>) -> String {
    render_toks_str(&imp_rewrite_toks(&ts))
}

#[test]
fn test_simple_implication() {
    assert_eq!(rewrite(vec![id("a"), op("==>"), id("b")]), "! (a) || (b)");
}

#[test]
fn test_right_associative_chain() {
    // `a ==> b ==> c` becomes `!(a) || (!(b) || (c))`.
    assert_eq!(
        rewrite(vec![id("a"), op("==>"), id("b"), op("==>"), id("c")]),
        "! (a) || (! (b) || (c))"
    );
}

#[test]
fn test_marker_inside_group_is_scoped() {
    // `(a ==> b) && c`: the group boundary scopes the rewrite.
    assert_eq!(
        rewrite(vec![paren(vec![id("a"), op("==>"), id("b")]), op("&&"), id("c")]),
        "(! (a) || (b)) && c"
    );
}

#[test]
fn test_no_marker_is_unchanged() {
    assert_eq!(rewrite(vec![id("a"), op("&&"), id("b")]), "a && b");
}

#[test]
fn test_multi_token_sides() {
    // `ret . is_some ( ) ==> ret > x`
    let ts = vec![
        id("ret"),
        op("."),
        id("is_some"),
        paren(vec![]),
        op("==>"),
        id("ret"),
        op(">"),
        id("x"),
    ];
    assert_eq!(rewrite(ts), "! (ret . is_some ()) || (ret > x)");
}
