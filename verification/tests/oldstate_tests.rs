//! Old-state extraction from post-condition expressions.

use contracts::oldstate::{extract_olds, OldBinding};
use contracts::render::render_toks_str;
use contracts::tokens::{Delim, Tok};

fn id(s: &str) -> Tok {
    Tok::Ident(s.to_owned())
}

fn op(s: &str) -> Tok {
    Tok::Op(s.to_owned())
}

fn lit(s: &str) -> Tok {
    Tok::LitOther(s.to_owned())
}

fn paren(ts: Vec<Tok>) -> Tok {
    Tok::Group(Delim::Paren, ts)
}

fn extract(ts: Vec<Tok>) -> (String, Vec<(String, String)>) {
    let mut binds: Vec<OldBinding> = Vec::new();
    let out = extract_olds(&ts, &mut binds);
    let bs = binds
        .iter()
        .map(|b| (b.name.clone(), render_toks_str(&b.expr)))
        .collect::<Vec<_>>();
    (render_toks_str(&out), bs)
}

#[test]
fn test_single_capture() {
    // `* x == old ( * x ) + 1` yields one binding evaluated pre-call, and
    // the rewritten condition no longer contains the call.
    let ts = vec![
        op("*"),
        id("x"),
        op("=="),
        id("old"),
        paren(vec![op("*"), id("x")]),
        op("+"),
        lit("1"),
    ];
    let (out, binds) = extract(ts);
    assert_eq!(out, "* x == __contract_old_0 + 1");
    assert_eq!(binds.len(), 1);
    assert_eq!(binds[0].0, "__contract_old_0");
    assert_eq!(binds[0].1, "* x");
}

#[test]
fn test_nested_captures_resolve_inside_out() {
    // `old ( old ( x ) )`: the inner capture gets the smaller id.
    let ts = vec![id("old"), paren(vec![id("old"), paren(vec![id("x")])])];
    let (out, binds) = extract(ts);
    assert_eq!(out, "__contract_old_1");
    assert_eq!(binds.len(), 2);
    assert_eq!(binds[0].0, "__contract_old_0");
    assert_eq!(binds[0].1, "x");
    assert_eq!(binds[1].0, "__contract_old_1");
    assert_eq!(binds[1].1, "__contract_old_0");
}

#[test]
fn test_two_captures_in_order() {
    // `old ( a ) < old ( b )`
    let ts = vec![
        id("old"),
        paren(vec![id("a")]),
        op("<"),
        id("old"),
        paren(vec![id("b")]),
    ];
    let (out, binds) = extract(ts);
    assert_eq!(out, "__contract_old_0 < __contract_old_1");
    assert_eq!(binds.len(), 2);
    assert_eq!(binds[0].1, "a");
    assert_eq!(binds[1].1, "b");
}

#[test]
fn test_zero_arguments_left_untouched() {
    let ts = vec![id("old"), paren(vec![])];
    let (out, binds) = extract(ts);
    assert_eq!(out, "old ()");
    assert_eq!(binds.len(), 0);
}

#[test]
fn test_two_arguments_left_untouched() {
    // `old ( a , b )` is an ordinary call, but a capture inside its
    // arguments is still found.
    let ts = vec![id("old"), paren(vec![id("a"), op(","), id("old"), paren(vec![id("b")])])];
    let (out, binds) = extract(ts);
    assert_eq!(out, "old (a , __contract_old_0)");
    assert_eq!(binds.len(), 1);
    assert_eq!(binds[0].1, "b");
}

#[test]
fn test_method_call_named_old_is_shielded() {
    // `v . old ( x )` is a method call, not a capture.
    let ts = vec![id("v"), op("."), id("old"), paren(vec![id("x")])];
    let (out, binds) = extract(ts);
    assert_eq!(out, "v . old (x)");
    assert_eq!(binds.len(), 0);
}

#[test]
fn test_path_call_named_old_is_shielded() {
    // `m :: old ( x )` is a path call, not a capture.
    let ts = vec![id("m"), op("::"), id("old"), paren(vec![id("x")])];
    let (out, binds) = extract(ts);
    assert_eq!(out, "m :: old (x)");
    assert_eq!(binds.len(), 0);
}

#[test]
fn test_capture_inside_nested_group() {
    // `( old ( x ) ) + y`
    let ts = vec![paren(vec![id("old"), paren(vec![id("x")])]), op("+"), id("y")];
    let (out, binds) = extract(ts);
    assert_eq!(out, "(__contract_old_0) + y");
    assert_eq!(binds.len(), 1);
}

#[test]
fn test_trailing_comma_still_single_argument() {
    // `old ( x , )` has exactly one argument.
    let ts = vec![id("old"), paren(vec![id("x"), op(",")])];
    let (out, binds) = extract(ts);
    assert_eq!(out, "__contract_old_0");
    assert_eq!(binds.len(), 1);
    assert_eq!(binds[0].1, "x");
}

#[test]
fn test_ids_continue_across_runs() {
    // A second extraction over the same binding vector continues the ids.
    let mut binds: Vec<OldBinding> = Vec::new();
    let first = vec![id("old"), paren(vec![id("a")])];
    let second = vec![id("old"), paren(vec![id("b")])];
    let out1 = extract_olds(&first, &mut binds);
    let out2 = extract_olds(&second, &mut binds);
    assert_eq!(render_toks_str(&out1), "__contract_old_0");
    assert_eq!(render_toks_str(&out2), "__contract_old_1");
    assert_eq!(binds.len(), 2);
}
