//! Whole-function expansion: check placement, messages, and modes.

use contracts::codegen::{emit_check_toks, expand_function};
use contracts::errors::ExpandError;
use contracts::function::{Attr, FnArg, FnDecl, Pat};
use contracts::modes::{BuildFlags, ContractMode, ContractType};
use contracts::render::render_toks_str;
use contracts::tokens::{Delim, Tok};

fn id(s: &str) -> Tok {
    Tok::Ident(s.to_owned())
}

fn op(s: &str) -> Tok {
    Tok::Op(s.to_owned())
}

fn lit(s: &str) -> Tok {
    Tok::LitOther(s.to_owned())
}

fn litstr(s: &str) -> Tok {
    Tok::LitStr(s.to_owned())
}

fn paren(ts: Vec<Tok>) -> Tok {
    Tok::Group(Delim::Paren, ts)
}

fn attr(name: &str, args: Vec<Tok>) -> Attr {
    Attr { name: name.to_owned(), input: vec![paren(args)] }
}

fn plain_fn(name: &str, attrs: Vec<Attr>, ret: Option<Vec<Tok>>, body: Vec<Tok>) -> FnDecl {
    FnDecl {
        attrs,
        vis: vec![],
        name: name.to_owned(),
        generics: vec![],
        args: vec![FnArg::Typed(Pat::Ident("x".to_owned()), vec![op(":"), id("usize")])],
        ret_ty: ret,
        where_clause: vec![],
        body: Some(body),
    }
}

fn no_flags() -> BuildFlags {
    BuildFlags { disable_contracts: false, override_debug: false, override_log: false }
}

/// All string-literal values anywhere in a token run.
fn collect_strings(ts: &[Tok], out: &mut Vec<String>) {
    for t in ts {
        match t {
            Tok::LitStr(s) => out.push(s.clone()),
            Tok::Group(_, inner) => collect_strings(inner, out),
            _ => {}
        }
    }
}

#[test]
fn test_pre_and_post_expansion_messages() {
    // #[pre(x > 10, x < 20, "x must be in valid range")]
    // #[post(ret > x, "result will be bigger than input")]
    // fn a(x: usize) -> usize { x + 1 }
    let pre_args = vec![
        id("x"),
        op(">"),
        lit("10"),
        op(","),
        id("x"),
        op("<"),
        lit("20"),
        op(","),
        litstr("x must be in valid range"),
    ];
    let post_attr = attr(
        "post",
        vec![
            id("ret"),
            op(">"),
            id("x"),
            op(","),
            litstr("result will be bigger than input"),
        ],
    );
    let func = plain_fn(
        "a",
        vec![post_attr],
        Some(vec![id("usize")]),
        vec![id("x"), op("+"), lit("1")],
    );
    let out = expand_function(func, ContractType::Pre, ContractMode::Always, &pre_args, no_flags())
        .unwrap();
    // The contract attributes are gone from the declaration.
    assert_eq!(out.attrs.len(), 0);
    assert_eq!(out.name, "a");
    let body = out.body.unwrap();
    let mut msgs: Vec<String> = Vec::new();
    collect_strings(&body, &mut msgs);
    assert_eq!(
        msgs,
        vec![
            "Pre-condition of a violated: x must be in valid range: x > 10".to_owned(),
            "Pre-condition of a violated: x must be in valid range: x < 20".to_owned(),
            "Post-condition of a violated: result will be bigger than input: ret > x".to_owned(),
        ]
    );
    // The body ends by yielding the captured result.
    assert!(matches!(body.last().unwrap(), Tok::Ident(s) if s == "ret"));
    let rendered = render_toks_str(&body);
    // The original body runs inside the capturing closure.
    assert!(rendered.contains("let mut run = || -> usize {x + 1}"));
    assert!(rendered.contains("let ret = run ()"));
    // Pre-checks come before the closure, post-checks after it.
    let pre_pos = rendered.find("Pre-condition of a violated").unwrap();
    let run_pos = rendered.find("let mut run").unwrap();
    let post_pos = rendered.find("Post-condition of a violated").unwrap();
    assert!(pre_pos < run_pos && run_pos < post_pos);
}

#[test]
fn test_early_return_paths_reach_post_checks() {
    // #[post(ret >= 0)] #[post(ret * ret == x * x)]
    // fn abs(x: isize) -> isize { if x < 0 { return 0; } x }
    // Every return exits only the closure, so the post-checks run on the
    // captured result whatever path produced it.
    let post1 = vec![id("ret"), op(">="), lit("0")];
    let post2 = attr(
        "post",
        vec![id("ret"), op("*"), id("ret"), op("=="), id("x"), op("*"), id("x")],
    );
    let body = vec![
        id("if"),
        id("x"),
        op("<"),
        lit("0"),
        Tok::Group(Delim::Brace, vec![id("return"), lit("0"), op(";")]),
        id("x"),
    ];
    let func = plain_fn("abs", vec![post2], Some(vec![id("isize")]), body);
    let out = expand_function(func, ContractType::Post, ContractMode::Always, &post1, no_flags())
        .unwrap();
    let body = out.body.unwrap();
    let mut msgs: Vec<String> = Vec::new();
    collect_strings(&body, &mut msgs);
    assert_eq!(
        msgs,
        vec![
            "Post-condition of abs violated: ret >= 0".to_owned(),
            "Post-condition of abs violated: ret * ret == x * x".to_owned(),
        ]
    );
    let rendered = render_toks_str(&body);
    // The early return stays inside the closure, before the post-checks.
    let ret_stmt = rendered.find("return 0").unwrap();
    let post_pos = rendered.find("Post-condition of abs violated").unwrap();
    assert!(ret_stmt < post_pos);
    assert!(matches!(body.last().unwrap(), Tok::Ident(s) if s == "ret"));
}

#[test]
fn test_invariant_checks_entry_and_exit() {
    // #[invariant(* val <= 10)] fn add_to_10(val: &mut usize) { ... }
    let inv_args = vec![op("*"), id("val"), op("<="), lit("10")];
    let func = FnDecl {
        attrs: vec![],
        vis: vec![],
        name: "add_to_10".to_owned(),
        generics: vec![],
        args: vec![FnArg::Typed(
            Pat::Ident("val".to_owned()),
            vec![op(":"), op("&"), id("mut"), id("usize")],
        )],
        ret_ty: None,
        where_clause: vec![],
        body: Some(vec![op("*"), id("val"), op("+="), lit("1"), op(";")]),
    };
    let out = expand_function(
        func,
        ContractType::Invariant,
        ContractMode::Always,
        &inv_args,
        no_flags(),
    )
    .unwrap();
    let body = out.body.unwrap();
    let mut msgs: Vec<String> = Vec::new();
    collect_strings(&body, &mut msgs);
    assert_eq!(
        msgs,
        vec![
            "Invariant (as pre-condition) of add_to_10 violated: * val <= 10".to_owned(),
            "Invariant (as post-condition) of add_to_10 violated: * val <= 10".to_owned(),
        ]
    );
    let rendered = render_toks_str(&body);
    let entry = rendered.find("Invariant (as pre-condition)").unwrap();
    let run_pos = rendered.find("let mut run").unwrap();
    let exit = rendered.find("Invariant (as post-condition)").unwrap();
    assert!(entry < run_pos && run_pos < exit);
    // A unit function wraps its body in a closure returning `()`.
    assert!(rendered.contains("|| -> ()"));
}

#[test]
fn test_old_capture_binding_before_body() {
    // #[post(* x == old(* x) + 1, "x is incremented")] fn incr(x: &mut usize)
    let post_args = vec![
        op("*"),
        id("x"),
        op("=="),
        id("old"),
        paren(vec![op("*"), id("x")]),
        op("+"),
        lit("1"),
        op(","),
        litstr("x is incremented"),
    ];
    let func = FnDecl {
        attrs: vec![],
        vis: vec![],
        name: "incr".to_owned(),
        generics: vec![],
        args: vec![FnArg::Typed(
            Pat::Ident("x".to_owned()),
            vec![op(":"), op("&"), id("mut"), id("usize")],
        )],
        ret_ty: None,
        where_clause: vec![],
        body: Some(vec![op("*"), id("x"), op("+="), lit("1"), op(";")]),
    };
    let out = expand_function(func, ContractType::Post, ContractMode::Always, &post_args, no_flags())
        .unwrap();
    let body = out.body.unwrap();
    let rendered = render_toks_str(&body);
    // Exactly one pre-body binding, evaluated before the closure runs.
    assert!(rendered.contains("let __contract_old_0 = * x ;"));
    let bind_pos = rendered.find("let __contract_old_0").unwrap();
    let run_pos = rendered.find("let mut run").unwrap();
    assert!(bind_pos < run_pos);
    // The rendered post-check no longer contains the marker call syntax.
    let mut msgs: Vec<String> = Vec::new();
    collect_strings(&body, &mut msgs);
    assert_eq!(
        msgs,
        vec![
            "Post-condition of incr violated: x is incremented: * x == __contract_old_0 + 1"
                .to_owned(),
        ]
    );
}

#[test]
fn test_binder_counter_restarts_per_expansion() {
    // Two independent expansions of the same input produce identical
    // output: the binder ids start at zero each time.
    let post_args = vec![id("ret"), op("=="), id("old"), paren(vec![id("x")])];
    let make = || plain_fn("f", vec![], Some(vec![id("usize")]), vec![id("x")]);
    let out1 = expand_function(make(), ContractType::Post, ContractMode::Always, &post_args, no_flags())
        .unwrap();
    let out2 = expand_function(make(), ContractType::Post, ContractMode::Always, &post_args, no_flags())
        .unwrap();
    let r1 = render_toks_str(&out1.body.unwrap());
    let r2 = render_toks_str(&out2.body.unwrap());
    assert_eq!(r1, r2);
    assert!(r1.contains("__contract_old_0"));
    assert!(!r1.contains("__contract_old_1"));
}

#[test]
fn test_mode_emissions() {
    let expr = vec![id("x"), op(">"), lit("0")];
    let none: Option<String> = None;
    let always = emit_check_toks(ContractMode::Always, ContractType::Pre, false, "f", &none, &expr);
    assert_eq!(render_toks_str(&always), "assert ! (x > 0 , \"Pre-condition of f violated: x > 0\") ;");
    let debug = emit_check_toks(ContractMode::Debug, ContractType::Pre, false, "f", &none, &expr);
    assert!(render_toks_str(&debug).starts_with("debug_assert ! ("));
    let test_mode = emit_check_toks(ContractMode::Test, ContractType::Pre, false, "f", &none, &expr);
    let test_rendered = render_toks_str(&test_mode);
    assert!(test_rendered.starts_with("# [cfg (test)]"));
    assert!(test_rendered.contains("assert ! (x > 0"));
    let log = emit_check_toks(ContractMode::LogOnly, ContractType::Pre, false, "f", &none, &expr);
    assert_eq!(
        render_toks_str(&log),
        "if ! (x > 0) {log :: error ! (\"Pre-condition of f violated: x > 0\") ;}"
    );
    let disabled =
        emit_check_toks(ContractMode::Disabled, ContractType::Pre, false, "f", &none, &expr);
    assert_eq!(disabled.len(), 0);
}

#[test]
fn test_disable_all_emits_no_checks() {
    let pre_args = vec![id("x"), op(">"), lit("0")];
    let func = plain_fn("f", vec![], None, vec![id("x"), op(";")]);
    let flags = BuildFlags { disable_contracts: true, override_debug: false, override_log: false };
    let out =
        expand_function(func, ContractType::Pre, ContractMode::Always, &pre_args, flags).unwrap();
    let rendered = render_toks_str(&out.body.unwrap());
    assert!(!rendered.contains("assert"));
    assert!(rendered.contains("let mut run"));
}

#[test]
fn test_missing_body_is_fatal() {
    let pre_args = vec![id("x"), op(">"), lit("0")];
    let mut func = plain_fn("f", vec![], None, vec![]);
    func.body = None;
    let err = match expand_function(func, ContractType::Pre, ContractMode::Always, &pre_args, no_flags())
    {
        Err(e) => e,
        Ok(_) => panic!("expected an error"),
    };
    assert_eq!(err, ExpandError::MissingBody);
}

#[test]
fn test_malformed_attribute_is_fatal() {
    let bad_args = vec![id("a"), op(","), op(","), id("b")];
    let func = plain_fn("f", vec![], None, vec![id("x")]);
    let err = match expand_function(func, ContractType::Pre, ContractMode::Always, &bad_args, no_flags())
    {
        Err(e) => e,
        Ok(_) => panic!("expected an error"),
    };
    assert_eq!(err, ExpandError::MalformedAttributeArgs);
}

#[test]
fn test_unrecognized_attributes_kept() {
    let pre_args = vec![id("x"), op(">"), lit("0")];
    let keep = Attr { name: "inline".to_owned(), input: vec![] };
    let func = plain_fn("f", vec![keep], None, vec![id("x"), op(";")]);
    let out = expand_function(func, ContractType::Pre, ContractMode::Always, &pre_args, no_flags())
        .unwrap();
    assert_eq!(out.attrs.len(), 1);
    assert_eq!(out.attrs[0].name, "inline");
}
