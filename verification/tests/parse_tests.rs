//! Attribute argument parsing: assertion runs and description separation.

use contracts::contract::Contract;
use contracts::errors::ExpandError;
use contracts::modes::{ContractMode, ContractType};
use contracts::parse::{parse_attr_args, split_top_commas};
use contracts::tokens::Tok;

fn id(s: &str) -> Tok {
    Tok::Ident(s.to_owned())
}

fn op(s: &str) -> Tok {
    Tok::Op(s.to_owned())
}

fn lit(s: &str) -> Tok {
    Tok::LitOther(s.to_owned())
}

fn litstr(s: &str) -> Tok {
    Tok::LitStr(s.to_owned())
}

fn render(ts: &Vec<Tok>) -> String {
    contracts::render::render_toks_str(ts)
}

#[test]
fn test_split_commas_two_runs() {
    // `x > 10 , x < 20`
    let args = vec![
        id("x"),
        op(">"),
        lit("10"),
        op(","),
        id("x"),
        op("<"),
        lit("20"),
    ];
    let runs = split_top_commas(&args);
    assert_eq!(runs.len(), 2);
    assert_eq!(render(&runs[0]), "x > 10");
    assert_eq!(render(&runs[1]), "x < 20");
}

#[test]
fn test_split_commas_respects_groups() {
    // `f ( a , b ) , c` splits into two runs only.
    let args = vec![
        id("f"),
        Tok::Group(contracts::tokens::Delim::Paren, vec![id("a"), op(","), id("b")]),
        op(","),
        id("c"),
    ];
    let runs = split_top_commas(&args);
    assert_eq!(runs.len(), 2);
    assert_eq!(render(&runs[0]), "f (a , b)");
    assert_eq!(render(&runs[1]), "c");
}

#[test]
fn test_trailing_string_literal_is_description() {
    // `x > 10 , x < 20 , "x must be in valid range"`
    let args = vec![
        id("x"),
        op(">"),
        lit("10"),
        op(","),
        id("x"),
        op("<"),
        lit("20"),
        op(","),
        litstr("x must be in valid range"),
    ];
    let (asserts, desc) = parse_attr_args(&args).unwrap();
    assert_eq!(desc, Some("x must be in valid range".to_owned()));
    assert_eq!(asserts.len(), 2);
    assert_eq!(render(&asserts[0]), "x > 10");
    assert_eq!(render(&asserts[1]), "x < 20");
}

#[test]
fn test_non_trailing_string_literal_stays_assertion() {
    // `"note" , x > 0` keeps the literal as a real assertion.
    let args = vec![litstr("note"), op(","), id("x"), op(">"), lit("0")];
    let (asserts, desc) = parse_attr_args(&args).unwrap();
    assert_eq!(desc, None);
    assert_eq!(asserts.len(), 2);
    assert!(matches!(asserts[0][0], Tok::LitStr(_)));
}

#[test]
fn test_lone_string_literal_is_description() {
    let args = vec![litstr("only a note")];
    let (asserts, desc) = parse_attr_args(&args).unwrap();
    assert_eq!(desc, Some("only a note".to_owned()));
    assert_eq!(asserts.len(), 0);
}

#[test]
fn test_trailing_comma_tolerated() {
    // `x > 0 ,` parses as one assertion.
    let args = vec![id("x"), op(">"), lit("0"), op(",")];
    let (asserts, desc) = parse_attr_args(&args).unwrap();
    assert_eq!(desc, None);
    assert_eq!(asserts.len(), 1);
}

#[test]
fn test_empty_arguments_accepted() {
    let args: Vec<Tok> = vec![];
    let (asserts, desc) = parse_attr_args(&args).unwrap();
    assert_eq!(desc, None);
    assert_eq!(asserts.len(), 0);
}

#[test]
fn test_double_comma_is_malformed() {
    let args = vec![id("a"), op(","), op(","), id("b")];
    let err = match parse_attr_args(&args) {
        Err(e) => e,
        Ok(_) => panic!("expected an error"),
    };
    assert_eq!(err, ExpandError::MalformedAttributeArgs);
}

#[test]
fn test_leading_comma_is_malformed() {
    let args = vec![op(","), id("b")];
    let err = match parse_attr_args(&args) {
        Err(e) => e,
        Ok(_) => panic!("expected an error"),
    };
    assert_eq!(err, ExpandError::MalformedAttributeArgs);
}

#[test]
fn test_contract_assertions_implication_rewritten() {
    // `a ==> b` becomes `!(a) || (b)` in the stored contract.
    let args = vec![id("a"), op("==>"), id("b")];
    let c = Contract::from_toks(ContractType::Post, ContractMode::Always, &args).unwrap();
    assert_eq!(c.assertions.len(), 1);
    assert_eq!(render(&c.assertions[0]), "! (a) || (b)");
    assert_eq!(c.desc, None);
}
