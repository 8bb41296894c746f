//! Text utilities, rendering, binder names, and documentation attributes.

use contracts::contract::Contract;
use contracts::doc::generate_attributes;
use contracts::modes::{ContractMode, ContractType};
use contracts::oldstate::old_binder_name_str;
use contracts::render::render_toks_str;
use contracts::text::{str_eq, u64_dec_str};
use contracts::tokens::{Delim, Tok};

fn id(s: &str) -> Tok {
    Tok::Ident(s.to_owned())
}

fn op(s: &str) -> Tok {
    Tok::Op(s.to_owned())
}

#[test]
fn test_decimal_rendering() {
    assert_eq!(u64_dec_str(0), "0");
    assert_eq!(u64_dec_str(7), "7");
    assert_eq!(u64_dec_str(10), "10");
    assert_eq!(u64_dec_str(907), "907");
    assert_eq!(u64_dec_str(u64::MAX), "18446744073709551615");
}

#[test]
fn test_binder_names() {
    assert_eq!(old_binder_name_str(0), "__contract_old_0");
    assert_eq!(old_binder_name_str(12), "__contract_old_12");
}

#[test]
fn test_str_eq() {
    assert!(str_eq("pre", "pre"));
    assert!(!str_eq("pre", "post"));
    assert!(!str_eq("pre", "pr"));
    assert!(str_eq("", ""));
}

#[test]
fn test_render_tokens() {
    let ts = vec![
        id("ret"),
        op(">"),
        id("x"),
        Tok::Group(Delim::Bracket, vec![Tok::LitOther("0".to_owned())]),
        Tok::LitStr("hi".to_owned()),
    ];
    assert_eq!(render_toks_str(&ts), "ret > x [0] \"hi\"");
    let empty: Vec<Tok> = vec![];
    assert_eq!(render_toks_str(&empty), "");
}

#[test]
fn test_documentation_attributes() {
    // A described contract documents its assertions as bullets under the
    // description; an undescribed debug contract documents each assertion
    // on a line of its own, with the mode qualifier.
    let described = Contract::from_toks(
        ContractType::Pre,
        ContractMode::Always,
        &vec![
            id("x"),
            op(">"),
            Tok::LitOther("0".to_owned()),
            op(","),
            Tok::LitStr("x is positive".to_owned()),
        ],
    )
    .unwrap();
    let undescribed = Contract::from_toks(
        ContractType::Post,
        ContractMode::Debug,
        &vec![id("ret"), op(">"), id("x")],
    )
    .unwrap();
    let attrs = generate_attributes(&vec![described, undescribed]);
    let texts: Vec<String> = attrs
        .iter()
        .map(|a| match &a.input[1] {
            Tok::LitStr(s) => s.clone(),
            _ => panic!(),
        })
        .collect();
    assert_eq!(
        texts,
        vec![
            "# Contracts".to_owned(),
            "Pre-condition: x is positive".to_owned(),
            " - `x > 0`".to_owned(),
            "".to_owned(),
            "Post-condition - debug: `ret > x`".to_owned(),
            "".to_owned(),
        ]
    );
    assert!(attrs.iter().all(|a| a.name == "doc"));
}
