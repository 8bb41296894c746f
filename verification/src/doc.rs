//! Rendering a contract list as documentation attributes.
//!
//! The gathered contracts of a declaration can be rendered as `doc`
//! attributes for the public wrapper: a heading, then one block per
//! contract — a described contract lists its assertions as bullets under
//! its description, an undescribed one documents each assertion on its
//! own line.  This is peripheral to the rewrite itself; the caller decides
//! whether to attach what is produced here.

use vstd::prelude::*;
use vstd::string::StringExecFns;
use crate::contract::{contracts_model, lemma_contracts_model_index, lemma_contracts_model_len,
    Contract, ContractModel};
use crate::function::{attrs_model, lemma_attrs_model_push, Attr, AttrModel};
use crate::modes::{kind_message_name, ContractMode, ContractType};
use crate::render::{render_toks, render_toks_str};
use crate::tokens::{push_tok, tok_op, Tok, TokModel};

verus! {

/// One `#[doc = "<text>"]` attribute.
pub open spec fn doc_attr(text: Seq<char>) -> AttrModel {
    AttrModel { name: "doc"@, input: seq![TokModel::Op("="@), TokModel::LitStr(text)] }
}

/// The mode qualifier shown in documentation, for the modes that have one.
pub open spec fn mode_doc_name(mode: ContractMode) -> Option<Seq<char>> {
    match mode {
        ContractMode::Debug => Some("debug"@),
        ContractMode::Test => Some("test"@),
        _ => None,
    }
}

/// The heading line of a described contract:
/// `<Kind>[ - <mode>]: <description>`.
pub open spec fn doc_header_text(c: ContractModel) -> Seq<char> {
    (match mode_doc_name(c.mode) {
        Some(m) => kind_message_name(c.ty) + " - "@ + m,
        None => kind_message_name(c.ty),
    }) + ": "@ + c.desc->0
}

/// One bullet line under a described contract: `` - `<expr>` ``.
pub open spec fn doc_bullet_text(expr: Seq<TokModel>) -> Seq<char> {
    " - `"@ + render_toks(expr) + "`"@
}

/// One stand-alone assertion line of an undescribed contract:
/// ``<Kind>[ - <mode>]: `<expr>` ``.
pub open spec fn doc_line_text(c: ContractModel, expr: Seq<TokModel>) -> Seq<char> {
    (match mode_doc_name(c.mode) {
        Some(m) => kind_message_name(c.ty) + " - "@ + m,
        None => kind_message_name(c.ty),
    }) + ": `"@ + render_toks(expr) + "`"@
}

/// The bullet attributes of a described contract's assertions, in order.
pub open spec fn doc_bullets(runs: Seq<Seq<TokModel>>) -> Seq<AttrModel>
    decreases runs,
{
    if runs.len() == 0 {
        Seq::empty()
    } else {
        doc_bullets(runs.drop_last()).push(doc_attr(doc_bullet_text(runs.last())))
    }
}

/// The stand-alone attributes of an undescribed contract's assertions,
/// each followed by an empty line.
pub open spec fn doc_lines(c: ContractModel, runs: Seq<Seq<TokModel>>) -> Seq<AttrModel>
    decreases runs,
{
    if runs.len() == 0 {
        Seq::empty()
    } else {
        doc_lines(c, runs.drop_last()).push(doc_attr(doc_line_text(c, runs.last()))).push(
            doc_attr(""@),
        )
    }
}

/// The documentation attributes of one contract.
pub open spec fn contract_doc_attrs(c: ContractModel) -> Seq<AttrModel> {
    if c.desc is Some {
        seq![doc_attr(doc_header_text(c))] + doc_bullets(c.assertions) + seq![doc_attr(""@)]
    } else {
        doc_lines(c, c.assertions)
    }
}

/// The documentation attributes of a whole contract list: the heading,
/// then each contract's block in order.
pub open spec fn doc_attrs(cs: Seq<ContractModel>) -> Seq<AttrModel>
    decreases cs,
{
    if cs.len() == 0 {
        seq![doc_attr("# Contracts"@)]
    } else {
        doc_attrs(cs.drop_last()) + contract_doc_attrs(cs.last())
    }
}

/// Builds one `#[doc = "<text>"]` attribute.
fn doc_attr_of(text: String) -> (r: Attr)
    ensures
        r@ == doc_attr(text@),
{
    let ghost tm = text@;
    let mut input: Vec<Tok> = Vec::new();
    push_tok(&mut input, tok_op("="));
    push_tok(&mut input, Tok::LitStr(text));
    proof {
        assert(crate::tokens::toks_model(input@) =~= doc_attr(tm).input);
    }
    Attr { name: "doc".to_owned(), input }
}

/// The mode qualifier shown in documentation.
fn mode_doc_name_str(mode: ContractMode) -> (r: Option<&'static str>)
    ensures
        (match r {
            Some(s) => mode_doc_name(mode) == Some(s@),
            None => mode_doc_name(mode) is None,
        }),
{
    match mode {
        ContractMode::Debug => Some("debug"),
        ContractMode::Test => Some("test"),
        _ => None,
    }
}

/// The `<Kind>[ - <mode>]` prefix of a documentation line.
fn doc_prefix_str(c: &Contract) -> (r: String)
    ensures
        r@ == (match mode_doc_name(c@.mode) {
            Some(m) => kind_message_name(c@.ty) + " - "@ + m,
            None => kind_message_name(c@.ty),
        }),
{
    let mut s: String = c.ty.message_name().to_owned();
    match mode_doc_name_str(c.mode) {
        Some(m) => {
            s.append(" - ");
            s.append(m);
        },
        None => {},
    }
    s
}

/// Renders the contract list as documentation attributes.
pub fn generate_attributes(contracts: &Vec<Contract>) -> (r: Vec<Attr>)
    ensures
        attrs_model(r@) == doc_attrs(contracts_model(contracts@)),
{
    let ghost cm = contracts_model(contracts@);
    proof {
        lemma_contracts_model_len(contracts@);
    }
    let mut r: Vec<Attr> = Vec::new();
    let heading = doc_attr_of("# Contracts".to_owned());
    proof {
        lemma_attrs_model_push(r@, heading);
    }
    r.push(heading);
    let mut i: usize = 0;
    proof {
        assert(cm.take(0) =~= Seq::<ContractModel>::empty());
        assert(attrs_model(r@) =~= doc_attrs(cm.take(0)));
    }
    while i < contracts.len()
        invariant
            0 <= i <= contracts@.len(),
            cm == contracts_model(contracts@),
            cm.len() == contracts@.len(),
            attrs_model(r@) == doc_attrs(cm.take(i as int)),
        decreases contracts@.len() - i,
    {
        proof {
            lemma_contracts_model_index(contracts@, i as int);
            assert(cm.take(i as int + 1).drop_last() =~= cm.take(i as int));
            assert(cm.take(i as int + 1).last() == cm[i as int]);
        }
        let c = &contracts[i];
        let ghost c_m = cm[i as int];
        let ghost rs = crate::tokens::runs_model(c.assertions@);
        proof {
            crate::tokens::lemma_runs_model_len(c.assertions@);
        }
        match &c.desc {
            Some(d) => {
                let mut header = doc_prefix_str(c);
                header.append(": ");
                header.append(d.as_str());
                let header_attr = doc_attr_of(header);
                proof {
                    lemma_attrs_model_push(r@, header_attr);
                }
                r.push(header_attr);
                let mut k: usize = 0;
                proof {
                    assert(doc_bullets(rs.take(0)) =~= Seq::<AttrModel>::empty());
                    assert(attrs_model(r@) =~= doc_attrs(cm.take(i as int)) + seq![
                        doc_attr(doc_header_text(c_m)),
                    ] + doc_bullets(rs.take(0)));
                }
                while k < c.assertions.len()
                    invariant
                        0 <= k <= c.assertions@.len(),
                        rs == crate::tokens::runs_model(c.assertions@),
                        rs.len() == c.assertions@.len(),
                        cm == contracts_model(contracts@),
                        0 <= i < cm.len(),
                        c == &contracts[i as int],
                        c_m == cm[i as int],
                        attrs_model(r@) == doc_attrs(cm.take(i as int)) + seq![
                            doc_attr(doc_header_text(c_m)),
                        ] + doc_bullets(rs.take(k as int)),
                    decreases c.assertions@.len() - k,
                {
                    proof {
                        crate::tokens::lemma_runs_model_index(c.assertions@, k as int);
                        assert(rs.take(k as int + 1).drop_last() =~= rs.take(k as int));
                        assert(rs.take(k as int + 1).last() == rs[k as int]);
                    }
                    let mut text: String = " - `".to_owned();
                    let rendered = render_toks_str(&c.assertions[k]);
                    text.append(rendered.as_str());
                    text.append("`");
                    let bullet = doc_attr_of(text);
                    proof {
                        lemma_attrs_model_push(r@, bullet);
                        assert(bullet@ == doc_attr(doc_bullet_text(rs[k as int])));
                    }
                    r.push(bullet);
                    k = k + 1;
                }
                let blank = doc_attr_of(String::new());
                proof {
                    assert(rs.take(c.assertions@.len() as int) =~= rs);
                    lemma_attrs_model_push(r@, blank);
                    assert(blank@ == doc_attr(""@)) by {
                        reveal_strlit("");
                        assert(Seq::<char>::empty() =~= ""@);
                    }
                }
                r.push(blank);
                proof {
                    assert(attrs_model(r@) =~= doc_attrs(cm.take(i as int + 1)));
                }
            },
            None => {
                let mut k: usize = 0;
                proof {
                    assert(doc_lines(c_m, rs.take(0)) =~= Seq::<AttrModel>::empty());
                    assert(attrs_model(r@) =~= doc_attrs(cm.take(i as int)) + doc_lines(
                        c_m,
                        rs.take(0),
                    ));
                }
                while k < c.assertions.len()
                    invariant
                        0 <= k <= c.assertions@.len(),
                        rs == crate::tokens::runs_model(c.assertions@),
                        rs.len() == c.assertions@.len(),
                        cm == contracts_model(contracts@),
                        0 <= i < cm.len(),
                        c == &contracts[i as int],
                        c_m == cm[i as int],
                        c_m.desc is None,
                        c.desc is None,
                        c@ == c_m,
                        attrs_model(r@) == doc_attrs(cm.take(i as int)) + doc_lines(
                            c_m,
                            rs.take(k as int),
                        ),
                    decreases c.assertions@.len() - k,
                {
                    proof {
                        crate::tokens::lemma_runs_model_index(c.assertions@, k as int);
                        assert(rs.take(k as int + 1).drop_last() =~= rs.take(k as int));
                        assert(rs.take(k as int + 1).last() == rs[k as int]);
                    }
                    let mut text = doc_prefix_str(c);
                    text.append(": `");
                    let rendered = render_toks_str(&c.assertions[k]);
                    text.append(rendered.as_str());
                    text.append("`");
                    let line = doc_attr_of(text);
                    proof {
                        lemma_attrs_model_push(r@, line);
                        assert(line@ == doc_attr(doc_line_text(c_m, rs[k as int])));
                    }
                    r.push(line);
                    let blank = doc_attr_of(String::new());
                    proof {
                        lemma_attrs_model_push(r@, blank);
                        assert(blank@ == doc_attr(""@)) by {
                            reveal_strlit("");
                            assert(Seq::<char>::empty() =~= ""@);
                        }
                        assert(attrs_model(r@).push(blank@) =~= doc_attrs(cm.take(i as int))
                            + doc_lines(c_m, rs.take(k as int + 1)));
                    }
                    r.push(blank);
                    k = k + 1;
                }
                proof {
                    assert(rs.take(c.assertions@.len() as int) =~= rs);
                    assert(attrs_model(r@) =~= doc_attrs(cm.take(i as int + 1)));
                }
            },
        }
        i = i + 1;
    }
    proof {
        assert(cm.take(contracts@.len() as int) =~= cm);
    }
    r
}

} // verus!
