//! Synthesis of the replacement function body.
//!
//! The new body evaluates every pre-condition and invariant-as-pre-condition
//! check in contract order, then every old-state binding in ascending id
//! order, then runs the original body inside a closure — so that an early
//! `return` still reaches the checks that follow — and finally evaluates
//! every post-condition and invariant-as-post-condition check against the
//! captured result before yielding it.
//!
//! Each check is emitted for its resolved mode: an aborting assertion,
//! a debug-build assertion, a test-build assertion, a logged diagnostic
//! that does not abort, or nothing at all.  The failure message embeds the
//! contract kind, the function's name, the optional description and the
//! rewritten expression's source text.

use vstd::prelude::*;
use vstd::string::StringExecFns;
use crate::contract::{contracts_model, lemma_contracts_model_index, lemma_contracts_model_len,
    Contract, ContractModel};
use crate::modes::{final_mode, resolved_mode, BuildFlags, ContractMode, ContractType};
use crate::oldstate::{binds_model, ext_run, extract_olds, lemma_binds_model_len, old_binder_name,
    OldBinding, OldBindingModel};
use crate::render::{render_toks, render_toks_str};
use crate::tokens::{append_toks, copy_toks, lemma_toks_model_index, lemma_toks_model_len,
    lemma_toks_model_push, push_tok, tok_ident, tok_op, toks_model, Delim, Tok, TokModel};

verus! {

/// The message label of a contract kind in its check position: an
/// invariant is qualified with the position it was expanded into.
pub open spec fn kind_label(ty: ContractType, post_position: bool) -> Seq<char> {
    match ty {
        ContractType::Pre => "Pre-condition"@,
        ContractType::Post => "Post-condition"@,
        ContractType::Invariant => if post_position {
            "Invariant (as post-condition)"@
        } else {
            "Invariant (as pre-condition)"@
        },
    }
}

/// The failure message of one check:
/// `<Kind> of <function-name> violated[: <description>]: <expression>`.
pub open spec fn violation_message(
    ty: ContractType,
    post_position: bool,
    fn_name: Seq<char>,
    desc: Option<Seq<char>>,
    expr: Seq<TokModel>,
) -> Seq<char> {
    kind_label(ty, post_position) + " of "@ + fn_name + " violated"@ + (match desc {
        Some(d) => ": "@ + d,
        None => Seq::empty(),
    }) + ": "@ + render_toks(expr)
}

/// The message label of one check.
pub fn kind_label_str(ty: ContractType, post_position: bool) -> (r: &'static str)
    ensures
        r@ == kind_label(ty, post_position),
{
    match ty {
        ContractType::Pre => "Pre-condition",
        ContractType::Post => "Post-condition",
        ContractType::Invariant => if post_position {
            "Invariant (as post-condition)"
        } else {
            "Invariant (as pre-condition)"
        },
    }
}

/// Builds the failure message of one check.
pub fn violation_message_str(
    ty: ContractType,
    post_position: bool,
    fn_name: &str,
    desc: &Option<String>,
    expr: &Vec<Tok>,
) -> (r: String)
    ensures
        r@ == violation_message(
            ty,
            post_position,
            fn_name@,
            match *desc {
                Some(d) => Some(d@),
                None => None,
            },
            toks_model(expr@),
        ),
{
    let mut r: String = kind_label_str(ty, post_position).to_owned();
    r.append(" of ");
    r.append(fn_name);
    r.append(" violated");
    match desc {
        Some(d) => {
            r.append(": ");
            r.append(d.as_str());
        },
        None => {},
    }
    r.append(": ");
    let rendered = render_toks_str(expr);
    r.append(rendered.as_str());
    r
}

/// The tokens of one assertion statement: `<mac>!(<expr>, "<msg>");`.
pub open spec fn assert_stmt(mac: Seq<char>, expr: Seq<TokModel>, msg: Seq<char>) -> Seq<
    TokModel,
> {
    seq![
        TokModel::Ident(mac),
        TokModel::Op("!"@),
        TokModel::Group(Delim::Paren, expr + seq![TokModel::Op(","@), TokModel::LitStr(msg)]),
        TokModel::Op(";"@),
    ]
}

/// The tokens of the logged diagnostic: `log::error!("<msg>");`.
pub open spec fn log_stmt(msg: Seq<char>) -> Seq<TokModel> {
    seq![
        TokModel::Ident("log"@),
        TokModel::Op("::"@),
        TokModel::Ident("error"@),
        TokModel::Op("!"@),
        TokModel::Group(Delim::Paren, seq![TokModel::LitStr(msg)]),
        TokModel::Op(";"@),
    ]
}

/// The tokens emitted for one check under its resolved mode.
pub open spec fn emit_check(
    mode: ContractMode,
    ty: ContractType,
    post_position: bool,
    fn_name: Seq<char>,
    desc: Option<Seq<char>>,
    expr: Seq<TokModel>,
) -> Seq<TokModel> {
    let msg = violation_message(ty, post_position, fn_name, desc, expr);
    match mode {
        ContractMode::Always => assert_stmt("assert"@, expr, msg),
        ContractMode::Debug => assert_stmt("debug_assert"@, expr, msg),
        ContractMode::Test => seq![
            TokModel::Op("#"@),
            TokModel::Group(
                Delim::Bracket,
                seq![
                    TokModel::Ident("cfg"@),
                    TokModel::Group(Delim::Paren, seq![TokModel::Ident("test"@)]),
                ],
            ),
            TokModel::Group(Delim::Brace, assert_stmt("assert"@, expr, msg)),
        ],
        ContractMode::LogOnly => seq![
            TokModel::Ident("if"@),
            TokModel::Op("!"@),
            TokModel::Group(Delim::Paren, expr),
            TokModel::Group(Delim::Brace, log_stmt(msg)),
        ],
        ContractMode::Disabled => Seq::empty(),
    }
}

/// Builds the tokens of one assertion statement.
fn assert_stmt_toks(mac: &str, expr: &Vec<Tok>, msg: String) -> (r: Vec<Tok>)
    ensures
        toks_model(r@) == assert_stmt(mac@, toks_model(expr@), msg@),
{
    let ghost msg_m = msg@;
    let mut inner: Vec<Tok> = Vec::new();
    proof {
        assert(toks_model(inner@) + toks_model(expr@) =~= toks_model(expr@));
    }
    append_toks(&mut inner, expr);
    push_tok(&mut inner, tok_op(","));
    push_tok(&mut inner, Tok::LitStr(msg));
    proof {
        assert(toks_model(inner@) =~= toks_model(expr@) + seq![
            TokModel::Op(","@),
            TokModel::LitStr(msg_m),
        ]);
    }
    let mut r: Vec<Tok> = Vec::new();
    push_tok(&mut r, tok_ident(mac));
    push_tok(&mut r, tok_op("!"));
    push_tok(&mut r, Tok::Group(Delim::Paren, inner));
    push_tok(&mut r, tok_op(";"));
    proof {
        assert(toks_model(r@) =~= assert_stmt(mac@, toks_model(expr@), msg_m));
    }
    r
}

/// Builds the tokens emitted for one check under its resolved mode.
pub fn emit_check_toks(
    mode: ContractMode,
    ty: ContractType,
    post_position: bool,
    fn_name: &str,
    desc: &Option<String>,
    expr: &Vec<Tok>,
) -> (r: Vec<Tok>)
    ensures
        toks_model(r@) == emit_check(
            mode,
            ty,
            post_position,
            fn_name@,
            match *desc {
                Some(d) => Some(d@),
                None => None,
            },
            toks_model(expr@),
        ),
{
    let ghost desc_m: Option<Seq<char>> = match desc {
        Some(d) => Some(d@),
        None => None,
    };
    let ghost expr_m = toks_model(expr@);
    let msg = violation_message_str(ty, post_position, fn_name, desc, expr);
    let ghost msg_m = msg@;
    match mode {
        ContractMode::Always => assert_stmt_toks("assert", expr, msg),
        ContractMode::Debug => assert_stmt_toks("debug_assert", expr, msg),
        ContractMode::Test => {
            let stmt = assert_stmt_toks("assert", expr, msg);
            let mut cfg_inner: Vec<Tok> = Vec::new();
            push_tok(&mut cfg_inner, tok_ident("test"));
            proof {
                assert(toks_model(cfg_inner@) =~= seq![TokModel::Ident("test"@)]);
            }
            let mut attr_inner: Vec<Tok> = Vec::new();
            push_tok(&mut attr_inner, tok_ident("cfg"));
            push_tok(&mut attr_inner, Tok::Group(Delim::Paren, cfg_inner));
            proof {
                assert(toks_model(attr_inner@) =~= seq![
                    TokModel::Ident("cfg"@),
                    TokModel::Group(Delim::Paren, seq![TokModel::Ident("test"@)]),
                ]);
            }
            let mut r: Vec<Tok> = Vec::new();
            push_tok(&mut r, tok_op("#"));
            push_tok(&mut r, Tok::Group(Delim::Bracket, attr_inner));
            push_tok(&mut r, Tok::Group(Delim::Brace, stmt));
            proof {
                assert(toks_model(r@) =~= emit_check(
                    mode,
                    ty,
                    post_position,
                    fn_name@,
                    desc_m,
                    expr_m,
                ));
            }
            r
        },
        ContractMode::LogOnly => {
            let mut log_inner: Vec<Tok> = Vec::new();
            push_tok(&mut log_inner, Tok::LitStr(msg));
            proof {
                assert(toks_model(log_inner@) =~= seq![TokModel::LitStr(msg_m)]);
            }
            let mut log_toks: Vec<Tok> = Vec::new();
            push_tok(&mut log_toks, tok_ident("log"));
            push_tok(&mut log_toks, tok_op("::"));
            push_tok(&mut log_toks, tok_ident("error"));
            push_tok(&mut log_toks, tok_op("!"));
            push_tok(&mut log_toks, Tok::Group(Delim::Paren, log_inner));
            push_tok(&mut log_toks, tok_op(";"));
            proof {
                assert(toks_model(log_toks@) =~= log_stmt(msg_m));
            }
            let cond = copy_toks(expr);
            let mut r: Vec<Tok> = Vec::new();
            push_tok(&mut r, tok_ident("if"));
            push_tok(&mut r, tok_op("!"));
            push_tok(&mut r, Tok::Group(Delim::Paren, cond));
            push_tok(&mut r, Tok::Group(Delim::Brace, log_toks));
            proof {
                assert(toks_model(r@) =~= emit_check(
                    mode,
                    ty,
                    post_position,
                    fn_name@,
                    desc_m,
                    expr_m,
                ));
            }
            r
        },
        ContractMode::Disabled => {
            let r: Vec<Tok> = Vec::new();
            proof {
                assert(toks_model(r@) =~= Seq::<TokModel>::empty());
            }
            r
        },
    }
}

/// Whether contracts of this kind check before the body.
pub open spec fn is_pre_position(ty: ContractType) -> bool {
    ty is Pre || ty is Invariant
}

/// Whether contracts of this kind check after the body.
pub open spec fn is_post_position(ty: ContractType) -> bool {
    ty is Post || ty is Invariant
}

/// The checks of one contract's assertions, in declaration order.
pub open spec fn emit_runs(
    runs: Seq<Seq<TokModel>>,
    mode: ContractMode,
    ty: ContractType,
    post_position: bool,
    fn_name: Seq<char>,
    desc: Option<Seq<char>>,
) -> Seq<TokModel>
    decreases runs.len(),
{
    if runs.len() == 0 {
        Seq::empty()
    } else {
        emit_runs(runs.drop_last(), mode, ty, post_position, fn_name, desc) + emit_check(
            mode,
            ty,
            post_position,
            fn_name,
            desc,
            runs.last(),
        )
    }
}

/// The pre-check stream: every pre-condition and invariant-as-pre-condition
/// check, contracts in declaration order, assertions in order within each.
pub open spec fn pre_stream(cs: Seq<ContractModel>, fn_name: Seq<char>, flags: BuildFlags) -> Seq<
    TokModel,
>
    decreases cs.len(),
{
    if cs.len() == 0 {
        Seq::empty()
    } else {
        pre_stream(cs.drop_last(), fn_name, flags) + (if is_pre_position(cs.last().ty) {
            emit_runs(
                cs.last().assertions,
                resolved_mode(cs.last().mode, flags),
                cs.last().ty,
                false,
                fn_name,
                cs.last().desc,
            )
        } else {
            Seq::empty()
        })
    }
}

/// The checks and old-state bindings of one post-position contract, the
/// binder ids threaded left to right.
pub open spec fn post_runs_cab(
    runs: Seq<Seq<TokModel>>,
    mode: ContractMode,
    ty: ContractType,
    fn_name: Seq<char>,
    desc: Option<Seq<char>>,
    next: nat,
) -> (Seq<TokModel>, Seq<OldBindingModel>, nat)
    decreases runs.len(),
{
    if runs.len() == 0 {
        (Seq::empty(), Seq::empty(), next)
    } else {
        let (pc, pb, pn) = post_runs_cab(runs.drop_last(), mode, ty, fn_name, desc, next);
        let (a2, bs, n2) = ext_run(runs.last(), pn);
        (pc + emit_check(mode, ty, true, fn_name, desc, a2), pb + bs, n2)
    }
}

/// The post-check stream and the old-state bindings of all contracts:
/// post-conditions and invariant-as-post-conditions in declaration order,
/// their old-state calls extracted with sequential ids.
pub open spec fn post_stream(
    cs: Seq<ContractModel>,
    fn_name: Seq<char>,
    flags: BuildFlags,
    next: nat,
) -> (Seq<TokModel>, Seq<OldBindingModel>, nat)
    decreases cs.len(),
{
    if cs.len() == 0 {
        (Seq::empty(), Seq::empty(), next)
    } else {
        let (pc, pb, pn) = post_stream(cs.drop_last(), fn_name, flags, next);
        if is_post_position(cs.last().ty) {
            let (cc, cb, cn) = post_runs_cab(
                cs.last().assertions,
                resolved_mode(cs.last().mode, flags),
                cs.last().ty,
                fn_name,
                cs.last().desc,
                pn,
            );
            (pc + cc, pb + cb, cn)
        } else {
            (pc, pb, pn)
        }
    }
}

/// One contract's post pass advances the id counter by the number of
/// bindings it records.
pub proof fn lemma_post_runs_cab_count(
    runs: Seq<Seq<TokModel>>,
    mode: ContractMode,
    ty: ContractType,
    fn_name: Seq<char>,
    desc: Option<Seq<char>>,
    next: nat,
)
    ensures
        post_runs_cab(runs, mode, ty, fn_name, desc, next).2 == next + post_runs_cab(
            runs,
            mode,
            ty,
            fn_name,
            desc,
            next,
        ).1.len(),
    decreases runs.len(),
{
    if runs.len() > 0 {
        lemma_post_runs_cab_count(runs.drop_last(), mode, ty, fn_name, desc, next);
        let pn = post_runs_cab(runs.drop_last(), mode, ty, fn_name, desc, next).2;
        crate::oldstate::lemma_ext_run_count(runs.last(), pn);
    }
}

/// The post stream advances the id counter by the number of bindings it
/// records.
pub proof fn lemma_post_stream_count(
    cs: Seq<ContractModel>,
    fn_name: Seq<char>,
    flags: BuildFlags,
    next: nat,
)
    ensures
        post_stream(cs, fn_name, flags, next).2 == next + post_stream(
            cs,
            fn_name,
            flags,
            next,
        ).1.len(),
    decreases cs.len(),
{
    if cs.len() > 0 {
        lemma_post_stream_count(cs.drop_last(), fn_name, flags, next);
        let pn = post_stream(cs.drop_last(), fn_name, flags, next).2;
        if is_post_position(cs.last().ty) {
            lemma_post_runs_cab_count(
                cs.last().assertions,
                resolved_mode(cs.last().mode, flags),
                cs.last().ty,
                fn_name,
                cs.last().desc,
                pn,
            );
        }
    }
}

/// The binding statement of one old-state capture:
/// `let <binder> = <expression> ;`.
pub open spec fn let_stmt(b: OldBindingModel) -> Seq<TokModel> {
    seq![TokModel::Ident("let"@), TokModel::Ident(b.name), TokModel::Op("="@)] + b.expr + seq![
        TokModel::Op(";"@),
    ]
}

/// The binding statements of all captures, in ascending id order.
pub open spec fn old_lets(bs: Seq<OldBindingModel>) -> Seq<TokModel>
    decreases bs.len(),
{
    if bs.len() == 0 {
        Seq::empty()
    } else {
        old_lets(bs.drop_last()) + let_stmt(bs.last())
    }
}

/// The wrapper that runs the original body inside a closure, so that an
/// early `return` exits only the closure and the post-checks still run,
/// with the result captured under the reserved `ret` binding:
/// `#[allow(unused_mut)] let mut run = || -> <ty> { <body> }; let ret = run();`.
pub open spec fn body_wrap(ret_ty: Option<Seq<TokModel>>, body: Seq<TokModel>) -> Seq<TokModel> {
    seq![
        TokModel::Op("#"@),
        TokModel::Group(
            Delim::Bracket,
            seq![
                TokModel::Ident("allow"@),
                TokModel::Group(Delim::Paren, seq![TokModel::Ident("unused_mut"@)]),
            ],
        ),
        TokModel::Ident("let"@),
        TokModel::Ident("mut"@),
        TokModel::Ident("run"@),
        TokModel::Op("="@),
        TokModel::Op("||"@),
        TokModel::Op("->"@),
    ] + (match ret_ty {
        Some(t) => t,
        None => seq![TokModel::Group(Delim::Paren, Seq::<TokModel>::empty())],
    }) + seq![
        TokModel::Group(Delim::Brace, body),
        TokModel::Op(";"@),
        TokModel::Ident("let"@),
        TokModel::Ident("ret"@),
        TokModel::Op("="@),
        TokModel::Ident("run"@),
        TokModel::Group(Delim::Paren, Seq::<TokModel>::empty()),
        TokModel::Op(";"@),
    ]
}

/// The complete replacement body: pre-checks, old-state bindings, the
/// wrapped original body, post-checks, and the result.
pub open spec fn synthesized_body(
    cs: Seq<ContractModel>,
    fn_name: Seq<char>,
    ret_ty: Option<Seq<TokModel>>,
    body: Seq<TokModel>,
    flags: BuildFlags,
) -> Seq<TokModel> {
    pre_stream(cs, fn_name, flags) + old_lets(post_stream(cs, fn_name, flags, 0).1) + body_wrap(
        ret_ty,
        body,
    ) + post_stream(cs, fn_name, flags, 0).0 + seq![TokModel::Ident("ret"@)]
}

/// Builds the checks of one contract's assertions for one position.
fn emit_runs_toks(
    runs: &Vec<Vec<Tok>>,
    mode: ContractMode,
    ty: ContractType,
    post_position: bool,
    fn_name: &str,
    desc: &Option<String>,
) -> (r: Vec<Tok>)
    ensures
        toks_model(r@) == emit_runs(
            crate::tokens::runs_model(runs@),
            mode,
            ty,
            post_position,
            fn_name@,
            match desc {
                Some(d) => Some(d@),
                None => None,
            },
        ),
{
    let ghost rs = crate::tokens::runs_model(runs@);
    let ghost desc_m: Option<Seq<char>> = match desc {
        Some(d) => Some(d@),
        None => None,
    };
    proof {
        crate::tokens::lemma_runs_model_len(runs@);
    }
    let mut r: Vec<Tok> = Vec::new();
    let mut i: usize = 0;
    proof {
        assert(rs.take(0) =~= Seq::<Seq<TokModel>>::empty());
        assert(toks_model(r@) =~= emit_runs(rs.take(0), mode, ty, post_position, fn_name@, desc_m));
    }
    while i < runs.len()
        invariant
            0 <= i <= runs@.len(),
            rs == crate::tokens::runs_model(runs@),
            rs.len() == runs@.len(),
            desc_m == (match desc {
                Some(d) => Some(d@),
                None => None,
            }),
            toks_model(r@) == emit_runs(rs.take(i as int), mode, ty, post_position, fn_name@, desc_m),
        decreases runs@.len() - i,
    {
        proof {
            crate::tokens::lemma_runs_model_index(runs@, i as int);
            assert(rs.take(i as int + 1).drop_last() =~= rs.take(i as int));
            assert(rs.take(i as int + 1).last() == rs[i as int]);
        }
        let chk = emit_check_toks(mode, ty, post_position, fn_name, desc, &runs[i]);
        append_toks(&mut r, &chk);
        i = i + 1;
    }
    proof {
        assert(rs.take(runs@.len() as int) =~= rs);
    }
    r
}

/// Builds the pre-check stream of all contracts.
fn pre_stream_toks(cs: &Vec<Contract>, fn_name: &str, flags: BuildFlags) -> (r: Vec<Tok>)
    ensures
        toks_model(r@) == pre_stream(contracts_model(cs@), fn_name@, flags),
{
    let ghost cm = contracts_model(cs@);
    proof {
        lemma_contracts_model_len(cs@);
    }
    let mut r: Vec<Tok> = Vec::new();
    let mut i: usize = 0;
    proof {
        assert(cm.take(0) =~= Seq::<ContractModel>::empty());
        assert(toks_model(r@) =~= pre_stream(cm.take(0), fn_name@, flags));
    }
    while i < cs.len()
        invariant
            0 <= i <= cs@.len(),
            cm == contracts_model(cs@),
            cm.len() == cs@.len(),
            toks_model(r@) == pre_stream(cm.take(i as int), fn_name@, flags),
        decreases cs@.len() - i,
    {
        proof {
            lemma_contracts_model_index(cs@, i as int);
            assert(cm.take(i as int + 1).drop_last() =~= cm.take(i as int));
            assert(cm.take(i as int + 1).last() == cm[i as int]);
        }
        let c = &cs[i];
        let emit_it = match c.ty {
            ContractType::Pre => true,
            ContractType::Invariant => true,
            ContractType::Post => false,
        };
        if emit_it {
            let resolved = final_mode(c.mode, flags);
            let chk = emit_runs_toks(&c.assertions, resolved, c.ty, false, fn_name, &c.desc);
            append_toks(&mut r, &chk);
        } else {
            proof {
                assert(toks_model(r@) + Seq::<TokModel>::empty() =~= toks_model(r@));
            }
        }
        i = i + 1;
    }
    proof {
        assert(cm.take(cs@.len() as int) =~= cm);
    }
    r
}

/// Builds the post checks of one contract, extracting old-state calls into
/// `binds`.
fn post_runs_toks(
    runs: &Vec<Vec<Tok>>,
    mode: ContractMode,
    ty: ContractType,
    fn_name: &str,
    desc: &Option<String>,
    binds: &mut Vec<OldBinding>,
) -> (r: Vec<Tok>)
    requires
        binds_model(old(binds)@).len() == old(binds)@.len(),
    ensures
        ({
            let cab = post_runs_cab(
                crate::tokens::runs_model(runs@),
                mode,
                ty,
                fn_name@,
                match desc {
                    Some(d) => Some(d@),
                    None => None,
                },
                old(binds)@.len() as nat,
            );
            &&& toks_model(r@) == cab.0
            &&& binds_model(final(binds)@) == binds_model(old(binds)@) + cab.1
            &&& final(binds)@.len() as nat == cab.2
        }),
{
    let ghost rs = crate::tokens::runs_model(runs@);
    let ghost desc_m: Option<Seq<char>> = match desc {
        Some(d) => Some(d@),
        None => None,
    };
    let ghost binds0 = binds@;
    let ghost n0: nat = binds@.len() as nat;
    proof {
        crate::tokens::lemma_runs_model_len(runs@);
    }
    let mut r: Vec<Tok> = Vec::new();
    let mut i: usize = 0;
    proof {
        assert(rs.take(0) =~= Seq::<Seq<TokModel>>::empty());
        assert(binds_model(binds0) + Seq::<OldBindingModel>::empty() =~= binds_model(binds0));
    }
    while i < runs.len()
        invariant
            0 <= i <= runs@.len(),
            rs == crate::tokens::runs_model(runs@),
            rs.len() == runs@.len(),
            n0 == binds0.len(),
            binds0.len() == binds_model(binds0).len(),
            desc_m == (match desc {
                Some(d) => Some(d@),
                None => None,
            }),
            binds_model(binds@).len() == binds@.len(),
            toks_model(r@) == post_runs_cab(rs.take(i as int), mode, ty, fn_name@, desc_m, n0).0,
            binds_model(binds@) == binds_model(binds0) + post_runs_cab(
                rs.take(i as int),
                mode,
                ty,
                fn_name@,
                desc_m,
                n0,
            ).1,
            binds@.len() as nat == post_runs_cab(rs.take(i as int), mode, ty, fn_name@, desc_m, n0).2,
        decreases runs@.len() - i,
    {
        proof {
            crate::tokens::lemma_runs_model_index(runs@, i as int);
            assert(rs.take(i as int + 1).drop_last() =~= rs.take(i as int));
            assert(rs.take(i as int + 1).last() == rs[i as int]);
        }
        let extracted = extract_olds(&runs[i], binds);
        let chk = emit_check_toks(mode, ty, true, fn_name, desc, &extracted);
        proof {
            lemma_binds_model_len(binds@);
            let prev = post_runs_cab(rs.take(i as int), mode, ty, fn_name@, desc_m, n0);
            crate::oldstate::lemma_ext_run_count(rs[i as int], prev.2);
            let e = ext_run(rs[i as int], prev.2);
            assert(binds_model(binds@) =~= binds_model(binds0) + (prev.1 + e.1));
        }
        append_toks(&mut r, &chk);
        i = i + 1;
    }
    proof {
        assert(rs.take(runs@.len() as int) =~= rs);
    }
    r
}

/// Builds the post-check stream of all contracts, recording the old-state
/// bindings.
fn post_stream_toks(
    cs: &Vec<Contract>,
    fn_name: &str,
    flags: BuildFlags,
    binds: &mut Vec<OldBinding>,
) -> (r: Vec<Tok>)
    requires
        binds_model(old(binds)@).len() == old(binds)@.len(),
    ensures
        ({
            let st = post_stream(contracts_model(cs@), fn_name@, flags, old(binds)@.len() as nat);
            &&& toks_model(r@) == st.0
            &&& binds_model(final(binds)@) == binds_model(old(binds)@) + st.1
            &&& final(binds)@.len() as nat == st.2
            &&& binds_model(final(binds)@).len() == final(binds)@.len()
        }),
{
    let ghost cm = contracts_model(cs@);
    let ghost binds0 = binds@;
    let ghost n0: nat = binds@.len() as nat;
    proof {
        lemma_contracts_model_len(cs@);
    }
    let mut r: Vec<Tok> = Vec::new();
    let mut i: usize = 0;
    proof {
        assert(cm.take(0) =~= Seq::<ContractModel>::empty());
        assert(binds_model(binds0) + Seq::<OldBindingModel>::empty() =~= binds_model(binds0));
    }
    while i < cs.len()
        invariant
            0 <= i <= cs@.len(),
            cm == contracts_model(cs@),
            cm.len() == cs@.len(),
            n0 == binds0.len(),
            binds0.len() == binds_model(binds0).len(),
            binds_model(binds@).len() == binds@.len(),
            toks_model(r@) == post_stream(cm.take(i as int), fn_name@, flags, n0).0,
            binds_model(binds@) == binds_model(binds0) + post_stream(
                cm.take(i as int),
                fn_name@,
                flags,
                n0,
            ).1,
            binds@.len() as nat == post_stream(cm.take(i as int), fn_name@, flags, n0).2,
        decreases cs@.len() - i,
    {
        proof {
            lemma_contracts_model_index(cs@, i as int);
            assert(cm.take(i as int + 1).drop_last() =~= cm.take(i as int));
            assert(cm.take(i as int + 1).last() == cm[i as int]);
        }
        let c = &cs[i];
        let emit_it = match c.ty {
            ContractType::Post => true,
            ContractType::Invariant => true,
            ContractType::Pre => false,
        };
        if emit_it {
            let resolved = final_mode(c.mode, flags);
            let ghost prev = post_stream(cm.take(i as int), fn_name@, flags, n0);
            let chk = post_runs_toks(&c.assertions, resolved, c.ty, fn_name, &c.desc, binds);
            proof {
                lemma_binds_model_len(binds@);
                let cab = post_runs_cab(
                    cm[i as int].assertions,
                    resolved_mode(cm[i as int].mode, flags),
                    cm[i as int].ty,
                    fn_name@,
                    (match &c.desc {
                        Some(d) => Some(d@),
                        None => None,
                    }),
                    prev.2,
                );
                assert(binds_model(binds@) =~= binds_model(binds0) + (prev.1 + cab.1));
            }
            append_toks(&mut r, &chk);
        } else {
            proof {
                assert(toks_model(r@) + Seq::<TokModel>::empty() =~= toks_model(r@));
            }
        }
        i = i + 1;
    }
    proof {
        assert(cm.take(cs@.len() as int) =~= cm);
    }
    r
}

/// Builds the binding statements of the old-state captures.
fn old_lets_toks(binds: &Vec<OldBinding>) -> (r: Vec<Tok>)
    ensures
        toks_model(r@) == old_lets(binds_model(binds@)),
{
    let ghost bm = binds_model(binds@);
    proof {
        lemma_binds_model_len(binds@);
    }
    let mut r: Vec<Tok> = Vec::new();
    let mut i: usize = 0;
    proof {
        assert(bm.take(0) =~= Seq::<OldBindingModel>::empty());
        assert(toks_model(r@) =~= old_lets(bm.take(0)));
    }
    while i < binds.len()
        invariant
            0 <= i <= binds@.len(),
            bm == binds_model(binds@),
            bm.len() == binds@.len(),
            toks_model(r@) == old_lets(bm.take(i as int)),
        decreases binds@.len() - i,
    {
        proof {
            crate::oldstate::lemma_binds_model_index(binds@, i as int);
            assert(bm.take(i as int + 1).drop_last() =~= bm.take(i as int));
            assert(bm.take(i as int + 1).last() == bm[i as int]);
        }
        let b = &binds[i];
        push_tok(&mut r, tok_ident("let"));
        push_tok(&mut r, Tok::Ident(b.name.clone()));
        push_tok(&mut r, tok_op("="));
        append_toks(&mut r, &b.expr);
        push_tok(&mut r, tok_op(";"));
        proof {
            assert(toks_model(r@) =~= old_lets(bm.take(i as int)) + let_stmt(bm[i as int]));
        }
        i = i + 1;
    }
    proof {
        assert(bm.take(binds@.len() as int) =~= bm);
    }
    r
}

/// Builds the closure wrapper around the original body.
fn body_wrap_toks(ret_ty: &Option<Vec<Tok>>, body: &Vec<Tok>) -> (r: Vec<Tok>)
    ensures
        toks_model(r@) == body_wrap(
            match ret_ty {
                Some(t) => Some(toks_model(t@)),
                None => None,
            },
            toks_model(body@),
        ),
{
    let ghost ret_m: Option<Seq<TokModel>> = match ret_ty {
        Some(t) => Some(toks_model(t@)),
        None => None,
    };
    let mut allow_inner: Vec<Tok> = Vec::new();
    push_tok(&mut allow_inner, tok_ident("unused_mut"));
    let mut attr_inner: Vec<Tok> = Vec::new();
    push_tok(&mut attr_inner, tok_ident("allow"));
    proof {
        assert(toks_model(allow_inner@) =~= seq![TokModel::Ident("unused_mut"@)]);
    }
    push_tok(&mut attr_inner, Tok::Group(Delim::Paren, allow_inner));
    proof {
        assert(toks_model(attr_inner@) =~= seq![
            TokModel::Ident("allow"@),
            TokModel::Group(Delim::Paren, seq![TokModel::Ident("unused_mut"@)]),
        ]);
    }
    let mut r: Vec<Tok> = Vec::new();
    push_tok(&mut r, tok_op("#"));
    push_tok(&mut r, Tok::Group(Delim::Bracket, attr_inner));
    push_tok(&mut r, tok_ident("let"));
    push_tok(&mut r, tok_ident("mut"));
    push_tok(&mut r, tok_ident("run"));
    push_tok(&mut r, tok_op("="));
    push_tok(&mut r, tok_op("||"));
    push_tok(&mut r, tok_op("->"));
    match ret_ty {
        Some(t) => {
            append_toks(&mut r, t);
        },
        None => {
            let unit_inner: Vec<Tok> = Vec::new();
            proof {
                assert(toks_model(unit_inner@) =~= Seq::<TokModel>::empty());
            }
            push_tok(&mut r, Tok::Group(Delim::Paren, unit_inner));
        },
    }
    let body_copy = copy_toks(body);
    push_tok(&mut r, Tok::Group(Delim::Brace, body_copy));
    push_tok(&mut r, tok_op(";"));
    push_tok(&mut r, tok_ident("let"));
    push_tok(&mut r, tok_ident("ret"));
    push_tok(&mut r, tok_op("="));
    push_tok(&mut r, tok_ident("run"));
    let call_inner: Vec<Tok> = Vec::new();
    proof {
        assert(toks_model(call_inner@) =~= Seq::<TokModel>::empty());
    }
    push_tok(&mut r, Tok::Group(Delim::Paren, call_inner));
    push_tok(&mut r, tok_op(";"));
    proof {
        assert(toks_model(r@) =~= body_wrap(ret_m, toks_model(body@)));
    }
    r
}

/// Builds the complete replacement body for a function's contracts.
pub fn synthesize_body(
    contracts: &Vec<Contract>,
    fn_name: &str,
    ret_ty: &Option<Vec<Tok>>,
    body: &Vec<Tok>,
    flags: BuildFlags,
) -> (r: Vec<Tok>)
    ensures
        toks_model(r@) == synthesized_body(
            contracts_model(contracts@),
            fn_name@,
            match ret_ty {
                Some(t) => Some(toks_model(t@)),
                None => None,
            },
            toks_model(body@),
            flags,
        ),
{
    let ghost cm = contracts_model(contracts@);
    let pre = pre_stream_toks(contracts, fn_name, flags);
    let mut binds: Vec<OldBinding> = Vec::new();
    proof {
        assert(binds_model(binds@) =~= Seq::<OldBindingModel>::empty());
    }
    let posts = post_stream_toks(contracts, fn_name, flags, &mut binds);
    proof {
        assert(binds_model(binds@) =~= post_stream(cm, fn_name@, flags, 0).1);
    }
    let lets = old_lets_toks(&binds);
    let wrap = body_wrap_toks(ret_ty, body);
    let mut r: Vec<Tok> = Vec::new();
    proof {
        assert(toks_model(r@) + toks_model(pre@) =~= toks_model(pre@));
    }
    append_toks(&mut r, &pre);
    append_toks(&mut r, &lets);
    append_toks(&mut r, &wrap);
    append_toks(&mut r, &posts);
    push_tok(&mut r, tok_ident("ret"));
    proof {
        assert(toks_model(r@) =~= synthesized_body(
            cm,
            fn_name@,
            match ret_ty {
                Some(t) => Some(toks_model(t@)),
                None => None,
            },
            toks_model(body@),
            flags,
        ));
    }
    r
}

/// All contracts of one expansion: the triggering attribute's contract
/// first, then the contracts of the declaration's remaining attributes in
/// source order.
pub open spec fn gathered_contracts(
    f: crate::function::FnDeclModel,
    cty: ContractType,
    cmode: ContractMode,
    cargs: Seq<TokModel>,
) -> Seq<ContractModel> {
    seq![crate::contract::contract_of_args(cty, cmode, cargs)]
        + crate::contract::contracts_of_attrs(f.attrs)
}

/// Whether one expansion can succeed: the declaration has a body to wrap
/// and every contract attribute's argument list parses.
pub open spec fn expansion_wellformed(
    f: crate::function::FnDeclModel,
    cargs: Seq<TokModel>,
) -> bool {
    &&& f.body is Some
    &&& crate::parse::args_wellformed(cargs)
    &&& crate::contract::attrs_wellformed(f.attrs)
}

/// The expanded declaration: the contract attributes removed, the body
/// replaced by the synthesized one, everything else unchanged.
pub open spec fn expanded_fn(
    f: crate::function::FnDeclModel,
    cty: ContractType,
    cmode: ContractMode,
    cargs: Seq<TokModel>,
    flags: BuildFlags,
) -> crate::function::FnDeclModel {
    crate::function::FnDeclModel {
        attrs: crate::contract::kept_attrs(f.attrs),
        body: Some(
            synthesized_body(
                gathered_contracts(f, cty, cmode, cargs),
                f.name,
                f.ret_ty,
                f.body->0,
                flags,
            ),
        ),
        ..f
    }
}

/// Expands one annotated function: gathers its contracts, removes the
/// recognized attributes, and replaces the body with the synthesized one.
///
/// Fails exactly when the declaration has no body or any contract
/// attribute's argument list is malformed; each expansion counts its
/// binder ids from zero.
pub fn expand_function(
    func: crate::function::FnDecl,
    cty: ContractType,
    cmode: ContractMode,
    ctoks: &Vec<Tok>,
    flags: BuildFlags,
) -> (r: Result<crate::function::FnDecl, crate::errors::ExpandError>)
    ensures
        r is Ok <==> expansion_wellformed(func@, toks_model(ctoks@)),
        r matches Ok(g) ==> g@ == expanded_fn(func@, cty, cmode, toks_model(ctoks@), flags),
{
    let fwc = match crate::contract::FuncWithContracts::new_with_initial_contract(
        func,
        cty,
        cmode,
        ctoks,
    ) {
        Ok(f) => f,
        Err(e) => {
            return Err(e);
        },
    };
    let function = fwc.function;
    let body = match function.body {
        Some(b) => b,
        None => {
            return Err(crate::errors::ExpandError::MissingBody);
        },
    };
    let new_body = synthesize_body(
        &fwc.contracts,
        function.name.as_str(),
        &function.ret_ty,
        &body,
        flags,
    );
    Ok(
        crate::function::FnDecl {
            attrs: function.attrs,
            vis: function.vis,
            name: function.name,
            generics: function.generics,
            args: function.args,
            ret_ty: function.ret_ty,
            where_clause: function.where_clause,
            body: Some(new_body),
        },
    )
}

} // verus!
