//! The in-memory representation of the contracts attached to one function.
//!
//! A contract is one checkable clause group: its kind, its declared mode,
//! its ordered assertion expressions — implication already rewritten — and
//! an optional description for failure messages.  The contracts of a
//! function are gathered from the attribute that triggered expansion and
//! from every other contract attribute still attached to the declaration,
//! in source order; the recognized attributes are then removed from it.

use vstd::prelude::*;
use crate::errors::ExpandError;
use crate::function::{attrs_model, lemma_attrs_model_index, lemma_attrs_model_len,
    lemma_attrs_model_push, Attr, AttrModel, FnDecl};
use crate::implication::{imp_rewrite, imp_rewrite_toks};
use crate::modes::{kind_and_mode_of_name, ContractMode, ContractType};
use crate::parse::{args_wellformed, parse_attr_args, parsed_assertion_runs, parsed_desc};
use crate::tokens::{copy_tok, copy_toks, lemma_runs_model_index, lemma_runs_model_len,
    lemma_runs_model_push, lemma_toks_model_index, lemma_toks_model_len, runs_model, toks_model,
    Tok, TokModel};

verus! {

/// One contract: a checkable clause group of one kind and mode.
pub struct Contract {
    /// Whether the clauses check before the body, after it, or both.
    pub ty: ContractType,
    /// The declared checking mode, before resolution against build flags.
    pub mode: ContractMode,
    /// The assertion expressions, in declaration order, each with the
    /// implication operator already rewritten away.
    pub assertions: Vec<Vec<Tok>>,
    /// The optional description, used only in failure messages.
    pub desc: Option<String>,
}

/// The model of one contract.
pub struct ContractModel {
    pub ty: ContractType,
    pub mode: ContractMode,
    pub assertions: Seq<Seq<TokModel>>,
    pub desc: Option<Seq<char>>,
}

impl View for Contract {
    type V = ContractModel;

    open spec fn view(&self) -> ContractModel {
        ContractModel {
            ty: self.ty,
            mode: self.mode,
            assertions: runs_model(self.assertions@),
            desc: match self.desc {
                Some(s) => Some(s@),
                None => None,
            },
        }
    }
}

/// The model of a contract sequence.
pub open spec fn contracts_model(cs: Seq<Contract>) -> Seq<ContractModel>
    decreases cs,
{
    if cs.len() == 0 {
        Seq::empty()
    } else {
        contracts_model(cs.drop_last()).push(cs.last()@)
    }
}

pub proof fn lemma_contracts_model_index(cs: Seq<Contract>, i: int)
    requires
        0 <= i < cs.len(),
    ensures
        contracts_model(cs).len() == cs.len(),
        contracts_model(cs)[i] == cs[i]@,
    decreases cs,
{
    lemma_contracts_model_len(cs);
    if i < cs.len() - 1 {
        lemma_contracts_model_index(cs.drop_last(), i);
    } else {
        assert(cs.last() == cs[i]);
    }
}

pub proof fn lemma_contracts_model_len(cs: Seq<Contract>)
    ensures
        contracts_model(cs).len() == cs.len(),
    decreases cs,
{
    if cs.len() > 0 {
        lemma_contracts_model_len(cs.drop_last());
    }
}

pub proof fn lemma_contracts_model_push(cs: Seq<Contract>, c: Contract)
    ensures
        contracts_model(cs.push(c)) == contracts_model(cs).push(c@),
{
    assert(cs.push(c).drop_last() =~= cs);
}

/// Every run of a sequence, implication-rewritten.
pub open spec fn rewritten_runs(rs: Seq<Seq<TokModel>>) -> Seq<Seq<TokModel>>
    decreases rs,
{
    if rs.len() == 0 {
        Seq::empty()
    } else {
        rewritten_runs(rs.drop_last()).push(imp_rewrite(rs.last()))
    }
}

pub proof fn lemma_rewritten_runs_index(rs: Seq<Seq<TokModel>>, i: int)
    requires
        0 <= i < rs.len(),
    ensures
        rewritten_runs(rs).len() == rs.len(),
        rewritten_runs(rs)[i] == imp_rewrite(rs[i]),
    decreases rs,
{
    lemma_rewritten_runs_len(rs);
    if i < rs.len() - 1 {
        lemma_rewritten_runs_index(rs.drop_last(), i);
    } else {
        assert(rs.last() == rs[i]);
    }
}

pub proof fn lemma_rewritten_runs_len(rs: Seq<Seq<TokModel>>)
    ensures
        rewritten_runs(rs).len() == rs.len(),
    decreases rs,
{
    if rs.len() > 0 {
        lemma_rewritten_runs_len(rs.drop_last());
    }
}

/// The contract that an attribute argument list declares: its assertion
/// runs rewritten, its trailing description separated out.
pub open spec fn contract_of_args(
    ty: ContractType,
    mode: ContractMode,
    args: Seq<TokModel>,
) -> ContractModel {
    ContractModel {
        ty,
        mode,
        assertions: rewritten_runs(parsed_assertion_runs(args)),
        desc: parsed_desc(args),
    }
}

impl Contract {
    /// Builds one contract from an attribute's argument tokens.
    ///
    /// Fails exactly on a malformed argument list.
    pub fn from_toks(ty: ContractType, mode: ContractMode, toks: &Vec<Tok>) -> (r: Result<
        Contract,
        ExpandError,
    >)
        ensures
            r is Ok <==> args_wellformed(toks_model(toks@)),
            r matches Ok(c) ==> c@ == contract_of_args(ty, mode, toks_model(toks@)),
    {
        let (runs, desc) = match parse_attr_args(toks) {
            Ok(p) => p,
            Err(e) => {
                return Err(e);
            },
        };
        let ghost rs = runs_model(runs@);
        proof {
            lemma_runs_model_len(runs@);
        }
        let mut assertions: Vec<Vec<Tok>> = Vec::new();
        let mut i: usize = 0;
        while i < runs.len()
            invariant
                0 <= i <= runs@.len(),
                rs == runs_model(runs@),
                rs.len() == runs@.len(),
                runs_model(assertions@) == rewritten_runs(rs.take(i as int)),
            decreases runs@.len() - i,
        {
            proof {
                lemma_runs_model_index(runs@, i as int);
            }
            let rw = imp_rewrite_toks(&runs[i]);
            proof {
                lemma_runs_model_push(assertions@, rw);
                assert(rs.take(i as int).push(rs[i as int]) =~= rs.take(i as int + 1));
                assert(rs.take(i as int + 1).drop_last() =~= rs.take(i as int));
                assert(rs.take(i as int + 1).last() == rs[i as int]);
            }
            assertions.push(rw);
            i = i + 1;
        }
        proof {
            assert(rs.take(runs@.len() as int) =~= rs);
        }
        Ok(Contract { ty, mode, assertions, desc })
    }
}

/// The arguments of one attribute: the contents of a leading group, or
/// the raw input when there is none.
pub open spec fn attr_args_model(a: AttrModel) -> Seq<TokModel> {
    if a.input.len() > 0 && a.input[0] is Group {
        a.input[0]->Group_1
    } else {
        a.input
    }
}

/// Whether an attribute's name spells a contract attribute.
pub open spec fn is_contract_attr(a: AttrModel) -> bool {
    kind_and_mode_of_name(a.name) is Some
}

/// The contracts declared by a declaration's remaining attributes, in
/// source order.
pub open spec fn contracts_of_attrs(attrs: Seq<AttrModel>) -> Seq<ContractModel>
    decreases attrs,
{
    if attrs.len() == 0 {
        Seq::empty()
    } else if is_contract_attr(attrs.last()) {
        let (ty, mode) = kind_and_mode_of_name(attrs.last().name)->0;
        contracts_of_attrs(attrs.drop_last()).push(
            contract_of_args(ty, mode, attr_args_model(attrs.last())),
        )
    } else {
        contracts_of_attrs(attrs.drop_last())
    }
}

/// The attributes that stay on the declaration: everything that is not a
/// contract attribute, in order.
pub open spec fn kept_attrs(attrs: Seq<AttrModel>) -> Seq<AttrModel>
    decreases attrs,
{
    if attrs.len() == 0 {
        Seq::empty()
    } else if is_contract_attr(attrs.last()) {
        kept_attrs(attrs.drop_last())
    } else {
        kept_attrs(attrs.drop_last()).push(attrs.last())
    }
}

/// Whether every contract attribute of the sequence has a well-formed
/// argument list.
pub open spec fn attrs_wellformed(attrs: Seq<AttrModel>) -> bool {
    forall|i: int|
        0 <= i < attrs.len() && is_contract_attr(#[trigger] attrs[i]) ==> args_wellformed(
            attr_args_model(attrs[i]),
        )
}

/// The arguments of one executable attribute.
pub fn attr_args(a: &Attr) -> (r: Vec<Tok>)
    ensures
        toks_model(r@) == attr_args_model(a@),
{
    proof {
        lemma_toks_model_len(a.input@);
    }
    if a.input.len() > 0 {
        proof {
            lemma_toks_model_index(a.input@, 0);
        }
        match &a.input[0] {
            Tok::Group(_, inner) => {
                return copy_toks(inner);
            },
            _ => {},
        }
    }
    copy_toks(&a.input)
}

/// A function declaration together with the contracts gathered for it.
pub struct FuncWithContracts {
    /// The gathered contracts, in order: the triggering attribute's first,
    /// then those of the remaining attributes in source order.
    pub contracts: Vec<Contract>,
    /// The declaration, with the recognized contract attributes removed.
    pub function: FnDecl,
}

impl FuncWithContracts {
    /// Gathers the contracts of a function: the one declared by the
    /// attribute that triggered expansion, then one per contract attribute
    /// still attached to the declaration, which are removed from it.
    ///
    /// Fails exactly when the triggering attribute's arguments or any
    /// contract attribute's arguments are malformed.
    pub fn new_with_initial_contract(
        func: FnDecl,
        cty: ContractType,
        cmode: ContractMode,
        ctoks: &Vec<Tok>,
    ) -> (r: Result<FuncWithContracts, ExpandError>)
        ensures
            r is Ok <==> args_wellformed(toks_model(ctoks@)) && attrs_wellformed(
                attrs_model(func.attrs@),
            ),
            r matches Ok(f) ==> {
                &&& contracts_model(f.contracts@) == seq![
                    contract_of_args(cty, cmode, toks_model(ctoks@)),
                ] + contracts_of_attrs(attrs_model(func.attrs@))
                &&& attrs_model(f.function.attrs@) == kept_attrs(attrs_model(func.attrs@))
                &&& f.function.vis == func.vis
                &&& f.function.name == func.name
                &&& f.function.generics == func.generics
                &&& f.function.args == func.args
                &&& f.function.ret_ty == func.ret_ty
                &&& f.function.where_clause == func.where_clause
                &&& f.function.body == func.body
            },
    {
        let ghost am = attrs_model(func.attrs@);
        proof {
            lemma_attrs_model_len(func.attrs@);
        }
        let initial = match Contract::from_toks(cty, cmode, ctoks) {
            Ok(c) => c,
            Err(e) => {
                return Err(e);
            },
        };
        let mut contracts: Vec<Contract> = Vec::new();
        let ghost initial_m = initial@;
        contracts.push(initial);
        let mut kept: Vec<Attr> = Vec::new();
        let mut i: usize = 0;
        proof {
            lemma_contracts_model_index(contracts@, 0);
            assert(contracts_model(contracts@) =~= seq![initial_m]);
            assert(am.take(0) =~= Seq::<AttrModel>::empty());
            assert(contracts_of_attrs(Seq::<AttrModel>::empty()) =~= Seq::<ContractModel>::empty());
            assert(seq![initial_m] + Seq::<ContractModel>::empty() =~= seq![initial_m]);
            assert(kept_attrs(Seq::<AttrModel>::empty()) =~= Seq::<AttrModel>::empty());
            assert(attrs_model(kept@) =~= Seq::<AttrModel>::empty());
        }
        while i < func.attrs.len()
            invariant
                0 <= i <= func.attrs@.len(),
                am == attrs_model(func.attrs@),
                am.len() == func.attrs@.len(),
                args_wellformed(toks_model(ctoks@)),
                contracts@.len() >= 1,
                contracts_model(contracts@) == seq![
                    contract_of_args(cty, cmode, toks_model(ctoks@)),
                ] + contracts_of_attrs(am.take(i as int)),
                attrs_model(kept@) == kept_attrs(am.take(i as int)),
                forall|j: int|
                    0 <= j < i && is_contract_attr(#[trigger] am[j]) ==> args_wellformed(
                        attr_args_model(am[j]),
                    ),
            decreases func.attrs@.len() - i,
        {
            proof {
                lemma_attrs_model_index(func.attrs@, i as int);
                assert(am.take(i as int + 1).drop_last() =~= am.take(i as int));
                assert(am.take(i as int + 1).last() == am[i as int]);
            }
            let a = &func.attrs[i];
            match ContractType::contract_type_and_mode(a.name.as_str()) {
                Some((ty, mode)) => {
                    let args = attr_args(a);
                    let c = match Contract::from_toks(ty, mode, &args) {
                        Ok(c) => c,
                        Err(e) => {
                            proof {
                                assert(!attrs_wellformed(am)) by {
                                    assert(is_contract_attr(am[i as int]));
                                    assert(!args_wellformed(attr_args_model(am[i as int])));
                                }
                            }
                            return Err(e);
                        },
                    };
                    proof {
                        lemma_contracts_model_push(contracts@, c);
                        assert(contracts_model(contracts@).push(c@) =~= seq![
                            contract_of_args(cty, cmode, toks_model(ctoks@)),
                        ] + contracts_of_attrs(am.take(i as int + 1)));
                    }
                    contracts.push(c);
                },
                None => {
                    let keep = Attr { name: a.name.clone(), input: copy_toks(&a.input) };
                    proof {
                        lemma_attrs_model_push(kept@, keep);
                        assert(keep@ == am[i as int]);
                        assert(attrs_model(kept@).push(am[i as int]) =~= kept_attrs(
                            am.take(i as int + 1),
                        ));
                    }
                    kept.push(keep);
                },
            }
            i = i + 1;
        }
        proof {
            assert(am.take(func.attrs@.len() as int) =~= am);
            assert(attrs_wellformed(am)) by {
                assert forall|j: int|
                    0 <= j < am.len() && is_contract_attr(#[trigger] am[j]) implies args_wellformed(
                    attr_args_model(am[j]),
                ) by {}
            }
        }
        let function = FnDecl {
            attrs: kept,
            vis: func.vis,
            name: func.name,
            generics: func.generics,
            args: func.args,
            ret_ty: func.ret_ty,
            where_clause: func.where_clause,
            body: func.body,
        };
        Ok(FuncWithContracts { contracts, function })
    }
}

} // verus!
