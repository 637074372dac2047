//! The portable intermediate representation of checked programs.
use vstd::prelude::*;
use vstd::string::*;

use crate::checker::{check_program, checked, example_count, hole_count, property_count, CheckSummary};
use crate::calls::pair_texts;
use crate::checks::{header_variables, header_vars, near_warnings_ok};
use crate::diagnostic::{any_error, copy_diagnostics, has_errors, same_diagnostic, Diagnostic, Severity};
use crate::lowering::{env_ctx, lower_in, lowered_text, names, param_names, parameter_names, Env, LowerCtx};
use crate::intrinsics::{intrinsic_functions, is_intrinsic_list};
use crate::model::{copy_params, copy_strings, copy_types, same_type, symbol_text, Program, target_text, Function, Param, TypeDecl};
use crate::patch::{block_ranges, is_header, property_block_ranges, texts};
use crate::project::Architecture;
use crate::text::{decimal, owned, starts_with, trim, trim_str, usize_text};

verus! {

#[derive(Debug)]
pub struct IrProgram {
    pub version: String,
    pub types: Vec<TypeDecl>,
    pub functions: Vec<IrFunction>,
}

#[derive(Debug)]
pub struct IrFunction {
    pub symbol: String,
    pub module: String,
    pub name: String,
    pub version: String,
    pub source_path: String,
    pub line: usize,
    pub params: Vec<Param>,
    pub return_type: String,
    pub effects: Vec<String>,
    pub requires: Vec<IrExpr>,
    pub ensures: Vec<IrExpr>,
    pub examples: Vec<IrExpr>,
    pub example_lines: Vec<usize>,
    pub properties: Vec<IrProperty>,
    pub body: IrExpr,
}

#[derive(Debug)]
pub struct IrProperty {
    pub index: usize,
    pub line: usize,
    pub variables: Vec<Param>,
    pub expression: IrExpr,
}

#[derive(Debug)]
pub enum IrExpr {
    Int(i64),
    Bool(bool),
    Text(String),
    Unit,
    Var(String),
    EnumVariant { type_text: String, variant: String },
    Call { reference: String, target: String, args: Vec<IrExpr> },
    RecordConstruct { type_text: String, fields: Vec<(String, IrExpr)> },
    FieldAccess { base: Box<IrExpr>, field: String },
    RecordUpdate { base: Box<IrExpr>, fields: Vec<(String, IrExpr)> },
    Unary { op: IrUnaryOp, expr: Box<IrExpr> },
    Binary { op: IrBinaryOp, left: Box<IrExpr>, right: Box<IrExpr> },
    If { condition: Box<IrExpr>, then_expr: Box<IrExpr>, else_expr: Box<IrExpr> },
    Match { expr: Box<IrExpr>, branches: Vec<(String, IrExpr)> },
    Let { name: String, value: Box<IrExpr>, body: Box<IrExpr> },
    Assign { name: String, value: Box<IrExpr> },
    While { condition: Box<IrExpr>, body: Box<IrExpr> },
    Sequence { first: Box<IrExpr>, second: Box<IrExpr> },
}

#[derive(Clone, Copy, Debug, PartialEq, Eq, Structural)]
pub enum IrUnaryOp {
    Neg,
    Not,
}

/// The portable name of a unary operator.
pub open spec fn unary_name(op: IrUnaryOp) -> Seq<char> {
    match op {
        IrUnaryOp::Neg => "neg"@,
        IrUnaryOp::Not => "not"@,
    }
}

impl IrUnaryOp {
    pub fn as_str(self) -> (res: &'static str)
        ensures
            res@ == unary_name(self),
    {
        match self {
            IrUnaryOp::Neg => {
                proof {
                    reveal_strlit("neg");
                }
                "neg"
            },
            IrUnaryOp::Not => {
                proof {
                    reveal_strlit("not");
                }
                "not"
            },
        }
    }
}

#[derive(Clone, Copy, Debug, PartialEq, Eq, Structural)]
pub enum IrBinaryOp {
    Add,
    Sub,
    Mul,
    DivTrunc,
    Rem,
    Eq,
    NotEq,
    Lt,
    LtEq,
    Gt,
    GtEq,
    And,
    Or,
}

/// The portable name of a binary operator.
pub open spec fn binary_name(op: IrBinaryOp) -> Seq<char> {
    match op {
        IrBinaryOp::Add => "add"@,
        IrBinaryOp::Sub => "sub"@,
        IrBinaryOp::Mul => "mul"@,
        IrBinaryOp::DivTrunc => "div_trunc"@,
        IrBinaryOp::Rem => "rem"@,
        IrBinaryOp::Eq => "eq"@,
        IrBinaryOp::NotEq => "not_eq"@,
        IrBinaryOp::Lt => "lt"@,
        IrBinaryOp::LtEq => "lt_eq"@,
        IrBinaryOp::Gt => "gt"@,
        IrBinaryOp::GtEq => "gt_eq"@,
        IrBinaryOp::And => "and"@,
        IrBinaryOp::Or => "or"@,
    }
}

impl IrBinaryOp {
    pub fn as_str(self) -> (res: &'static str)
        ensures
            res@ == binary_name(self),
    {
        match self {
            IrBinaryOp::Add => {
                proof { reveal_strlit("add"); }
                "add"
            },
            IrBinaryOp::Sub => {
                proof { reveal_strlit("sub"); }
                "sub"
            },
            IrBinaryOp::Mul => {
                proof { reveal_strlit("mul"); }
                "mul"
            },
            IrBinaryOp::DivTrunc => {
                proof { reveal_strlit("div_trunc"); }
                "div_trunc"
            },
            IrBinaryOp::Rem => {
                proof { reveal_strlit("rem"); }
                "rem"
            },
            IrBinaryOp::Eq => {
                proof { reveal_strlit("eq"); }
                "eq"
            },
            IrBinaryOp::NotEq => {
                proof { reveal_strlit("not_eq"); }
                "not_eq"
            },
            IrBinaryOp::Lt => {
                proof { reveal_strlit("lt"); }
                "lt"
            },
            IrBinaryOp::LtEq => {
                proof { reveal_strlit("lt_eq"); }
                "lt_eq"
            },
            IrBinaryOp::Gt => {
                proof { reveal_strlit("gt"); }
                "gt"
            },
            IrBinaryOp::GtEq => {
                proof { reveal_strlit("gt_eq"); }
                "gt_eq"
            },
            IrBinaryOp::And => {
                proof { reveal_strlit("and"); }
                "and"
            },
            IrBinaryOp::Or => {
                proof { reveal_strlit("or"); }
                "or"
            },
        }
    }
}

#[derive(Debug)]
pub struct IrSummary {
    pub diagnostics: Vec<Diagnostic>,
    pub check_summary: CheckSummary,
    pub ir: Option<IrProgram>,
}

impl IrSummary {
    /// Lowering succeeded: there is a program and no error among the diagnostics.
    pub fn ok(&self) -> (res: bool)
        ensures
            res == (self.ir is Some && !any_error(self.diagnostics@)),
    {
        self.ir.is_some() && !has_errors(&self.diagnostics)
    }
}

} // verus!
verus! {

// ---------------------------------------------------------------------------
// The IR as the specification sees it
// ---------------------------------------------------------------------------
pub enum SIr {
    Int(int),
    Bool(bool),
    Text(Seq<char>),
    Unit,
    Var(Seq<char>),
    EnumVariant(Seq<char>, Seq<char>),
    Call(Seq<char>, Seq<char>, Seq<SIr>),
    RecordConstruct(Seq<char>, Seq<(Seq<char>, SIr)>),
    FieldAccess(Box<SIr>, Seq<char>),
    RecordUpdate(Box<SIr>, Seq<(Seq<char>, SIr)>),
    Unary(IrUnaryOp, Box<SIr>),
    Binary(IrBinaryOp, Box<SIr>, Box<SIr>),
    If(Box<SIr>, Box<SIr>, Box<SIr>),
    Match(Box<SIr>, Seq<(Seq<char>, SIr)>),
    Let(Seq<char>, Box<SIr>, Box<SIr>),
    Assign(Seq<char>, Box<SIr>),
    While(Box<SIr>, Box<SIr>),
    Sequence(Box<SIr>, Box<SIr>),
}

pub open spec fn ir_list_view(v: Seq<IrExpr>) -> Seq<SIr>
    decreases v,
{
    Seq::new(
        v.len(),
        |i: int|
            if 0 <= i < v.len() {
                proof {
                    assert(decreases_to!(v => v[i]));
                }
                ir_view(v[i])
            } else {
                SIr::Unit
            },
    )
}

pub open spec fn ir_fields_view(v: Seq<(String, IrExpr)>) -> Seq<(Seq<char>, SIr)>
    decreases v,
{
    Seq::new(
        v.len(),
        |i: int|
            if 0 <= i < v.len() {
                proof {
                    assert(decreases_to!(v => v[i]));
                    assert(decreases_to!(v[i] => v[i].1));
                }
                (v[i].0@, ir_view(v[i].1))
            } else {
                (seq![], SIr::Unit)
            },
    )
}

/// The view of an IR expression: text as character sequences.
pub open spec fn ir_view(e: IrExpr) -> SIr
    decreases e,
{
    match e {
        IrExpr::Int(v) => SIr::Int(v as int),
        IrExpr::Bool(b) => SIr::Bool(b),
        IrExpr::Text(t) => SIr::Text(t@),
        IrExpr::Unit => SIr::Unit,
        IrExpr::Var(n) => SIr::Var(n@),
        IrExpr::EnumVariant { type_text, variant } => SIr::EnumVariant(type_text@, variant@),
        IrExpr::Call { reference, target, args } => {
            proof {
                assert(decreases_to!(e => args));
                assert(decreases_to!(args => args@));
            }
            SIr::Call(reference@, target@, ir_list_view(args@))
        },
        IrExpr::RecordConstruct { type_text, fields } => {
            proof {
                assert(decreases_to!(e => fields));
                assert(decreases_to!(fields => fields@));
            }
            SIr::RecordConstruct(type_text@, ir_fields_view(fields@))
        },
        IrExpr::FieldAccess { base, field } => SIr::FieldAccess(Box::new(ir_view(*base)), field@),
        IrExpr::RecordUpdate { base, fields } => {
            proof {
                assert(decreases_to!(e => fields));
                assert(decreases_to!(fields => fields@));
            }
            SIr::RecordUpdate(Box::new(ir_view(*base)), ir_fields_view(fields@))
        },
        IrExpr::Unary { op, expr } => SIr::Unary(op, Box::new(ir_view(*expr))),
        IrExpr::Binary { op, left, right } => SIr::Binary(op, Box::new(ir_view(*left)), Box::new(ir_view(*right))),
        IrExpr::If { condition, then_expr, else_expr } => SIr::If(
            Box::new(ir_view(*condition)),
            Box::new(ir_view(*then_expr)),
            Box::new(ir_view(*else_expr)),
        ),
        IrExpr::Match { expr, branches } => {
            proof {
                assert(decreases_to!(e => branches));
                assert(decreases_to!(branches => branches@));
            }
            SIr::Match(Box::new(ir_view(*expr)), ir_fields_view(branches@))
        },
        IrExpr::Let { name, value, body } => SIr::Let(name@, Box::new(ir_view(*value)), Box::new(ir_view(*body))),
        IrExpr::Assign { name, value } => SIr::Assign(name@, Box::new(ir_view(*value))),
        IrExpr::While { condition, body } => SIr::While(Box::new(ir_view(*condition)), Box::new(ir_view(*body))),
        IrExpr::Sequence { first, second } => SIr::Sequence(Box::new(ir_view(*first)), Box::new(ir_view(*second))),
    }
}

} // verus!

verus! {

// ---------------------------------------------------------------------------
// Lowering a checked program
// ---------------------------------------------------------------------------

/// Expression texts to lower, each with the same variables in scope.
pub open spec fn items_of(ts: Seq<Seq<char>>, vs: Seq<Seq<char>>) -> Seq<(Seq<char>, Seq<Seq<char>>)> {
    ts.map_values(|t: Seq<char>| (t, vs))
}

/// The positions of the items that do not lower, in order.
pub open spec fn failing(c: LowerCtx, items: Seq<(Seq<char>, Seq<Seq<char>>)>) -> Seq<int>
    decreases items.len(),
{
    if items.len() == 0 {
        seq![]
    } else if lowered_text(c, items.last().0, items.last().1) is None {
        failing(c, items.drop_last()).push(items.len() - 1)
    } else {
        failing(c, items.drop_last())
    }
}

/// Each item lowers to the expression at its position.
pub open spec fn lowered_all(c: LowerCtx, items: Seq<(Seq<char>, Seq<Seq<char>>)>, es: Seq<IrExpr>) -> bool {
    &&& es.len() == items.len()
    &&& forall|k: int| 0 <= k < items.len() ==> lowered_text(c, items[k].0, items[k].1) == Some(ir_view(#[trigger] es[k]))
}

/// The preconditions of a function, over its parameters.
pub open spec fn requires_items(f: Function) -> Seq<(Seq<char>, Seq<Seq<char>>)> {
    items_of(texts(f.requires@), param_names(f))
}

/// The postconditions of a function, over its parameters and `result`.
pub open spec fn ensures_items(f: Function) -> Seq<(Seq<char>, Seq<Seq<char>>)> {
    items_of(texts(f.contracts@), param_names(f).push("result"@))
}

/// The examples of a function, with no variables in scope.
pub open spec fn example_items(f: Function) -> Seq<(Seq<char>, Seq<Seq<char>>)> {
    items_of(texts(f.examples@), seq![])
}

/// The sampled properties of a function: each block's trimmed expression, over the
/// variables its `forall` header declares.
pub open spec fn property_items(f: Function) -> Seq<(Seq<char>, Seq<Seq<char>>)> {
    let ls = texts(f.properties@);
    block_ranges(ls, 0).map_values(
        |r: (int, int)| (trim(ls[r.1]), header_vars(ls[r.0]).map_values(|v: (Seq<char>, Seq<char>)| v.0)),
    )
}

/// Every part of a function lowers: preconditions, postconditions, examples, properties
/// and the implementation, which it has.
pub open spec fn lowerable(c: LowerCtx, f: Function) -> bool {
    &&& f.implementation is Some
    &&& failing(c, requires_items(f)).len() == 0
    &&& failing(c, ensures_items(f)).len() == 0
    &&& failing(c, example_items(f)).len() == 0
    &&& failing(c, property_items(f)).len() == 0
    &&& lowered_text(c, f.implementation->0@, param_names(f)) is Some
}

/// An IR lowering error about function `f` whose message starts with `prefix` and whose
/// data starts with the function's symbol.
pub open spec fn lowering_error(d: Diagnostic, f: Function, prefix: Seq<char>) -> bool {
    &&& d.severity == Severity::Error
    &&& d.code@ == "IrLoweringError"@
    &&& starts_with(d.message@, prefix)
    &&& d.target is Some
    &&& d.target->0@ == target_text(f.source_path@, f.line as nat, f.name@)
    &&& d.repairs@.len() == 0
    &&& d.repair_actions@.len() == 0
    &&& d.data@.len() >= 1
    &&& d.data@[0].0@ == "symbol"@
    &&& d.data@[0].1@ == symbol_text(f)
}

/// `Could not lower <what> #<number> for `<name>` to portable IR: `
pub open spec fn stage_prefix(what: Seq<char>, number: nat, f: Function) -> Seq<char> {
    "Could not lower "@ + what + " #"@ + decimal(number) + " for `"@ + f.name@ + "` to portable IR: "@
}

/// One error per failing item, in order, numbered from one, with the item's text under `key`.
pub open spec fn stage_reports(
    ds: Seq<Diagnostic>,
    f: Function,
    items: Seq<(Seq<char>, Seq<Seq<char>>)>,
    fails: Seq<int>,
    what: Seq<char>,
    key: Seq<char>,
) -> bool {
    &&& ds.len() == fails.len()
    &&& forall|j: int|
        0 <= j < ds.len() ==> {
            &&& lowering_error(#[trigger] ds[j], f, stage_prefix(what, (fails[j] + 1) as nat, f))
            &&& ds[j].data@.len() == 2
            &&& ds[j].data@[1].0@ == key
            &&& ds[j].data@[1].1@ == items[fails[j]].0
        }
}



/// One error per failing property, in order: its number, counted from one among the
/// property blocks, and its expression.
pub open spec fn property_reports(
    ds: Seq<Diagnostic>,
    f: Function,
    items: Seq<(Seq<char>, Seq<Seq<char>>)>,
    fails: Seq<int>,
) -> bool {
    &&& ds.len() == fails.len()
    &&& forall|j: int|
        0 <= j < ds.len() ==> {
            &&& lowering_error(#[trigger] ds[j], f, stage_prefix("sampled property"@, (fails[j] + 1) as nat, f))
            &&& ds[j].data@.len() == 3
            &&& ds[j].data@[1].0@ == "property_index"@
            &&& ds[j].data@[1].1@ == decimal((fails[j] + 1) as nat)
            &&& ds[j].data@[2].0@ == "property"@
            &&& ds[j].data@[2].1@ == items[fails[j]].0
        }
}

/// The `k`-th property block of `f`, lowered: numbered from one, at its header's line
/// (or the function's when that is unknown), with the header's variables.
pub open spec fn property_as(p: IrProperty, c: LowerCtx, f: Function, k: int) -> bool {
    let ls = texts(f.properties@);
    let r = block_ranges(ls, 0)[k];
    let hv = header_vars(ls[r.0]);
    &&& p.index == k + 1
    &&& p.line == (if r.0 < f.property_lines@.len() { f.property_lines@[r.0] } else { f.line })
    &&& p.variables@.len() == hv.len()
    &&& forall|j: int|
        0 <= j < hv.len() ==> (#[trigger] p.variables@[j]).name@ == hv[j].0 && p.variables@[j].type_text@ == hv[j].1
    &&& lowered_text(c, property_items(f)[k].0, property_items(f)[k].1) == Some(ir_view(p.expression))
}


/// The error for a public function with nothing to lower.
pub open spec fn missing_impl_report(d: Diagnostic, f: Function) -> bool {
    &&& d.severity == Severity::Error
    &&& d.code@ == "IrLoweringError"@
    &&& d.message@ == "Function `"@ + f.name@ + "` has no implementation to lower to IR."@
    &&& d.target is Some
    &&& d.target->0@ == target_text(f.source_path@, f.line as nat, f.name@)
    &&& d.data@.len() == 0
    &&& d.repairs@.len() == 0
    &&& d.repair_actions@.len() == 0
}

/// The error for an implementation that does not lower.
pub open spec fn impl_report(d: Diagnostic, f: Function) -> bool {
    &&& lowering_error(d, f, "Could not lower implementation for `"@ + f.name@ + "` to portable IR: "@)
    &&& d.data@.len() == 2
    &&& d.data@[1].0@ == "implementation"@
    &&& d.data@[1].1@ == f.implementation->0@
}

/// What lowering reports for one function: nothing for a private one; else the errors of
/// the first stage that fails: the implementation's absence, then the preconditions, the
/// postconditions, the examples, the properties (each stage reports all its failures), and
/// last the implementation.
pub open spec fn fn_reports(ds: Seq<Diagnostic>, c: LowerCtx, f: Function) -> bool {
    if !f.public {
        ds.len() == 0
    } else if f.implementation is None {
        ds.len() == 1 && missing_impl_report(ds[0], f)
    } else if failing(c, requires_items(f)).len() > 0 {
        stage_reports(ds, f, requires_items(f), failing(c, requires_items(f)), "precondition"@, "requires"@)
    } else if failing(c, ensures_items(f)).len() > 0 {
        stage_reports(ds, f, ensures_items(f), failing(c, ensures_items(f)), "postcondition"@, "ensures"@)
    } else if failing(c, example_items(f)).len() > 0 {
        stage_reports(ds, f, example_items(f), failing(c, example_items(f)), "example"@, "example"@)
    } else if failing(c, property_items(f)).len() > 0 {
        property_reports(ds, f, property_items(f), failing(c, property_items(f)))
    } else if lowered_text(c, f.implementation->0@, param_names(f)) is None {
        ds.len() == 1 && impl_report(ds[0], f)
    } else {
        ds.len() == 0
    }
}

/// How many errors lowering reports for one function.
pub open spec fn report_count(c: LowerCtx, f: Function) -> nat {
    if !f.public {
        0
    } else if f.implementation is None {
        1
    } else if failing(c, requires_items(f)).len() > 0 {
        failing(c, requires_items(f)).len()
    } else if failing(c, ensures_items(f)).len() > 0 {
        failing(c, ensures_items(f)).len()
    } else if failing(c, example_items(f)).len() > 0 {
        failing(c, example_items(f)).len()
    } else if failing(c, property_items(f)).len() > 0 {
        failing(c, property_items(f)).len()
    } else if lowered_text(c, f.implementation->0@, param_names(f)) is None {
        1
    } else {
        0
    }
}

/// `irf` is function `f` lowered: its identity and signature copied, every expression
/// lowered in place, each example with its line (the function's when unknown).
pub open spec fn fn_lowered_as(irf: IrFunction, c: LowerCtx, f: Function) -> bool {
    &&& irf.symbol@ == symbol_text(f)
    &&& irf.module@ == f.module@
    &&& irf.name@ == f.name@
    &&& irf.version@ == f.version@
    &&& irf.source_path@ == f.source_path@
    &&& irf.line == f.line
    &&& irf.params@ == f.params@
    &&& irf.return_type@ == f.return_type@
    &&& irf.effects@ == f.effects@
    &&& lowered_all(c, requires_items(f), irf.requires@)
    &&& lowered_all(c, ensures_items(f), irf.ensures@)
    &&& lowered_all(c, example_items(f), irf.examples@)
    &&& irf.example_lines@.len() == f.examples@.len()
    &&& forall|k: int|
        0 <= k < f.examples@.len() ==> #[trigger] irf.example_lines@[k] == (if k < f.example_lines@.len() {
            f.example_lines@[k]
        } else {
            f.line
        })
    &&& irf.properties@.len() == property_items(f).len()
    &&& forall|k: int| 0 <= k < irf.properties@.len() ==> property_as(#[trigger] irf.properties@[k], c, f, k)
    &&& f.implementation is Some
    &&& lowered_text(c, f.implementation->0@, param_names(f)) == Some(ir_view(irf.body))
}


/// The public functions that lower, in order.
pub open spec fn lowered_fns(c: LowerCtx, fs: Seq<Function>) -> Seq<Function>
    decreases fs.len(),
{
    if fs.len() == 0 {
        seq![]
    } else if fs.last().public && lowerable(c, fs.last()) {
        lowered_fns(c, fs.drop_last()).push(fs.last())
    } else {
        lowered_fns(c, fs.drop_last())
    }
}

/// How many errors lowering reports for the first `n` functions.
pub open spec fn report_offset(c: LowerCtx, fs: Seq<Function>, n: int) -> nat
    decreases n,
{
    if n <= 0 {
        0
    } else {
        report_offset(c, fs, n - 1) + report_count(c, fs[n - 1])
    }
}

/// The errors reported for function `n`, after the first `base` diagnostics.
pub open spec fn fn_slice(ds: Seq<Diagnostic>, c: LowerCtx, fs: Seq<Function>, base: int, n: int) -> Seq<Diagnostic> {
    ds.subrange(base + report_offset(c, fs, n), base + report_offset(c, fs, n + 1))
}

/// `ir` is program `p` lowered: its version tag, its types, and its public functions that
/// lower, each lowered.
pub open spec fn program_lowered_as(ir: IrProgram, c: LowerCtx, p: Program) -> bool {
    &&& ir.version@ == "serow.ir.v0"@
    &&& ir.types@.len() == p.types@.len()
    &&& forall|k: int| 0 <= k < p.types@.len() ==> same_type(#[trigger] ir.types@[k], p.types@[k])
    &&& ir.functions@.len() == lowered_fns(c, p.functions@).len()
    &&& forall|k: int|
        0 <= k < ir.functions@.len() ==> fn_lowered_as(#[trigger] ir.functions@[k], c, lowered_fns(c, p.functions@)[k])
}

/// The outcome of lowering program `p` against the intrinsics `ins`: the check's
/// diagnostics come first; when they hold an error nothing is lowered; else each
/// function's lowering errors follow in order, and there is a program exactly when there
/// are none.
pub open spec fn lowering_holds(res: IrSummary, p: Program, ins: Seq<Function>) -> bool {
    let c = LowerCtx { fs: p.functions@, ins, types: p.types@ };
    let fs = p.functions@;
    let cd = res.check_summary.diagnostics@;
    let ds = res.diagnostics@;
    &&& ds.len() >= cd.len()
    &&& forall|k: int| 0 <= k < cd.len() ==> same_diagnostic(#[trigger] ds[k], cd[k])
    &&& if any_error(cd) {
        ds.len() == cd.len() && res.ir is None
    } else {
        &&& ds.len() == cd.len() + report_offset(c, fs, fs.len() as int)
        &&& forall|n: int| 0 <= n < fs.len() ==> fn_reports(#[trigger] fn_slice(ds, c, fs, cd.len() as int, n), c, fs[n])
        &&& (res.ir is Some <==> report_offset(c, fs, fs.len() as int) == 0)
        &&& (res.ir is Some ==> program_lowered_as(res.ir->0, c, p))
    }
}

pub proof fn lemma_offset_mono(c: LowerCtx, fs: Seq<Function>, a: int, b: int)
    requires
        0 <= a <= b,
    ensures
        report_offset(c, fs, a) <= report_offset(c, fs, b),
    decreases b - a,
{
    if a < b {
        lemma_offset_mono(c, fs, a, b - 1);
    }
}

/// Everything lowering reports is an error.
pub proof fn lemma_reports_errors(ds: Seq<Diagnostic>, c: LowerCtx, f: Function)
    requires
        fn_reports(ds, c, f),
    ensures
        ds.len() == report_count(c, f),
        forall|k: int| 0 <= k < ds.len() ==> (#[trigger] ds[k]).severity == Severity::Error,
{
}

/// The error for an item that does not lower: `Could not lower <what> #<number> for
/// `<name>` to portable IR: <error>`, with the function's symbol and the item under `key`.
fn stage_error(f: &Function, what: &str, number: usize, error: &str, key: &str, value: &str) -> (res: Diagnostic)
    ensures
        lowering_error(res, *f, stage_prefix(what@, number as nat, *f)),
        res.data@.len() == 2,
        res.data@[1].0@ == key@,
        res.data@[1].1@ == value@,
{
    let mut m = owned("Could not lower ");
    m.append(what);
    m.append(" #");
    let n = usize_text(number);
    m.append(n.as_str());
    m.append(" for `");
    m.append(f.name.as_str());
    m.append("` to portable IR: ");
    let ghost prefix = m@;
    m.append(error);
    assert(m@.take(prefix.len() as int) =~= prefix);
    assert(prefix == stage_prefix(what@, number as nat, *f));
    let sym = f.symbol();
    let d = Diagnostic::error("IrLoweringError", m.as_str(), Some(f.target()));
    let d = d.with_data("symbol", sym.as_str());
    let d2 = d.with_data(key, value);
    assert(d2.data@[0] == d.data@[0]);
    d2
}

/// Lowers each text with the same variables in scope; an error for each that fails.
fn lower_items(
    items: &Vec<String>,
    variables: &Vec<String>,
    env: &Env,
    f: &Function,
    what: &str,
    key: &str,
) -> (res: (Vec<IrExpr>, Vec<Diagnostic>))
    ensures
        stage_reports(
            res.1@,
            *f,
            items_of(texts(items@), names(variables@)),
            failing(env_ctx(*env), items_of(texts(items@), names(variables@))),
            what@,
            key@,
        ),
        failing(env_ctx(*env), items_of(texts(items@), names(variables@))).len() == 0 ==> lowered_all(
            env_ctx(*env),
            items_of(texts(items@), names(variables@)),
            res.0@,
        ),
{
    let ghost c = env_ctx(*env);
    let ghost its = items_of(texts(items@), names(variables@));
    let mut exprs: Vec<IrExpr> = Vec::new();
    let mut diags: Vec<Diagnostic> = Vec::new();
    let mut k: usize = 0;
    while k < items.len()
        invariant
            k <= items@.len(),
            its == items_of(texts(items@), names(variables@)),
            c == env_ctx(*env),
            its.len() == items@.len(),
            diags@.len() == failing(c, its.take(k as int)).len(),
            forall|j: int| 0 <= j < diags@.len() ==> 0 <= #[trigger] failing(c, its.take(k as int))[j] < k,
            forall|j: int|
                0 <= j < diags@.len() ==> {
                    &&& lowering_error(#[trigger] diags@[j], *f, stage_prefix(what@, (failing(c, its.take(k as int))[j] + 1) as nat, *f))
                    &&& diags@[j].data@.len() == 2
                    &&& diags@[j].data@[1].0@ == key@
                    &&& diags@[j].data@[1].1@ == its[failing(c, its.take(k as int))[j]].0
                },
            failing(c, its.take(k as int)).len() == 0 ==> lowered_all(c, its.take(k as int), exprs@),
        decreases items@.len() - k,
    {
        proof {
            assert(its.take(k + 1).drop_last() =~= its.take(k as int));
            assert(its.take(k + 1).last() == its[k as int]);
        }
        let ghost before = failing(c, its.take(k as int));
        let ghost old_diags = diags@;
        let ghost old_exprs = exprs@;
        let vs = copy_strings(variables);
        let r = lower_in(items[k].as_str(), vs, env);
        match r {
            Ok(e) => {
                exprs.push(e);
                assert(failing(c, its.take(k + 1)) == before);
                proof {
                    if before.len() == 0 {
                        assert forall|m: int| 0 <= m < k + 1 implies lowered_text(c, its.take(k + 1)[m].0, its.take(k + 1)[m].1) == Some(ir_view(#[trigger] exprs@[m])) by {
                            if m < k {
                                assert(its.take(k + 1)[m] == its.take(k as int)[m]);
                                assert(exprs@[m] == old_exprs[m]);
                            }
                        }
                    }
                }
            },
            Err(err) => {
                let d = stage_error(f, what, k + 1, err.as_str(), key, items[k].as_str());
                diags.push(d);
                assert(failing(c, its.take(k + 1)) == before.push(k as int));
                assert forall|j: int| 0 <= j < diags@.len() implies {
                    &&& lowering_error(#[trigger] diags@[j], *f, stage_prefix(what@, (failing(c, its.take(k + 1))[j] + 1) as nat, *f))
                    &&& diags@[j].data@.len() == 2
                    &&& diags@[j].data@[1].0@ == key@
                    &&& diags@[j].data@[1].1@ == its[failing(c, its.take(k + 1))[j]].0
                } by {
                    if j < old_diags.len() {
                        assert(diags@[j] == old_diags[j]);
                        assert(failing(c, its.take(k + 1))[j] == before[j]);
                    }
                }
            },
        }
        k += 1;
    }
    assert(its.take(items@.len() as int) =~= its);
    (exprs, diags)
}


/// The variables of a `forall` header: their names, and the parameters they declare.
fn header_params(h: &String) -> (res: (Vec<String>, Vec<Param>))
    requires
        is_header(h@),
    ensures
        names(res.0@) == header_vars(h@).map_values(|v: (Seq<char>, Seq<char>)| v.0),
        res.1@.len() == header_vars(h@).len(),
        forall|j: int|
            0 <= j < header_vars(h@).len() ==> (#[trigger] res.1@[j]).name@ == header_vars(h@)[j].0
                && res.1@[j].type_text@ == header_vars(h@)[j].1,
{
    let vars = header_variables(h);
    let ghost hv = header_vars(h@);
    let mut ns: Vec<String> = Vec::new();
    let mut ps: Vec<Param> = Vec::new();
    let mut k: usize = 0;
    while k < vars.len()
        invariant
            k <= vars@.len(),
            hv == header_vars(h@),
            pair_texts(vars@) == hv,
            names(ns@) == hv.take(k as int).map_values(|v: (Seq<char>, Seq<char>)| v.0),
            ps@.len() == k,
            forall|j: int| 0 <= j < k ==> (#[trigger] ps@[j]).name@ == hv[j].0 && ps@[j].type_text@ == hv[j].1,
        decreases vars@.len() - k,
    {
        assert(hv[k as int] == (vars@[k as int].0@, vars@[k as int].1@));
        let ghost before = names(ns@);
        let n = vars[k].0.clone();
        ns.push(n);
        assert(names(ns@) =~= before.push(hv[k as int].0));
        assert(hv.take(k + 1).map_values(|v: (Seq<char>, Seq<char>)| v.0) =~= hv.take(k as int).map_values(|v: (Seq<char>, Seq<char>)| v.0).push(hv[k as int].0));
        ps.push(Param { name: vars[k].0.clone(), type_text: vars[k].1.clone() });
        k += 1;
    }
    assert(hv.take(vars@.len() as int) =~= hv);
    (ns, ps)
}

/// The error for a property that does not lower.
fn property_error(f: &Function, number: usize, error: &str, expression: &str) -> (res: Diagnostic)
    ensures
        lowering_error(res, *f, stage_prefix("sampled property"@, number as nat, *f)),
        res.data@.len() == 3,
        res.data@[1].0@ == "property_index"@,
        res.data@[1].1@ == decimal(number as nat),
        res.data@[2].0@ == "property"@,
        res.data@[2].1@ == expression@,
{
    let n = usize_text(number);
    let d = stage_error(f, "sampled property", number, error, "property_index", n.as_str());
    let d2 = d.with_data("property", expression);
    assert(d2.data@[0] == d.data@[0]);
    assert(d2.data@[1] == d.data@[1]);
    d2
}

/// Lowers the property blocks of a function; an error for each that fails.
fn lower_properties(f: &Function, env: &Env) -> (res: (Vec<IrProperty>, Vec<Diagnostic>))
    ensures
        property_reports(res.1@, *f, property_items(*f), failing(env_ctx(*env), property_items(*f))),
        failing(env_ctx(*env), property_items(*f)).len() == 0 ==> {
            &&& res.0@.len() == property_items(*f).len()
            &&& forall|k: int| 0 <= k < res.0@.len() ==> property_as(#[trigger] res.0@[k], env_ctx(*env), *f, k)
        },
{
    let ghost c = env_ctx(*env);
    let ghost ls = texts(f.properties@);
    let ghost its = property_items(*f);
    let ranges = property_block_ranges(&f.properties);
    let mut props: Vec<IrProperty> = Vec::new();
    let mut diags: Vec<Diagnostic> = Vec::new();
    let mut k: usize = 0;
    while k < ranges.len()
        invariant
            k <= ranges@.len(),
            c == env_ctx(*env),
            ls == texts(f.properties@),
            its == property_items(*f),
            its.len() == ranges@.len(),
            ranges@.len() == block_ranges(ls, 0).len(),
            forall|j: int|
                0 <= j < ranges@.len() ==> (#[trigger] ranges@[j]).0 as int == block_ranges(ls, 0)[j].0
                    && ranges@[j].1 as int == block_ranges(ls, 0)[j].1 && ranges@[j].1 < f.properties@.len()
                    && ranges@[j].1 == ranges@[j].0 + 1,
            diags@.len() == failing(c, its.take(k as int)).len(),
            forall|j: int| 0 <= j < diags@.len() ==> 0 <= #[trigger] failing(c, its.take(k as int))[j] < k,
            forall|j: int|
                0 <= j < diags@.len() ==> {
                    &&& lowering_error(#[trigger] diags@[j], *f, stage_prefix("sampled property"@, (failing(c, its.take(k as int))[j] + 1) as nat, *f))
                    &&& diags@[j].data@.len() == 3
                    &&& diags@[j].data@[1].0@ == "property_index"@
                    &&& diags@[j].data@[1].1@ == decimal((failing(c, its.take(k as int))[j] + 1) as nat)
                    &&& diags@[j].data@[2].0@ == "property"@
                    &&& diags@[j].data@[2].1@ == its[failing(c, its.take(k as int))[j]].0
                },
            failing(c, its.take(k as int)).len() == 0 ==> {
                &&& props@.len() == k
                &&& forall|m: int| 0 <= m < k ==> property_as(#[trigger] props@[m], c, *f, m)
            },
        decreases ranges@.len() - k,
    {
        proof {
            assert(its.take(k + 1).drop_last() =~= its.take(k as int));
            assert(its.take(k + 1).last() == its[k as int]);
            crate::checks::lemma_block_header(ls, 0, k as int);
        }
        let (h, b) = ranges[k];
        assert(ls[h as int] == f.properties@[h as int]@);
        assert(ls[b as int] == f.properties@[b as int]@);
        let (ns, params) = header_params(&f.properties[h]);
        let expression = trim_str(f.properties[b].as_str());
        assert(its[k as int] == (trim(ls[b as int]), header_vars(ls[h as int]).map_values(|v: (Seq<char>, Seq<char>)| v.0)));
        let ghost before = failing(c, its.take(k as int));
        let ghost old_diags = diags@;
        let ghost old_props = props@;
        let r = lower_in(expression.as_str(), ns, env);
        match r {
            Ok(e) => {
                let line = if h < f.property_lines.len() { f.property_lines[h] } else { f.line };
                props.push(IrProperty { index: k + 1, line, variables: params, expression: e });
                assert(failing(c, its.take(k + 1)) == before);
                proof {
                    if before.len() == 0 {
                        assert forall|m: int| 0 <= m < k + 1 implies property_as(#[trigger] props@[m], c, *f, m) by {
                            if m < k {
                                assert(props@[m] == old_props[m]);
                            }
                        }
                    }
                }
            },
            Err(err) => {
                let d = property_error(f, k + 1, err.as_str(), expression.as_str());
                diags.push(d);
                assert(failing(c, its.take(k + 1)) == before.push(k as int));
                assert forall|j: int| 0 <= j < diags@.len() implies {
                    &&& lowering_error(#[trigger] diags@[j], *f, stage_prefix("sampled property"@, (failing(c, its.take(k + 1))[j] + 1) as nat, *f))
                    &&& diags@[j].data@.len() == 3
                    &&& diags@[j].data@[1].0@ == "property_index"@
                    &&& diags@[j].data@[1].1@ == decimal((failing(c, its.take(k + 1))[j] + 1) as nat)
                    &&& diags@[j].data@[2].0@ == "property"@
                    &&& diags@[j].data@[2].1@ == its[failing(c, its.take(k + 1))[j]].0
                } by {
                    if j < old_diags.len() {
                        assert(diags@[j] == old_diags[j]);
                        assert(failing(c, its.take(k + 1))[j] == before[j]);
                    }
                }
            },
        }
        k += 1;
    }
    assert(its.take(ranges@.len() as int) =~= its);
    (props, diags)
}


/// Lowers one public function, or reports why it cannot be.
fn lower_function(f: &Function, env: &Env) -> (res: Result<IrFunction, Vec<Diagnostic>>)
    requires
        f.public,
    ensures
        match res {
            Ok(irf) => lowerable(env_ctx(*env), *f) && fn_lowered_as(irf, env_ctx(*env), *f),
            Err(ds) => !lowerable(env_ctx(*env), *f) && fn_reports(ds@, env_ctx(*env), *f)
                && ds@.len() == report_count(env_ctx(*env), *f),
        },
{
    let ghost c = env_ctx(*env);
    let implementation = match &f.implementation {
        Some(i) => i,
        None => {
            let mut m = owned("Function `");
            m.append(f.name.as_str());
            m.append("` has no implementation to lower to IR.");
            let d = Diagnostic::error("IrLoweringError", m.as_str(), Some(f.target()));
            let mut v: Vec<Diagnostic> = Vec::new();
            v.push(d);
            return Err(v);
        },
    };
    let params = parameter_names(f);
    let (pre, d1) = lower_items(&f.requires, &params, env, f, "precondition", "requires");
    if d1.len() > 0 {
        return Err(d1);
    }
    let mut cparams = parameter_names(f);
    let ghost pn = names(cparams@);
    cparams.push(owned("result"));
    assert(names(cparams@) =~= pn.push("result"@));
    let (post, d2) = lower_items(&f.contracts, &cparams, env, f, "postcondition", "ensures");
    if d2.len() > 0 {
        return Err(d2);
    }
    let none: Vec<String> = Vec::new();
    assert(names(none@) =~= Seq::<Seq<char>>::empty());
    let (examples, d3) = lower_items(&f.examples, &none, env, f, "example", "example");
    if d3.len() > 0 {
        return Err(d3);
    }
    let (properties, d4) = lower_properties(f, env);
    if d4.len() > 0 {
        return Err(d4);
    }
    let body = match lower_in(implementation.as_str(), parameter_names(f), env) {
        Ok(b) => b,
        Err(err) => {
            let mut m = owned("Could not lower implementation for `");
            m.append(f.name.as_str());
            m.append("` to portable IR: ");
            let ghost prefix = m@;
            m.append(err.as_str());
            assert(m@.take(prefix.len() as int) =~= prefix);
            let sym = f.symbol();
            let d = Diagnostic::error("IrLoweringError", m.as_str(), Some(f.target()));
            let d = d.with_data("symbol", sym.as_str());
            let d2 = d.with_data("implementation", implementation.as_str());
            assert(d2.data@[0] == d.data@[0]);
            let mut v: Vec<Diagnostic> = Vec::new();
            v.push(d2);
            return Err(v);
        },
    };
    let mut example_lines: Vec<usize> = Vec::new();
    let mut k: usize = 0;
    while k < f.examples.len()
        invariant
            k <= f.examples@.len(),
            example_lines@.len() == k,
            forall|j: int|
                0 <= j < k ==> #[trigger] example_lines@[j] == (if j < f.example_lines@.len() {
                    f.example_lines@[j]
                } else {
                    f.line
                }),
        decreases f.examples@.len() - k,
    {
        let line = if k < f.example_lines.len() { f.example_lines[k] } else { f.line };
        example_lines.push(line);
        k += 1;
    }
    Ok(IrFunction {
        symbol: f.symbol(),
        module: f.module.clone(),
        name: f.name.clone(),
        version: owned(f.version()),
        source_path: f.source_path.clone(),
        line: f.line,
        params: copy_params(&f.params),
        return_type: f.return_type.clone(),
        effects: copy_strings(&f.effects),
        requires: pre,
        ensures: post,
        examples,
        example_lines,
        properties,
        body,
    })
}


/// Lowers a checked program to the portable IR. The program is checked first (with the
/// parse diagnostics, the project's architecture and the near-duplicate intent warnings);
/// when the check finds an error nothing is lowered. Otherwise each public function is
/// lowered, and the program exists only when none of them failed.
pub fn lower_checked_program(
    program: &Program,
    parse_diagnostics: Vec<Diagnostic>,
    architecture: &Architecture,
    near_duplicates: Vec<Option<Diagnostic>>,
) -> (res: IrSummary)
    requires
        near_warnings_ok(program.functions@, near_duplicates@),
        program.functions@.len() < usize::MAX,
        example_count(program.functions@, program.functions@.len() as int) <= usize::MAX,
        property_count(program.functions@, program.functions@.len() as int) <= usize::MAX,
    ensures
        checked(res.check_summary, *program, parse_diagnostics@, *architecture, near_duplicates@),
        res.check_summary.functions == program.functions@.len(),
        res.check_summary.holes == hole_count(program.functions@, program.functions@.len() as int),
        res.check_summary.examples == example_count(program.functions@, program.functions@.len() as int),
        res.check_summary.properties == property_count(program.functions@, program.functions@.len() as int),
        exists|ins: Seq<Function>| is_intrinsic_list(ins) && #[trigger] lowering_holds(res, *program, ins),
{
    let check_summary = check_program(program, parse_diagnostics, architecture, near_duplicates);
    let ghost cd = check_summary.diagnostics@;
    let mut diagnostics = copy_diagnostics(&check_summary.diagnostics);
    let intrinsics = intrinsic_functions();
    let ghost ins = intrinsics@;
    if has_errors(&diagnostics) {
        proof {
            let k = choose|k: int| 0 <= k < diagnostics@.len() && #[trigger] diagnostics@[k].severity == Severity::Error;
            assert(same_diagnostic(diagnostics@[k], cd[k]));
            assert(cd[k].severity == Severity::Error);
        }
        let res = IrSummary { diagnostics, check_summary, ir: None };
        assert(lowering_holds(res, *program, ins));
        return res;
    }
    let env = Env { functions: program.functions.as_slice(), intrinsics: intrinsics.as_slice(), types: program.types.as_slice() };
    let ghost c = env_ctx(env);
    let ghost fs = program.functions@;
    let ghost base = diagnostics@.len() as int;
    proof {
        assert forall|k: int| 0 <= k < cd.len() implies cd[k].severity != Severity::Error by {
            assert(same_diagnostic(diagnostics@[k], cd[k]));
        }
    }
    let mut functions: Vec<IrFunction> = Vec::new();
    let mut i: usize = 0;
    assert(fs.take(0) =~= Seq::<Function>::empty());
    while i < program.functions.len()
        invariant
            i <= fs.len(),
            fs == program.functions@,
            c == env_ctx(env),
            c == (LowerCtx { fs, ins, types: program.types@ }),
            base == cd.len(),
            cd == check_summary.diagnostics@,
            forall|k: int| 0 <= k < cd.len() ==> cd[k].severity != Severity::Error,
            diagnostics@.len() == base + report_offset(c, fs, i as int),
            forall|k: int| 0 <= k < base ==> same_diagnostic(#[trigger] diagnostics@[k], cd[k]),
            forall|n: int| 0 <= n < i ==> fn_reports(#[trigger] fn_slice(diagnostics@, c, fs, base, n), c, fs[n]),
            forall|k: int| base <= k < diagnostics@.len() ==> (#[trigger] diagnostics@[k]).severity == Severity::Error,
            functions@.len() == lowered_fns(c, fs.take(i as int)).len(),
            forall|k: int| 0 <= k < functions@.len() ==> fn_lowered_as(#[trigger] functions@[k], c, lowered_fns(c, fs.take(i as int))[k]),
        decreases fs.len() - i,
    {
        proof {
            assert(fs.take(i + 1).drop_last() =~= fs.take(i as int));
            assert(fs.take(i + 1).last() == fs[i as int]);
        }
        let ghost old_diags = diagnostics@;
        let ghost old_fns = functions@;
        let f = &program.functions[i];
        if f.public {
            match lower_function(f, &env) {
                Ok(irf) => {
                    functions.push(irf);
                    assert(report_count(c, fs[i as int]) == 0);
                    assert(diagnostics@ == old_diags);
                    proof {
                        assert forall|k: int| 0 <= k < functions@.len() implies fn_lowered_as(#[trigger] functions@[k], c, lowered_fns(c, fs.take(i + 1))[k]) by {
                            if k < old_fns.len() {
                                assert(functions@[k] == old_fns[k]);
                            }
                        }
                        assert(fn_slice(diagnostics@, c, fs, base, i as int) =~= Seq::<Diagnostic>::empty());
                    }
                },
                Err(ds) => {
                    let mut ds = ds;
                    let ghost added = ds@;
                    proof {
                        lemma_reports_errors(added, c, fs[i as int]);
                    }
                    diagnostics.append(&mut ds);
                    assert(diagnostics@ =~= old_diags + added);
                    proof {
                        assert(fn_slice(diagnostics@, c, fs, base, i as int) =~= added);
                        assert forall|n: int| 0 <= n < i + 1 implies fn_reports(#[trigger] fn_slice(diagnostics@, c, fs, base, n), c, fs[n]) by {
                            if n < i {
                                lemma_offset_mono(c, fs, n + 1, i as int);
                                lemma_offset_mono(c, fs, n, n + 1);
                                assert(fn_slice(diagnostics@, c, fs, base, n) =~= fn_slice(old_diags, c, fs, base, n));
                            }
                        }
                        assert forall|k: int| base <= k < diagnostics@.len() implies (#[trigger] diagnostics@[k]).severity == Severity::Error by {
                            if k < old_diags.len() {
                                assert(diagnostics@[k] == old_diags[k]);
                            } else {
                                assert(diagnostics@[k] == added[k - old_diags.len()]);
                            }
                        }
                        assert forall|k: int| 0 <= k < base implies same_diagnostic(#[trigger] diagnostics@[k], cd[k]) by {
                            assert(diagnostics@[k] == old_diags[k]);
                        }
                    }
                },
            }
        } else {
            proof {
                assert(fn_slice(diagnostics@, c, fs, base, i as int) =~= Seq::<Diagnostic>::empty());
            }
        }
        i += 1;
    }
    assert(fs.take(fs.len() as int) =~= fs);
    let erroneous = has_errors(&diagnostics);
    proof {
        if report_offset(c, fs, fs.len() as int) == 0 {
            assert forall|k: int| 0 <= k < diagnostics@.len() implies (#[trigger] diagnostics@[k]).severity != Severity::Error by {
                assert(same_diagnostic(diagnostics@[k], cd[k]));
            }
        } else {
            assert(diagnostics@[base].severity == Severity::Error);
        }
    }
    let ir = if erroneous {
        None
    } else {
        Some(IrProgram { version: owned("serow.ir.v0"), types: copy_types(&program.types), functions })
    };
    let res = IrSummary { diagnostics, check_summary, ir };
    assert(lowering_holds(res, *program, ins));
    res
}


/// Some function among the first `n` has errors reported when the first `n` report any.
proof fn lemma_some_report(c: LowerCtx, fs: Seq<Function>, n: int) -> (k: int)
    requires
        0 <= n <= fs.len(),
        report_offset(c, fs, n) > 0,
    ensures
        0 <= k < n,
        report_count(c, fs[k]) > 0,
    decreases n,
{
    if report_offset(c, fs, n - 1) > 0 {
        lemma_some_report(c, fs, n - 1)
    } else {
        n - 1
    }
}

/// Lowering yields a program exactly when it reports no error: the check's errors stop it,
/// and every problem lowering itself finds is an error.
pub proof fn law_program_iff_no_errors(res: IrSummary, p: Program, ins: Seq<Function>)
    requires
        lowering_holds(res, p, ins),
    ensures
        res.ir is Some <==> !any_error(res.diagnostics@),
{
    let c = LowerCtx { fs: p.functions@, ins, types: p.types@ };
    let fs = p.functions@;
    let cd = res.check_summary.diagnostics@;
    let ds = res.diagnostics@;
    if any_error(cd) {
        let k = choose|k: int| 0 <= k < cd.len() && #[trigger] cd[k].severity == Severity::Error;
        assert(same_diagnostic(ds[k], cd[k]));
    } else if report_offset(c, fs, fs.len() as int) == 0 {
        assert forall|k: int| 0 <= k < ds.len() implies #[trigger] ds[k].severity != Severity::Error by {
            assert(same_diagnostic(ds[k], cd[k]));
        }
    } else {
        let n = lemma_some_report(c, fs, fs.len() as int);
        let base = cd.len() as int;
        let slice = fn_slice(ds, c, fs, base, n);
        assert(fn_reports(slice, c, fs[n]));
        lemma_reports_errors(slice, c, fs[n]);
        lemma_offset_mono(c, fs, n + 1, fs.len() as int);
        assert(slice[0] == ds[base + report_offset(c, fs, n)]);
        assert(ds[base + report_offset(c, fs, n)].severity == Severity::Error);
    }
}

} // verus!
