//! Comparing one changed public function with its baseline: which calls reach it, how its
//! implementation changed, and which executable evidence covers its dependents.
use vstd::prelude::*;
use vstd::string::*;

use crate::eval::{call_names, called_functions, matching, raw_names, resolve_in, resolves_to};
use crate::intrinsics::{is_intrinsic_list};
use crate::ir::IrExpr;
use crate::json::{ir_expr_json, json_of};
use crate::ledger::{CallSite, ImpactDependent};
use crate::lowering::{lower_expression, lower_result, param_names, LowerCtx};
use crate::model::{same_function, symbol_text, Function, Program};
use crate::patch::{is_header, texts};
use crate::plan::{normalized, normalized_lines, ImpactEvidenceCoverage, ImplementationChange};
use crate::text::{chars_of, join_spec, join_strings, lines_of, lines_spec, owned, str_eq, trim, trim_str};
use crate::ledger::strings_of;

verus! {

// ---------------------------------------------------------------------------
// The baseline of a symbol
// ---------------------------------------------------------------------------
/// The baseline function with symbol `sym`: the last one listed with it.
pub open spec fn baseline_of(base: Seq<Function>, sym: Seq<char>) -> Option<Function>
    decreases base.len(),
{
    if base.len() == 0 {
        None
    } else if symbol_text(base.last()) == sym {
        Some(base.last())
    } else {
        baseline_of(base.drop_last(), sym)
    }
}

/// The position of the baseline function with symbol `sym`, if there is one.
pub fn find_baseline(base: &Vec<Function>, sym: &str) -> (res: Option<usize>)
    ensures
        match (res, baseline_of(base@, sym@)) {
            (Some(k), Some(g)) => k < base@.len() && base@[k as int] == g,
            (None, None) => true,
            _ => false,
        },
{
    let mut n: usize = base.len();
    assert(base@.take(base@.len() as int) =~= base@);
    while n > 0
        invariant
            n <= base@.len(),
            baseline_of(base@, sym@) == baseline_of(base@.take(n as int), sym@),
        decreases n,
    {
        let s = base[n - 1].symbol();
        assert(base@.take(n as int).drop_last() =~= base@.take(n - 1));
        assert(base@.take(n as int).last() == base@[n - 1]);
        if str_eq(s.as_str(), sym) {
            return Some(n - 1);
        }
        n -= 1;
    }
    assert(base@.take(0) =~= Seq::<Function>::empty());
    None
}

// ---------------------------------------------------------------------------
// Calls that reach a symbol
// ---------------------------------------------------------------------------
/// The symbol a reference resolves to, among the functions first, then the intrinsics.
pub open spec fn resolved_symbol(fs: Seq<Function>, ins: Seq<Function>, text: Seq<char>) -> Option<Seq<char>> {
    let m = matching(fs, text);
    let im = matching(ins, text);
    if m.len() == 1 {
        Some(symbol_text(m[0]))
    } else if m.len() > 1 {
        None
    } else if im.len() == 1 {
        Some(symbol_text(im[0]))
    } else {
        None
    }
}

/// The expression tokenizes and one of its calls resolves to `sym`.
pub open spec fn calls_symbol(text: Seq<char>, sym: Seq<char>, fs: Seq<Function>, ins: Seq<Function>) -> bool {
    match call_names(text) {
        Ok(names) => exists|k: int| 0 <= k < names.len() && resolved_symbol(fs, ins, #[trigger] names[k]) == Some(sym),
        Err(_) => false,
    }
}

proof fn lemma_resolved(res: Result<Function, String>, text: Seq<char>, fs: Seq<Function>, ins: Seq<Function>)
    requires
        resolves_to(res, text, fs, ins),
    ensures
        res is Ok <==> resolved_symbol(fs, ins, text) is Some,
        res is Ok ==> resolved_symbol(fs, ins, text) == Some(symbol_text(res->Ok_0)),
{
}

/// Whether one of the calls of `expression` resolves to `symbol`.
pub fn expression_calls_symbol(expression: &str, symbol: &str, fs: &Vec<Function>, ins: &Vec<Function>) -> (res: bool)
    ensures
        res == calls_symbol(expression@, symbol@, fs@, ins@),
{
    match called_functions(expression) {
        Err(_) => false,
        Ok(calls) => {
            let ghost names = call_names(expression@)->Ok_0;
            let mut k: usize = 0;
            while k < calls.len()
                invariant
                    k <= calls@.len(),
                    call_names(expression@) is Ok,
                    names == call_names(expression@)->Ok_0,
                    raw_names(calls@) == names,
                    forall|j: int| 0 <= j < k ==> resolved_symbol(fs@, ins@, #[trigger] names[j]) != Some(symbol@),
                decreases calls@.len() - k,
            {
                let r = resolve_in(calls[k].raw.as_str(), fs.as_slice(), ins.as_slice());
                proof {
                    lemma_resolved(r, calls@[k as int].raw@, fs@, ins@);
                    assert(names[k as int] == calls@[k as int].raw@);
                }
                match r {
                    Ok(g) => {
                        let s = g.symbol();
                        if str_eq(s.as_str(), symbol) {
                            return true;
                        }
                    },
                    Err(_) => {},
                }
                k += 1;
            }
            false
        },
    }
}

// ---------------------------------------------------------------------------
// Implementation changes
// ---------------------------------------------------------------------------
/// An implementation with its lines trimmed and the blank ones dropped.
pub open spec fn norm_impl(i: Option<String>) -> Seq<char> {
    match i {
        Some(s) => join_spec(normalized(lines_spec(s@)), "\n"@),
        None => seq![],
    }
}

pub fn normalized_implementation(i: &Option<String>) -> (res: String)
    ensures
        res@ == norm_impl(*i),
{
    match i {
        None => String::new(),
        Some(s) => {
            let cs = chars_of(s.as_str());
            let ls = lines_of(&cs);
            let strs = strings_of(&ls);
            assert(texts(strs@) =~= lines_spec(s@));
            let n = normalized_lines(&strs);
            join_strings(n.as_slice(), "\n")
        },
    }
}

/// The program's functions with each one of `b`'s symbol replaced by `b`.
pub open spec fn with_baseline(fs: Seq<Function>, b: Function) -> Seq<Function> {
    fs.map_values(|g: Function| if symbol_text(g) == symbol_text(b) { b } else { g })
}

pub fn functions_with(fs: &Vec<Function>, b: &Function) -> (res: Vec<Function>)
    ensures
        res@.len() == fs@.len(),
        forall|k: int| 0 <= k < fs@.len() ==> same_function(#[trigger] res@[k], with_baseline(fs@, *b)[k]),
{
    let bs = b.symbol();
    let mut out: Vec<Function> = Vec::new();
    let mut k: usize = 0;
    while k < fs.len()
        invariant
            k <= fs@.len(),
            bs@ == symbol_text(*b),
            out@.len() == k,
            forall|j: int| 0 <= j < k ==> same_function(#[trigger] out@[j], with_baseline(fs@, *b)[j]),
        decreases fs@.len() - k,
    {
        let s = fs[k].symbol();
        if str_eq(s.as_str(), bs.as_str()) {
            out.push(b.copy());
        } else {
            out.push(fs[k].copy());
        }
        k += 1;
    }
    out
}

/// Two lists of the same functions, field by field.
pub open spec fn same_list(x: Seq<Function>, y: Seq<Function>) -> bool {
    x.len() == y.len() && forall|k: int| 0 <= k < x.len() ==> same_function(#[trigger] x[k], y[k])
}

/// The implementation of `f` lowers to `e` against the program with `f` in place of each
/// function of its symbol.
pub open spec fn lowers_to(f: Function, p: Program, e: IrExpr) -> bool {
    exists|fs: Seq<Function>, ins: Seq<Function>|
        same_list(fs, with_baseline(p.functions@, f)) && is_intrinsic_list(ins) && #[trigger] lower_result(
            Ok(e),
            LowerCtx { fs, ins, types: p.types@ },
            norm_impl(f.implementation),
            param_names(f),
        )
}

/// Both implementations lower, each against the program with it in place, to expressions
/// with the same rendering.
pub open spec fn same_lowering(b: Function, a: Function, p: Program) -> bool {
    exists|eb: IrExpr, ea: IrExpr| #[trigger] lowers_to(b, p, eb) && #[trigger] lowers_to(a, p, ea) && json_of(eb) == json_of(ea)
}

/// How the implementation of `after` differs from that of `before`: `None` when the
/// normalized texts are the same, or when both lower to expressions with the same
/// rendering; else both normalized texts.
pub fn implementation_change(before: &Function, after: &Function, program: &Program) -> (res: Option<ImplementationChange>)
    ensures
        norm_impl(before.implementation) == norm_impl(after.implementation) ==> res is None,
        res is Some ==> res->0.before@ == norm_impl(before.implementation) && res->0.after@ == norm_impl(
            after.implementation,
        ),
        res is None && norm_impl(before.implementation) != norm_impl(after.implementation) ==> same_lowering(
            *before,
            *after,
            *program,
        ),
{
    let bt = normalized_implementation(&before.implementation);
    let at = normalized_implementation(&after.implementation);
    if str_eq(bt.as_str(), at.as_str()) {
        return None;
    }
    let bfs = functions_with(&program.functions, before);
    let afs = functions_with(&program.functions, after);
    let lb = lower_expression(bt.as_str(), before, bfs.as_slice(), program.types.as_slice());
    let la = lower_expression(at.as_str(), after, afs.as_slice(), program.types.as_slice());
    match (lb, la) {
        (Ok(eb), Ok(ea)) => {
            let jb = ir_expr_json(&eb);
            let ja = ir_expr_json(&ea);
            if str_eq(jb.as_str(), ja.as_str()) {
                proof {
                    assert(same_list(bfs@, with_baseline(program.functions@, *before)));
                    assert(same_list(afs@, with_baseline(program.functions@, *after)));
                    assert(lowers_to(*before, *program, eb));
                    assert(lowers_to(*after, *program, ea));
                }
                return None;
            }
        },
        _ => {},
    }
    Some(ImplementationChange { before: bt, after: at })
}

// ---------------------------------------------------------------------------
// Executable evidence that reaches a function
// ---------------------------------------------------------------------------
/// The expression lines of the property blocks: the line after each header, trimmed.
pub open spec fn prop_exprs(ls: Seq<Seq<char>>) -> Seq<Seq<char>>
    decreases ls.len(),
{
    if ls.len() == 0 {
        seq![]
    } else if is_header(ls[0]) {
        if ls.len() > 1 {
            seq![trim(ls[1])] + prop_exprs(ls.skip(2))
        } else {
            seq![]
        }
    } else {
        prop_exprs(ls.skip(1))
    }
}

pub fn property_expressions(lines: &Vec<String>) -> (res: Vec<String>)
    ensures
        texts(res@) == prop_exprs(texts(lines@)),
{
    let ghost ls = texts(lines@);
    let mut out: Vec<String> = Vec::new();
    let mut i: usize = 0;
    assert(ls.skip(0) =~= ls);
    while i < lines.len()
        invariant
            i <= lines@.len(),
            ls == texts(lines@),
            texts(out@) + prop_exprs(ls.skip(i as int)) == prop_exprs(ls),
        decreases lines@.len() - i,
    {
        let t = chars_of(trim_str(lines[i].as_str()).as_str());
        let head = crate::text::has_prefix_str(&t, "forall ") && crate::text::has_suffix_str(&t, ":");
        let ghost rest = ls.skip(i as int);
        assert(rest[0] == ls[i as int]);
        if head {
            assert(is_header(rest[0]));
            if i + 1 < lines.len() {
                let e = trim_str(lines[i + 1].as_str());
                let ghost before = texts(out@);
                out.push(e);
                assert(rest[1] == ls[i + 1]);
                assert(rest.skip(2) =~= ls.skip(i + 2));
                assert(texts(out@) =~= before + seq![trim(rest[1])]);
                assert(texts(out@) + prop_exprs(ls.skip(i + 2)) =~= before + (seq![trim(rest[1])] + prop_exprs(rest.skip(2))));
                i += 2;
                if i == lines.len() {
                    assert(ls.skip(i as int) =~= Seq::<Seq<char>>::empty());
                }
            } else {
                assert(prop_exprs(rest) == Seq::<Seq<char>>::empty());
                i = lines.len();
                assert(ls.skip(i as int) =~= Seq::<Seq<char>>::empty());
            }
        } else {
            assert(!is_header(rest[0]));
            assert(rest.skip(1) =~= ls.skip(i + 1));
            i += 1;
        }
    }
    assert(ls.skip(i as int) =~= Seq::<Seq<char>>::empty());
    assert(texts(out@) + Seq::<Seq<char>>::empty() =~= texts(out@));
    out
}

/// A call site as plain values: its context and its expression.
pub open spec fn site_view(c: CallSite) -> (Seq<char>, Seq<char>) {
    (c.context@, c.expression@)
}

pub open spec fn site_views(v: Seq<CallSite>) -> Seq<(Seq<char>, Seq<char>)> {
    v.map_values(|c: CallSite| site_view(c))
}

/// The executable evidence of a function: its examples, then its property expressions.
pub open spec fn evidence_sites(f: Function) -> Seq<(Seq<char>, Seq<char>)> {
    texts(f.examples@).map_values(|e: Seq<char>| ("example"@, e)) + prop_exprs(texts(f.properties@)).map_values(
        |e: Seq<char>| ("property"@, e),
    )
}

/// The sites whose expression calls `sym`, in order.
pub open spec fn calling(sites: Seq<(Seq<char>, Seq<char>)>, sym: Seq<char>, fs: Seq<Function>, ins: Seq<Function>) -> Seq<(Seq<char>, Seq<char>)>
    decreases sites.len(),
{
    if sites.len() == 0 {
        seq![]
    } else if calls_symbol(sites.last().1, sym, fs, ins) {
        calling(sites.drop_last(), sym, fs, ins).push(sites.last())
    } else {
        calling(sites.drop_last(), sym, fs, ins)
    }
}

fn sites_of(context: &str, v: &Vec<String>, out: &mut Vec<CallSite>)
    ensures
        site_views(final(out)@) == site_views(old(out)@) + texts(v@).map_values(|e: Seq<char>| (context@, e)),
{
    let ghost start = site_views(out@);
    let ghost full = texts(v@).map_values(|e: Seq<char>| (context@, e));
    let mut i: usize = 0;
    while i < v.len()
        invariant
            i <= v@.len(),
            full == texts(v@).map_values(|e: Seq<char>| (context@, e)),
            site_views(out@) == start + full.take(i as int),
        decreases v@.len() - i,
    {
        let ghost before = site_views(out@);
        out.push(CallSite { context: owned(context), expression: owned(v[i].as_str()) });
        assert(site_views(out@) =~= before.push(full[i as int]));
        assert(full.take(i + 1) =~= full.take(i as int).push(full[i as int]));
        i += 1;
    }
    assert(full.take(v@.len() as int) =~= full);
}

fn all_evidence_sites(f: &Function) -> (res: Vec<CallSite>)
    ensures
        site_views(res@) == evidence_sites(*f),
{
    let mut all: Vec<CallSite> = Vec::new();
    sites_of("example", &f.examples, &mut all);
    let props = property_expressions(&f.properties);
    sites_of("property", &props, &mut all);
    assert(site_views(all@) =~= evidence_sites(*f));
    all
}

fn filter_calling(all: &Vec<CallSite>, symbol: &str, fs: &Vec<Function>, ins: &Vec<Function>) -> (res: Vec<CallSite>)
    ensures
        site_views(res@) == calling(site_views(all@), symbol@, fs@, ins@),
{
    let ghost sv = site_views(all@);
    let mut out: Vec<CallSite> = Vec::new();
    let mut i: usize = 0;
    assert(sv.take(0) =~= Seq::<(Seq<char>, Seq<char>)>::empty());
    while i < all.len()
        invariant
            i <= all@.len(),
            sv == site_views(all@),
            site_views(out@) == calling(sv.take(i as int), symbol@, fs@, ins@),
        decreases all@.len() - i,
    {
        assert(sv.take(i + 1).drop_last() =~= sv.take(i as int));
        assert(sv.take(i + 1).last() == site_view(all@[i as int]));
        if expression_calls_symbol(all[i].expression.as_str(), symbol, fs, ins) {
            let ghost before = site_views(out@);
            out.push(all[i].copy());
            assert(site_views(out@) =~= before.push(site_view(all@[i as int])));
        }
        i += 1;
    }
    assert(sv.take(all@.len() as int) =~= sv);
    out
}

/// The executable evidence of `f` that calls `symbol`.
pub fn executable_evidence_calling(f: &Function, symbol: &str, fs: &Vec<Function>, ins: &Vec<Function>) -> (res: Vec<CallSite>)
    ensures
        site_views(res@) == calling(evidence_sites(*f), symbol@, fs@, ins@),
{
    let all = all_evidence_sites(f);
    filter_calling(&all, symbol, fs, ins)
}

// ---------------------------------------------------------------------------
// Evidence coverage of impacted dependents
// ---------------------------------------------------------------------------
/// The sites of executable evidence among a dependent's call sites, in order.
pub open spec fn evidence_call_sites(v: Seq<CallSite>) -> Seq<(Seq<char>, Seq<char>)>
    decreases v.len(),
{
    if v.len() == 0 {
        seq![]
    } else if v.last().context@ == "example"@ || v.last().context@ == "property"@ {
        evidence_call_sites(v.drop_last()).push(site_view(v.last()))
    } else {
        evidence_call_sites(v.drop_last())
    }
}

/// Some call site of the dependent is in its implementation, preconditions or contract.
pub open spec fn code_call(v: Seq<CallSite>) -> bool {
    exists|k: int|
        0 <= k < v.len() && ((#[trigger] v[k]).context@ == "impl"@ || v[k].context@ == "requires"@ || v[k].context@
            == "contract"@)
}

/// The evidence that covers a dependent's call edge: its own evidence call sites, or, when
/// it has none and calls from code, its evidence that calls the dependent itself.
pub open spec fn impact_sites(d: ImpactDependent, fs: Seq<Function>, ins: Seq<Function>) -> Seq<(Seq<char>, Seq<char>)> {
    let own = evidence_call_sites(d.call_sites@);
    if own.len() == 0 && code_call(d.call_sites@) {
        calling(evidence_sites(d.function), symbol_text(d.function), fs, ins)
    } else {
        own
    }
}

/// The first edge of the dependent's path: the function it calls on the way to the target.
pub open spec fn edge_of(d: ImpactDependent) -> Function {
    if d.path@.len() > 1 {
        d.path@[1]
    } else {
        d.target
    }
}

pub open spec fn impact_reason(d: ImpactDependent, covered: bool) -> Seq<char> {
    if covered {
        "Executable evidence in `"@ + symbol_text(d.function) + "` exercises the call edge to `"@ + symbol_text(
            edge_of(d),
        ) + "`."@
    } else {
        "No executable example or sampled property in `"@ + symbol_text(d.function)
            + "` exercises the call edge to `"@ + symbol_text(edge_of(d)) + "`."@
    }
}

/// `c` is the evidence coverage of impacted dependent `d`.
pub open spec fn coverage_is(c: ImpactEvidenceCoverage, d: ImpactDependent, fs: Seq<Function>, ins: Seq<Function>) -> bool {
    &&& same_function(c.dependent, d.function)
    &&& same_function(c.edge_target, edge_of(d))
    &&& same_function(c.target, d.target)
    &&& c.depth == d.depth
    &&& same_list(c.path@, d.path@)
    &&& site_views(c.coverage@) == impact_sites(d, fs, ins)
    &&& c.covered == (impact_sites(d, fs, ins).len() > 0)
    &&& c.reason@ == impact_reason(d, c.covered)
}

pub fn copy_functions(v: &Vec<Function>) -> (res: Vec<Function>)
    ensures
        same_list(res@, v@),
{
    let mut out: Vec<Function> = Vec::new();
    let mut i: usize = 0;
    while i < v.len()
        invariant
            i <= v@.len(),
            out@.len() == i,
            forall|k: int| 0 <= k < i ==> same_function(#[trigger] out@[k], v@[k]),
        decreases v@.len() - i,
    {
        out.push(v[i].copy());
        i += 1;
    }
    out
}

fn own_evidence_sites(v: &Vec<CallSite>) -> (res: (Vec<CallSite>, bool))
    ensures
        site_views(res.0@) == evidence_call_sites(v@),
        res.1 == code_call(v@),
{
    let mut out: Vec<CallSite> = Vec::new();
    let mut code = false;
    let mut i: usize = 0;
    assert(v@.take(0) =~= Seq::<CallSite>::empty());
    while i < v.len()
        invariant
            i <= v@.len(),
            site_views(out@) == evidence_call_sites(v@.take(i as int)),
            code == code_call(v@.take(i as int)),
        decreases v@.len() - i,
    {
        assert(v@.take(i + 1).drop_last() =~= v@.take(i as int));
        assert(v@.take(i + 1).last() == v@[i as int]);
        let c = v[i].context.as_str();
        if str_eq(c, "example") || str_eq(c, "property") {
            let ghost before = site_views(out@);
            out.push(v[i].copy());
            assert(site_views(out@) =~= before.push(site_view(v@[i as int])));
        }
        let here = str_eq(c, "impl") || str_eq(c, "requires") || str_eq(c, "contract");
        proof {
            if here {
                assert(v@.take(i + 1)[i as int] == v@[i as int]);
            }
            if code_call(v@.take(i + 1)) && !here {
                let k = choose|k: int|
                    0 <= k < v@.take(i + 1).len() && ((#[trigger] v@.take(i + 1)[k]).context@ == "impl"@ || v@.take(i + 1)[k].context@ == "requires"@
                        || v@.take(i + 1)[k].context@ == "contract"@);
                assert(v@.take(i as int)[k] == v@.take(i + 1)[k]);
            }
            if code_call(v@.take(i as int)) {
                let k = choose|k: int|
                    0 <= k < v@.take(i as int).len() && ((#[trigger] v@.take(i as int)[k]).context@ == "impl"@ || v@.take(i as int)[k].context@ == "requires"@
                        || v@.take(i as int)[k].context@ == "contract"@);
                assert(v@.take(i + 1)[k] == v@.take(i as int)[k]);
            }
        }
        code = code || here;
        i += 1;
    }
    assert(v@.take(v@.len() as int) =~= v@);
    (out, code)
}

/// The executable evidence that exercises an impacted dependent's call edge.
pub fn impact_evidence_coverage(d: &ImpactDependent, fs: &Vec<Function>, ins: &Vec<Function>) -> (res: ImpactEvidenceCoverage)
    ensures
        coverage_is(res, *d, fs@, ins@),
{
    let edge = if d.path.len() > 1 {
        d.path[1].copy()
    } else {
        d.target.copy()
    };
    let (own, code) = own_evidence_sites(&d.call_sites);
    let coverage = if own.len() == 0 && code {
        let sym = d.function.symbol();
        executable_evidence_calling(&d.function, sym.as_str(), fs, ins)
    } else {
        own
    };
    let covered = coverage.len() > 0;
    let dsym = d.function.symbol();
    let esym = edge.symbol();
    let mut reason = if covered {
        owned("Executable evidence in `")
    } else {
        owned("No executable example or sampled property in `")
    };
    reason.append(dsym.as_str());
    reason.append("` exercises the call edge to `");
    reason.append(esym.as_str());
    reason.append("`.");
    ImpactEvidenceCoverage {
        dependent: d.function.copy(),
        edge_target: edge,
        target: d.target.copy(),
        depth: d.depth,
        path: copy_functions(&d.path),
        covered,
        coverage,
        reason,
    }
}

} // verus!
