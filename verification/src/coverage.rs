//! What the executable evidence of a changed function shows about it: which added evidence
//! calls it and fails against its baseline implementation, which properties it samples, and
//! whether its implementation uses the arithmetic that its name or intent announces.
use vstd::prelude::*;
use vstd::string::*;

use crate::eval::{call_names, lex, resolution, token_views, tokenize, SpecToken, Token};
use crate::evaluator::{eval_spec, var_store_pub, vars_view, Env, Evaluator};
use crate::evidence::{all_sampled, bind_sample, combos, sample_sets};
use crate::intrinsics::is_intrinsic_list;
use crate::values::{value_view, Val};
use crate::evidence::{cartesian_product, samples_for_type, samples_of};
use crate::ledger::{intent_terms, intent_words, CallSite};
use crate::model::{symbol_text, Function, Program};
use crate::patch::{is_header, texts};
use crate::plan::{normalized, normalized_lines, normalized_properties, normalized_props, ImplementationEvidenceCoverage, PropertyCoverageHint};
use crate::symbols::{calling, expression_calls_symbol, site_view, site_views};
use crate::checks::header_variables;
use crate::text::{chars_of, contains_seq, join_spec, has_prefix_str, has_suffix_str, lines_of, lines_spec, owned, str_eq};
use crate::ledger::strings_of;
use crate::values::Value;

verus! {

// ---------------------------------------------------------------------------
// Evidence added with a changed implementation
// ---------------------------------------------------------------------------
/// The lines of `a` that `b` does not have, in order.
pub open spec fn added_lines(a: Seq<Seq<char>>, b: Seq<Seq<char>>) -> Seq<Seq<char>>
    decreases a.len(),
{
    if a.len() == 0 {
        seq![]
    } else if b.contains(a.last()) {
        added_lines(a.drop_last(), b)
    } else {
        added_lines(a.drop_last(), b).push(a.last())
    }
}

fn added(a: &Vec<String>, b: &Vec<String>) -> (res: Vec<String>)
    ensures
        texts(res@) == added_lines(texts(a@), texts(b@)),
{
    let ghost ta = texts(a@);
    let ghost tb = texts(b@);
    let mut out: Vec<String> = Vec::new();
    let mut i: usize = 0;
    assert(ta.take(0) =~= Seq::<Seq<char>>::empty());
    while i < a.len()
        invariant
            i <= a@.len(),
            ta == texts(a@),
            tb == texts(b@),
            texts(out@) == added_lines(ta.take(i as int), tb),
        decreases a@.len() - i,
    {
        assert(ta.take(i + 1).drop_last() =~= ta.take(i as int));
        assert(ta.take(i + 1).last() == a@[i as int]@);
        let mut found = false;
        let mut j: usize = 0;
        while j < b.len()
            invariant
                j <= b@.len(),
                i < a@.len(),
                tb == texts(b@),
                found == exists|q: int| 0 <= q < j && tb[q] == a@[i as int]@,
            decreases b@.len() - j,
        {
            if str_eq(b[j].as_str(), a[i].as_str()) {
                assert(tb[j as int] == a@[i as int]@);
                found = true;
            }
            j += 1;
        }
        proof {
            if tb.contains(a@[i as int]@) {
                let q = choose|q: int| 0 <= q < tb.len() && tb[q] == a@[i as int]@;
                assert(found);
            }
        }
        if !found {
            let ghost before = texts(out@);
            out.push(owned(a[i].as_str()));
            assert(texts(out@) =~= before.push(a@[i as int]@));
        }
        i += 1;
    }
    assert(ta.take(a@.len() as int) =~= ta);
    out
}

/// The last non-blank line of a property, trimmed.
pub open spec fn property_body(p: Seq<char>) -> Option<Seq<char>> {
    let ls = normalized(lines_spec(p));
    if ls.len() > 0 {
        Some(ls.last())
    } else {
        None
    }
}

/// The property sites of the added properties: the body of each that has one.
pub open spec fn body_sites(ps: Seq<Seq<char>>) -> Seq<(Seq<char>, Seq<char>)>
    decreases ps.len(),
{
    if ps.len() == 0 {
        seq![]
    } else {
        match property_body(ps.last()) {
            Some(b) => body_sites(ps.drop_last()).push(("property"@, b)),
            None => body_sites(ps.drop_last()),
        }
    }
}

fn body_of(p: &String) -> (res: Option<String>)
    ensures
        match (res, property_body(p@)) {
            (Some(r), Some(b)) => r@ == b,
            (None, None) => true,
            _ => false,
        },
{
    let cs = chars_of(p.as_str());
    let ls = lines_of(&cs);
    let strs = strings_of(&ls);
    assert(texts(strs@) =~= lines_spec(p@));
    let n = normalized_lines(&strs);
    if n.len() > 0 {
        let last = n.len() - 1;
        Some(owned(n[last].as_str()))
    } else {
        None
    }
}

fn property_sites(ps: &Vec<String>) -> (res: Vec<CallSite>)
    ensures
        site_views(res@) == body_sites(texts(ps@)),
{
    let ghost tp = texts(ps@);
    let mut out: Vec<CallSite> = Vec::new();
    let mut i: usize = 0;
    assert(tp.take(0) =~= Seq::<Seq<char>>::empty());
    while i < ps.len()
        invariant
            i <= ps@.len(),
            tp == texts(ps@),
            site_views(out@) == body_sites(tp.take(i as int)),
        decreases ps@.len() - i,
    {
        assert(tp.take(i + 1).drop_last() =~= tp.take(i as int));
        assert(tp.take(i + 1).last() == ps@[i as int]@);
        match body_of(&ps[i]) {
            Some(b) => {
                let ghost before = site_views(out@);
                out.push(CallSite { context: owned("property"), expression: b });
                assert(site_views(out@) =~= before.push(("property"@, property_body(ps@[i as int]@)->0)));
            },
            None => {},
        }
        i += 1;
    }
    assert(tp.take(ps@.len() as int) =~= tp);
    out
}

fn example_sites(es: &Vec<String>) -> (res: Vec<CallSite>)
    ensures
        site_views(res@) == texts(es@).map_values(|e: Seq<char>| ("example"@, e)),
{
    let ghost full = texts(es@).map_values(|e: Seq<char>| ("example"@, e));
    let mut out: Vec<CallSite> = Vec::new();
    let mut i: usize = 0;
    while i < es.len()
        invariant
            i <= es@.len(),
            full == texts(es@).map_values(|e: Seq<char>| ("example"@, e)),
            site_views(out@) == full.take(i as int),
        decreases es@.len() - i,
    {
        let ghost before = site_views(out@);
        out.push(CallSite { context: owned("example"), expression: owned(es[i].as_str()) });
        assert(site_views(out@) =~= before.push(full[i as int]));
        assert(full.take(i + 1) =~= full.take(i as int).push(full[i as int]));
        i += 1;
    }
    assert(full.take(es@.len() as int) =~= full);
    out
}

fn calling_sites(all: Vec<CallSite>, symbol: &str, fs: &Vec<Function>, ins: &Vec<Function>) -> (res: Vec<CallSite>)
    ensures
        site_views(res@) == calling(site_views(all@), symbol@, fs@, ins@),
{
    let ghost sv = site_views(all@);
    let mut out: Vec<CallSite> = Vec::new();
    let mut i: usize = 0;
    assert(sv.take(0) =~= Seq::<(Seq<char>, Seq<char>)>::empty());
    while i < all.len()
        invariant
            i <= all@.len(),
            sv == site_views(all@),
            site_views(out@) == calling(sv.take(i as int), symbol@, fs@, ins@),
        decreases all@.len() - i,
    {
        assert(sv.take(i + 1).drop_last() =~= sv.take(i as int));
        assert(sv.take(i + 1).last() == site_view(all@[i as int]));
        if expression_calls_symbol(all[i].expression.as_str(), symbol, fs, ins) {
            let ghost before = site_views(out@);
            out.push(all[i].copy());
            assert(site_views(out@) =~= before.push(site_view(all@[i as int])));
        }
        i += 1;
    }
    assert(sv.take(all@.len() as int) =~= sv);
    out
}

/// The examples of `after` that `before` does not have, normalized.
pub open spec fn added_examples(before: Function, after: Function) -> Seq<Seq<char>> {
    added_lines(normalized(texts(after.examples@)), normalized(texts(before.examples@)))
}

/// The properties of `after` that `before` does not have, normalized.
pub open spec fn added_properties(before: Function, after: Function) -> Seq<Seq<char>> {
    added_lines(normalized_props(texts(after.properties@)), normalized_props(texts(before.properties@)))
}

/// The added evidence that calls `after`: the added examples, then the bodies of the added
/// properties, that call its symbol.
pub open spec fn added_coverage(before: Function, after: Function, fs: Seq<Function>, ins: Seq<Function>) -> Seq<(Seq<char>, Seq<char>)> {
    calling(added_examples(before, after).map_values(|e: Seq<char>| ("example"@, e)), symbol_text(after), fs, ins)
        + calling(body_sites(added_properties(before, after)), symbol_text(after), fs, ins)
}

pub open spec fn coverage_reason(after: Function, covered: bool, none_added: bool) -> Seq<char> {
    if covered {
        "Added executable evidence directly calls changed function `"@ + symbol_text(after) + "`."@
    } else if none_added {
        "No added executable examples or sampled properties directly call changed function `"@ + symbol_text(after)
            + "`."@
    } else {
        "Added executable examples/properties do not directly call changed function `"@ + symbol_text(after) + "`."@
    }
}

pub open spec fn sensitivity_reason(after: Function, sensitive: bool, none_added: bool) -> Seq<char> {
    if sensitive {
        "Added executable evidence fails against the HEAD implementation of `"@ + symbol_text(after) + "`."@
    } else if none_added {
        "No added executable examples or sampled properties can distinguish changed function `"@ + symbol_text(
            after,
        ) + "` from HEAD."@
    } else {
        "Added executable examples/properties also pass against the HEAD implementation of `"@ + symbol_text(after)
            + "`."@
    }
}

/// Evaluating a piece of evidence fails: it gives anything but `true`.
pub open spec fn fails_in(e: Env, text: Seq<char>, vars: Seq<(Seq<char>, Val)>) -> bool {
    eval_spec(e, text, vars) != Ok::<Val, Seq<char>>(Val::Bool(true))
}

/// Some binding of the property's variables to their samples makes it fail; a property
/// over a type without samples never does.
pub open spec fn property_fails_in(e: Env, header: Seq<char>, expr: Seq<char>) -> bool {
    let vs = crate::checks::header_vars(header);
    &&& all_sampled(vs)
    &&& exists|k: int|
        0 <= k < combos(sample_sets(vs)).len() && fails_in(e, expr, bind_sample(vs, #[trigger] combos(sample_sets(vs))[k], 0, seq![]))
}

fn fails(ev: &mut Evaluator, expression: &str, variables: &Vec<(String, Value)>) -> (res: bool)
    ensures
        final(ev)@ == old(ev)@,
        res == fails_in(old(ev)@, expression@, vars_view(variables@)),
{
    match ev.eval(expression, variables) {
        Ok(Value::Bool(b)) => !b,
        _ => true,
    }
}

/// The header and the expression of a property: its first two non-blank lines, trimmed,
/// when the first is a header.
pub open spec fn property_parts_of(p: Seq<char>) -> Option<(Seq<char>, Seq<char>)> {
    let ls = normalized(lines_spec(p));
    if ls.len() >= 2 && is_header(ls[0]) {
        Some((ls[0], ls[1]))
    } else {
        None
    }
}

/// The first non-blank line of a property, its header, and the next one, its expression.
fn property_parts(p: &String) -> (res: Option<(String, String)>)
    ensures
        res is Some ==> is_header((res->0).0@),
        match (res, property_parts_of(p@)) {
            (Some(r), Some(q)) => r.0@ == q.0 && r.1@ == q.1,
            (None, None) => true,
            _ => false,
        },
{
    let cs = chars_of(p.as_str());
    let ls = lines_of(&cs);
    let strs = strings_of(&ls);
    assert(texts(strs@) =~= lines_spec(p@));
    let n = normalized_lines(&strs);
    if n.len() < 2 {
        return None;
    }
    let h = chars_of(n[0].as_str());
    let ht = crate::text::trim_chars(&h);
    if has_prefix_str(&ht, "forall ") && has_suffix_str(&ht, ":") {
        let header = owned(n[0].as_str());
        assert(is_header(header@));
        Some((header, owned(n[1].as_str())))
    } else {
        None
    }
}

/// Some sampled binding of a property's variables makes it fail against the evaluator's
/// functions.
fn property_fails(ev: &mut Evaluator, header: &String, expression: &String) -> (res: bool)
    requires
        is_header(header@),
    ensures
        final(ev)@ == old(ev)@,
        res == property_fails_in(old(ev)@, header@, expression@),
{
    let vars = header_variables(header);
    let ghost vs = crate::checks::header_vars(header@);
    let ghost e0 = ev@;
    let mut sets: Vec<Vec<Value>> = Vec::new();
    let mut k: usize = 0;
    assert(vs.take(0) =~= Seq::<(Seq<char>, Seq<char>)>::empty());
    assert(crate::evidence::combo_views(sets@) =~= sample_sets(vs.take(0)));
    while k < vars.len()
        invariant
            k <= vars@.len(),
            ev@ == e0,
            vs == crate::checks::header_vars(header@),
            crate::calls::pair_texts(vars@) == vs,
            all_sampled(vs.take(k as int)),
            crate::evidence::combo_views(sets@) == sample_sets(vs.take(k as int)),
        decreases vars@.len() - k,
    {
        assert(vs[k as int] == (vars@[k as int].0@, vars@[k as int].1@));
        match samples_for_type(vars[k].1.as_str()) {
            Some(s) => {
                let ghost pre = crate::evidence::combo_views(sets@);
                sets.push(s);
                assert(crate::evidence::combo_views(sets@) =~= pre.push(samples_of(vs[k as int].1)->0));
                assert(vs.take(k + 1) =~= vs.take(k as int).push(vs[k as int]));
                assert(sample_sets(vs.take(k + 1)) =~= sample_sets(vs.take(k as int)).push(samples_of(vs[k as int].1)->0));
                assert forall|q: int| 0 <= q < vs.take(k + 1).len() implies (#[trigger] samples_of(vs.take(k + 1)[q].1)) is Some by {
                    if q < k {
                        assert(vs.take(k + 1)[q] == vs.take(k as int)[q]);
                    }
                }
            },
            None => {
                assert(samples_of(vs[k as int].1) is None);
                assert(!all_sampled(vs));
                return false;
            },
        }
        k += 1;
    }
    assert(vs.take(vars@.len() as int) =~= vs);
    let combos_v = cartesian_product(&sets);
    let ghost cs = combos(sample_sets(vs));
    assert(crate::evidence::combo_views(combos_v@) == cs);
    let mut c: usize = 0;
    let mut found = false;
    while c < combos_v.len() && !found
        invariant
            c <= combos_v@.len(),
            ev@ == e0,
            vs == crate::checks::header_vars(header@),
            crate::calls::pair_texts(vars@) == vs,
            crate::evidence::combo_views(combos_v@) == cs,
            cs == combos(sample_sets(vs)),
            all_sampled(vs),
            found ==> exists|q: int| 0 <= q < c && fails_in(e0, expression@, bind_sample(vs, #[trigger] cs[q], 0, seq![])),
            !found ==> forall|q: int| 0 <= q < c ==> !fails_in(e0, expression@, bind_sample(vs, #[trigger] cs[q], 0, seq![])),
        decreases combos_v@.len() - c,
    {
        let values = &combos_v[c];
        let ghost cv = cs[c as int];
        assert(crate::evaluator::vals_of(values@) == cv);
        let mut bindings: Vec<(String, Value)> = Vec::new();
        let mut j: usize = 0;
        assert(vars_view(bindings@) =~= Seq::<(Seq<char>, Val)>::empty());
        while j < vars.len() && j < values.len()
            invariant
                j <= vars@.len(),
                ev@ == e0,
                crate::calls::pair_texts(vars@) == vs,
                crate::evaluator::vals_of(values@) == cv,
                bind_sample(vs, cv, 0, seq![]) == bind_sample(vs, cv, j as int, vars_view(bindings@)),
            decreases vars@.len() - j,
        {
            assert(vs[j as int].0 == vars@[j as int].0@);
            assert(cv[j as int] == value_view(values@[j as int]));
            var_store_pub(&mut bindings, owned(vars[j].0.as_str()), values[j].copy());
            j += 1;
        }
        assert(bind_sample(vs, cv, j as int, vars_view(bindings@)) == vars_view(bindings@));
        if fails(ev, expression.as_str(), &bindings) {
            assert(fails_in(e0, expression@, bind_sample(vs, cs[c as int], 0, seq![])));
            found = true;
        }
        c += 1;
    }
    found
}

/// The added examples that call `sym` and fail against the environment, as example sites.
pub open spec fn sensitive_examples(e: Env, ex: Seq<Seq<char>>, sym: Seq<char>, fs: Seq<Function>, ins: Seq<Function>) -> Seq<(Seq<char>, Seq<char>)>
    decreases ex.len(),
{
    if ex.len() == 0 {
        seq![]
    } else if crate::symbols::calls_symbol(ex.last(), sym, fs, ins) && fails_in(e, ex.last(), seq![]) {
        sensitive_examples(e, ex.drop_last(), sym, fs, ins).push(("example"@, ex.last()))
    } else {
        sensitive_examples(e, ex.drop_last(), sym, fs, ins)
    }
}

/// The added properties whose expression calls `sym` and fails for some sampled binding,
/// as property sites.
pub open spec fn sensitive_properties(e: Env, ps: Seq<Seq<char>>, sym: Seq<char>, fs: Seq<Function>, ins: Seq<Function>) -> Seq<(Seq<char>, Seq<char>)>
    decreases ps.len(),
{
    if ps.len() == 0 {
        seq![]
    } else {
        let rest = sensitive_properties(e, ps.drop_last(), sym, fs, ins);
        match property_parts_of(ps.last()) {
            Some(q) => if crate::symbols::calls_symbol(q.1, sym, fs, ins) && property_fails_in(e, q.0, q.1) {
                rest.push(("property"@, q.1))
            } else {
                rest
            },
            None => rest,
        }
    }
}

/// `e` evaluates against the given functions and the program's types.
pub open spec fn evaluates_against(e: Env, bfs: Seq<Function>, p: Program) -> bool {
    &&& crate::edits::same_functions(e.fs, bfs)
    &&& e.types.len() == p.types@.len()
    &&& forall|k: int| 0 <= k < p.types@.len() ==> crate::model::same_type(#[trigger] e.types[k], p.types@[k])
    &&& is_intrinsic_list(e.ins)
    &&& e.depth == 0
}

/// How the evidence added with a changed implementation covers it: the added examples and
/// properties, those that call the changed function, those that also fail against the
/// baseline implementation, and the reasons that say so.
pub fn implementation_evidence_coverage(
    before: &Function,
    after: &Function,
    program: &Program,
    baseline_functions: &Vec<Function>,
    fs: &Vec<Function>,
    ins: &Vec<Function>,
) -> (res: ImplementationEvidenceCoverage)
    ensures
        texts(res.added_examples@) == added_examples(*before, *after),
        texts(res.added_properties@) == added_properties(*before, *after),
        site_views(res.coverage@) == added_coverage(*before, *after, fs@, ins@),
        res.covered == (res.coverage@.len() > 0),
        res.reason@ == coverage_reason(
            *after,
            res.covered,
            res.added_examples@.len() == 0 && res.added_properties@.len() == 0,
        ),
        res.behavior_sensitive == (res.sensitivity@.len() > 0),
        exists|e: Env|
            #[trigger] evaluates_against(e, baseline_functions@, *program) && site_views(res.sensitivity@) == sensitive_examples(
                e,
                added_examples(*before, *after),
                symbol_text(*after),
                fs@,
                ins@,
            ) + sensitive_properties(e, added_properties(*before, *after), symbol_text(*after), fs@, ins@),
        res.sensitivity_reason@ == sensitivity_reason(
            *after,
            res.behavior_sensitive,
            res.added_examples@.len() == 0 && res.added_properties@.len() == 0,
        ),
{
    let added_ex = added(&normalized_lines(&after.examples), &normalized_lines(&before.examples));
    let added_pr = added(&normalized_properties(&after.properties), &normalized_properties(&before.properties));
    let sym = after.symbol();
    let ex_sites = calling_sites(example_sites(&added_ex), sym.as_str(), fs, ins);
    let pr_sites = calling_sites(property_sites(&added_pr), sym.as_str(), fs, ins);
    let ghost ev1 = site_views(ex_sites@);
    let ghost ev2 = site_views(pr_sites@);
    let mut coverage = ex_sites;
    let mut more = pr_sites;
    coverage.append(&mut more);
    assert(site_views(coverage@) =~= ev1 + ev2);
    let covered = coverage.len() > 0;
    let mut ev = Evaluator::new(baseline_functions.as_slice(), program.types.as_slice());
    let ghost e = ev@;
    let ghost tex = texts(added_ex@);
    let ghost tpr = texts(added_pr@);
    let mut sensitivity: Vec<CallSite> = Vec::new();
    let empty: Vec<(String, Value)> = Vec::new();
    assert(vars_view(empty@) =~= Seq::<(Seq<char>, Val)>::empty());
    let mut i: usize = 0;
    assert(tex.take(0) =~= Seq::<Seq<char>>::empty());
    while i < added_ex.len()
        invariant
            i <= added_ex@.len(),
            ev@ == e,
            tex == texts(added_ex@),
            sym@ == symbol_text(*after),
            vars_view(empty@) == Seq::<(Seq<char>, Val)>::empty(),
            site_views(sensitivity@) == sensitive_examples(e, tex.take(i as int), sym@, fs@, ins@),
        decreases added_ex@.len() - i,
    {
        assert(tex.take(i + 1).drop_last() =~= tex.take(i as int));
        assert(tex.take(i + 1).last() == added_ex@[i as int]@);
        if expression_calls_symbol(added_ex[i].as_str(), sym.as_str(), fs, ins) && fails(
            &mut ev,
            added_ex[i].as_str(),
            &empty,
        ) {
            let ghost pre = site_views(sensitivity@);
            sensitivity.push(CallSite { context: owned("example"), expression: owned(added_ex[i].as_str()) });
            assert(site_views(sensitivity@) =~= pre.push(("example"@, added_ex@[i as int]@)));
        }
        i += 1;
    }
    assert(tex.take(added_ex@.len() as int) =~= tex);
    let ghost ex_part = site_views(sensitivity@);
    let mut j: usize = 0;
    assert(tpr.take(0) =~= Seq::<Seq<char>>::empty());
    while j < added_pr.len()
        invariant
            j <= added_pr@.len(),
            ev@ == e,
            tpr == texts(added_pr@),
            sym@ == symbol_text(*after),
            site_views(sensitivity@) == ex_part + sensitive_properties(e, tpr.take(j as int), sym@, fs@, ins@),
        decreases added_pr@.len() - j,
    {
        assert(tpr.take(j + 1).drop_last() =~= tpr.take(j as int));
        assert(tpr.take(j + 1).last() == added_pr@[j as int]@);
        let ghost pre = site_views(sensitivity@);
        match property_parts(&added_pr[j]) {
            Some((header, expression)) => {
                if expression_calls_symbol(expression.as_str(), sym.as_str(), fs, ins) && property_fails(
                    &mut ev,
                    &header,
                    &expression,
                ) {
                    let ghost ev_text = expression@;
                    sensitivity.push(CallSite { context: owned("property"), expression });
                    assert(site_views(sensitivity@) =~= pre.push(("property"@, ev_text)));
                }
            },
            None => {},
        }
        j += 1;
    }
    assert(tpr.take(added_pr@.len() as int) =~= tpr);
    assert(evaluates_against(e, baseline_functions@, *program));
    let none_added = added_ex.len() == 0 && added_pr.len() == 0;
    let behavior_sensitive = sensitivity.len() > 0;
    let mut reason = if covered {
        owned("Added executable evidence directly calls changed function `")
    } else if none_added {
        owned("No added executable examples or sampled properties directly call changed function `")
    } else {
        owned("Added executable examples/properties do not directly call changed function `")
    };
    reason.append(sym.as_str());
    reason.append("`.");
    let mut sreason = if behavior_sensitive {
        owned("Added executable evidence fails against the HEAD implementation of `")
    } else if none_added {
        owned("No added executable examples or sampled properties can distinguish changed function `")
    } else {
        owned("Added executable examples/properties also pass against the HEAD implementation of `")
    };
    sreason.append(sym.as_str());
    if !behavior_sensitive && none_added {
        sreason.append("` from HEAD.");
    } else {
        sreason.append("`.");
    }
    ImplementationEvidenceCoverage {
        added_examples: added_ex,
        added_properties: added_pr,
        behavior_sensitive,
        covered,
        coverage,
        reason,
        sensitivity,
        sensitivity_reason: sreason,
    }
}

// ---------------------------------------------------------------------------
// Arithmetic intent
// ---------------------------------------------------------------------------
/// The words that announce each kind of arithmetic: addition, subtraction, multiplication,
/// division, remainder.
pub open spec fn kind_words(k: int) -> Seq<Seq<char>> {
    if k == 0 {
        seq!["add"@, "sum"@, "plus"@, "increment"@, "increase"@]
    } else if k == 1 {
        seq!["subtract"@, "subtraction"@, "difference"@, "minus"@, "decrement"@, "decrease"@]
    } else if k == 2 {
        seq!["multiply"@, "multiplication"@, "product"@]
    } else if k == 3 {
        seq!["divide"@, "division"@, "quotient"@]
    } else {
        seq!["remainder"@, "modulo"@]
    }
}

pub open spec fn kind_label(k: int) -> Seq<char> {
    if k == 0 {
        "addition"@
    } else if k == 1 {
        "subtraction"@
    } else if k == 2 {
        "multiplication"@
    } else if k == 3 {
        "division"@
    } else {
        "remainder"@
    }
}

/// The intent words of a function's name and intent.
pub open spec fn name_words(f: Function) -> Set<Seq<char>> {
    intent_words(f.name@) + match f.intent {
        Some(t) => intent_words(t@),
        None => Set::empty(),
    }
}

pub open spec fn announces(f: Function, k: int) -> bool {
    exists|j: int| 0 <= j < kind_words(k).len() && name_words(f).contains(#[trigger] kind_words(k)[j])
}

/// How many kinds of arithmetic a function's name and intent announce.
pub open spec fn announced_count(f: Function) -> int {
    (if announces(f, 0) { 1int } else { 0int }) + (if announces(f, 1) { 1int } else { 0int }) + (if announces(f, 2) {
        1int
    } else {
        0int
    }) + (if announces(f, 3) { 1int } else { 0int }) + (if announces(f, 4) { 1int } else { 0int })
}

/// The one kind of arithmetic that a function's name and intent announce, if exactly one.
pub open spec fn arith_kind(f: Function) -> Option<int> {
    if announced_count(f) != 1 {
        None
    } else if announces(f, 0) {
        Some(0)
    } else if announces(f, 1) {
        Some(1)
    } else if announces(f, 2) {
        Some(2)
    } else if announces(f, 3) {
        Some(3)
    } else {
        Some(4)
    }
}

fn label_of(k: u8) -> (res: &'static str)
    requires
        k < 5,
    ensures
        res@ == kind_label(k as int),
{
    if k == 0 {
        "addition"
    } else if k == 1 {
        "subtraction"
    } else if k == 2 {
        "multiplication"
    } else if k == 3 {
        "division"
    } else {
        "remainder"
    }
}

fn operator_of(k: u8) -> (res: &'static str)
    requires
        k < 5,
    ensures
        res@ == kind_operator(k as int),
{
    if k == 0 {
        "+"
    } else if k == 1 {
        "-"
    } else if k == 2 {
        "*"
    } else if k == 3 {
        "//"
    } else {
        "%"
    }
}

fn words_of(k: u8) -> (res: Vec<&'static str>)
    requires
        k < 5,
    ensures
        res@.map_values(|w: &str| w@) == kind_words(k as int),
{
    let v: Vec<&'static str> = if k == 0 {
        vec!["add", "sum", "plus", "increment", "increase"]
    } else if k == 1 {
        vec!["subtract", "subtraction", "difference", "minus", "decrement", "decrease"]
    } else if k == 2 {
        vec!["multiply", "multiplication", "product"]
    } else if k == 3 {
        vec!["divide", "division", "quotient"]
    } else {
        vec!["remainder", "modulo"]
    };
    assert(v@.map_values(|w: &str| w@) =~= kind_words(k as int));
    v
}

fn in_terms(terms: &Vec<String>, w: &str) -> (res: bool)
    ensures
        res == texts(terms@).contains(w@),
{
    let mut i: usize = 0;
    while i < terms.len()
        invariant
            i <= terms@.len(),
            forall|q: int| 0 <= q < i ==> texts(terms@)[q] != w@,
        decreases terms@.len() - i,
    {
        if str_eq(terms[i].as_str(), w) {
            assert(texts(terms@)[i as int] == w@);
            return true;
        }
        i += 1;
    }
    false
}

fn announces_kind(f: &Function, k: u8) -> (res: bool)
    requires
        k < 5,
    ensures
        res == announces(*f, k as int),
{
    let names = intent_terms(f.name.as_str());
    let intent = match &f.intent {
        Some(t) => intent_terms(t.as_str()),
        None => Vec::new(),
    };
    let ws = words_of(k);
    let ghost kw = kind_words(k as int);
    let mut j: usize = 0;
    while j < ws.len()
        invariant
            j <= ws@.len(),
            ws@.map_values(|w: &str| w@) == kw,
            kw == kind_words(k as int),
            texts(names@).to_set() == intent_words(f.name@),
            texts(intent@).to_set() == match f.intent {
                Some(t) => intent_words(t@),
                None => Set::empty(),
            },
            forall|q: int| 0 <= q < j ==> !name_words(*f).contains(#[trigger] kw[q]),
        decreases ws@.len() - j,
    {
        assert(kw[j as int] == ws@[j as int]@);
        if in_terms(&names, ws[j]) || in_terms(&intent, ws[j]) {
            proof {
                if texts(names@).contains(kw[j as int]) {
                    assert(texts(names@).to_set().contains(kw[j as int]));
                } else {
                    assert(texts(intent@).to_set().contains(kw[j as int]));
                }
            }
            return true;
        }
        proof {
            if texts(names@).to_set().contains(kw[j as int]) {
                assert(texts(names@).contains(kw[j as int]));
            }
            if texts(intent@).to_set().contains(kw[j as int]) {
                assert(texts(intent@).contains(kw[j as int]));
            }
        }
        j += 1;
    }
    false
}

/// The kind of arithmetic that a function's name and intent announce, when exactly one.
pub fn arithmetic_intent(f: &Function) -> (res: Option<u8>)
    ensures
        match (res, arith_kind(*f)) {
            (Some(k), Some(j)) => k == j,
            (None, None) => true,
            _ => false,
        },
{
    let a0 = announces_kind(f, 0);
    let a1 = announces_kind(f, 1);
    let a2 = announces_kind(f, 2);
    let a3 = announces_kind(f, 3);
    let a4 = announces_kind(f, 4);
    let count: u8 = (if a0 { 1u8 } else { 0u8 }) + (if a1 { 1u8 } else { 0u8 }) + (if a2 { 1u8 } else { 0u8 }) + (if a3 {
        1u8
    } else {
        0u8
    }) + (if a4 { 1u8 } else { 0u8 });
    if count != 1 {
        None
    } else if a0 {
        Some(0)
    } else if a1 {
        Some(1)
    } else if a2 {
        Some(2)
    } else if a3 {
        Some(3)
    } else {
        Some(4)
    }
}

/// The kind of arithmetic a token is the operator of, or -1.
pub open spec fn op_kind(t: SpecToken) -> int {
    match t {
        SpecToken::Plain(Token::Plus) => 0,
        SpecToken::Plain(Token::Minus) => 1,
        SpecToken::Plain(Token::Star) => 2,
        SpecToken::Plain(Token::SlashSlash) => 3,
        SpecToken::Plain(Token::Percent) => 4,
        _ => -1,
    }
}

/// The expression tokenizes and uses the operator of kind `k`.
pub open spec fn uses_op(text: Seq<char>, k: int) -> bool {
    match lex(text) {
        Ok(ts) => exists|j: int| 0 <= j < ts.len() && op_kind(#[trigger] ts[j]) == k,
        Err(_) => false,
    }
}

/// The expression calls a function whose name and intent announce arithmetic of kind `k`.
pub open spec fn calls_announcer(text: Seq<char>, k: int, fs: Seq<Function>, ins: Seq<Function>) -> bool {
    match call_names(text) {
        Ok(names) => exists|j: int|
            0 <= j < names.len() && resolution(fs, ins, #[trigger] names[j]) is Some && arith_kind(
                resolution(fs, ins, names[j])->0,
            ) == Some(k),
        Err(_) => false,
    }
}

pub open spec fn kind_operator(k: int) -> Seq<char> {
    if k == 0 {
        "+"@
    } else if k == 1 {
        "-"@
    } else if k == 2 {
        "*"@
    } else if k == 3 {
        "//"@
    } else {
        "%"@
    }
}

/// The labels of the other kinds of arithmetic, among the first `n`, that the expression
/// uses.
pub open spec fn conflict_labels(text: Seq<char>, k: int, n: int) -> Seq<Seq<char>>
    decreases n,
{
    if n <= 0 {
        seq![]
    } else if n - 1 != k && uses_op(text, n - 1) {
        conflict_labels(text, k, n - 1).push(kind_label(n - 1))
    } else {
        conflict_labels(text, k, n - 1)
    }
}

/// The message for an implementation that does not do the announced arithmetic `k`.
pub open spec fn mismatch_message(text: Seq<char>, k: int) -> Seq<char> {
    let conflicts = conflict_labels(text, k, 5);
    "Intent/name indicates "@ + kind_label(k) + "; "@ + (if conflicts.len() == 0 {
        "implementation does not use `"@
    } else {
        "implementation uses "@ + join_spec(conflicts, ", "@) + " but not `"@
    }) + kind_operator(k) + "` or call a helper whose name/intent indicates "@ + kind_label(k) + "."@
}

/// The advisory intent risks of `f`: one message when its name and intent announce one
/// kind of arithmetic that its implementation (without holes) neither uses nor reaches
/// through a call of a function announcing it.
pub open spec fn intent_risks(f: Function, fs: Seq<Function>, ins: Seq<Function>) -> Seq<Seq<char>> {
    match (arith_kind(f), f.implementation) {
        (Some(k), Some(i)) => if contains_seq(i@, "HOLE("@) || uses_op(i@, k) || calls_announcer(i@, k, fs, ins) {
            seq![]
        } else {
            seq![mismatch_message(i@, k)]
        },
        _ => seq![],
    }
}

fn operations_of(expression: &str) -> (res: Vec<bool>)
    ensures
        res@.len() == 5,
        forall|k: int| 0 <= k < 5 ==> res@[k] == uses_op(expression@, k),
{
    let mut ops: Vec<bool> = Vec::new();
    ops.push(false);
    ops.push(false);
    ops.push(false);
    ops.push(false);
    ops.push(false);
    match tokenize(expression) {
        Ok(tokens) => {
            let ghost ts = token_views(tokens@);
            let mut i: usize = 0;
            while i < tokens.len()
                invariant
                    i <= tokens@.len(),
                    ts == token_views(tokens@),
                    lex(expression@) is Ok && lex(expression@)->Ok_0 == ts,
                    ops@.len() == 5,
                    forall|k: int| 0 <= k < 5 ==> ops@[k] == exists|j: int| 0 <= j < i && op_kind(#[trigger] ts[j]) == k,
                decreases tokens@.len() - i,
            {
                let k: usize = match &tokens[i] {
                    Token::Plus => 0,
                    Token::Minus => 1,
                    Token::Star => 2,
                    Token::SlashSlash => 3,
                    Token::Percent => 4,
                    _ => 5,
                };
                assert(ts[i as int] == tokens@[i as int]@);
                assert(k < 5 ==> op_kind(ts[i as int]) == k);
                assert(k == 5 ==> op_kind(ts[i as int]) == -1);
                if k < 5 {
                    ops.set(k, true);
                }
                proof {
                    assert forall|q: int| 0 <= q < 5 implies ops@[q] == exists|j: int| 0 <= j < i + 1 && op_kind(#[trigger] ts[j]) == q by {
                        if ops@[q] && !(exists|j: int| 0 <= j < i && op_kind(#[trigger] ts[j]) == q) {
                            assert(op_kind(ts[i as int]) == q);
                        }
                        if exists|j: int| 0 <= j < i + 1 && op_kind(#[trigger] ts[j]) == q {
                            let j = choose|j: int| 0 <= j < i + 1 && op_kind(#[trigger] ts[j]) == q;
                            if j < i {
                                assert(exists|j2: int| 0 <= j2 < i && op_kind(#[trigger] ts[j2]) == q);
                            }
                        }
                    }
                }
                i += 1;
            }
        },
        Err(_) => {},
    }
    ops
}

fn satisfies_intent(expression: &str, ops: &Vec<bool>, expected: u8, fs: &Vec<Function>, ins: &Vec<Function>) -> (res: bool)
    requires
        expected < 5,
        ops@.len() == 5,
        forall|k: int| 0 <= k < 5 ==> ops@[k] == uses_op(expression@, k),
    ensures
        res == (uses_op(expression@, expected as int) || calls_announcer(expression@, expected as int, fs@, ins@)),
{
    if ops[expected as usize] {
        return true;
    }
    match crate::eval::called_functions(expression) {
        Err(_) => false,
        Ok(calls) => {
            let ghost names = call_names(expression@)->Ok_0;
            let mut i: usize = 0;
            while i < calls.len()
                invariant
                    i <= calls@.len(),
                    call_names(expression@) is Ok,
                    names == call_names(expression@)->Ok_0,
                    crate::eval::raw_names(calls@) == names,
                    forall|j: int|
                        0 <= j < i ==> !(resolution(fs@, ins@, #[trigger] names[j]) is Some && arith_kind(
                            resolution(fs@, ins@, names[j])->0,
                        ) == Some(expected as int)),
                decreases calls@.len() - i,
            {
                let r = crate::eval::resolve_in(calls[i].raw.as_str(), fs.as_slice(), ins.as_slice());
                proof {
                    crate::eval::lemma_resolution(r, calls@[i as int].raw@, fs@, ins@);
                    assert(names[i as int] == calls@[i as int].raw@);
                }
                match r {
                    Ok(g) => {
                        match arithmetic_intent(&g) {
                            Some(k) => {
                                if k == expected {
                                    return true;
                                }
                            },
                            None => {},
                        }
                    },
                    Err(_) => {},
                }
                i += 1;
            }
            false
        },
    }
}

/// The advisory risk that a function's implementation does not do the arithmetic that its
/// name or intent announces.
pub fn intent_implementation_risks(f: &Function, fs: &Vec<Function>, ins: &Vec<Function>) -> (res: Vec<String>)
    ensures
        texts(res@) == intent_risks(*f, fs@, ins@),
{
    let mut out: Vec<String> = Vec::new();
    let expected = match arithmetic_intent(f) {
        Some(k) => k,
        None => {
            assert(texts(out@) =~= intent_risks(*f, fs@, ins@));
            return out;
        },
    };
    let implementation = match &f.implementation {
        Some(i) => i,
        None => {
            assert(texts(out@) =~= intent_risks(*f, fs@, ins@));
            return out;
        },
    };
    let cs = chars_of(implementation.as_str());
    if crate::text::contains_str(&cs, "HOLE(") {
        assert(texts(out@) =~= intent_risks(*f, fs@, ins@));
        return out;
    }
    let ops = operations_of(implementation.as_str());
    if satisfies_intent(implementation.as_str(), &ops, expected, fs, ins) {
        assert(texts(out@) =~= intent_risks(*f, fs@, ins@));
        return out;
    }
    let ghost text = implementation@;
    let ghost ek = expected as int;
    let mut conflicts: Vec<String> = Vec::new();
    let mut k: u8 = 0;
    while k < 5
        invariant
            k <= 5,
            expected < 5,
            ek == expected as int,
            ops@.len() == 5,
            forall|q: int| 0 <= q < 5 ==> ops@[q] == uses_op(text, q),
            texts(conflicts@) == conflict_labels(text, ek, k as int),
        decreases 5 - k,
    {
        if k != expected && ops[k as usize] {
            let ghost before = texts(conflicts@);
            conflicts.push(owned(label_of(k)));
            assert(texts(conflicts@) =~= before.push(kind_label(k as int)));
        }
        k += 1;
    }
    let label = label_of(expected);
    let mut m = owned("Intent/name indicates ");
    m.append(label);
    m.append("; ");
    let ghost head = m@;
    let ghost conflicts_view = conflict_labels(text, ek, 5);
    assert(texts(conflicts@) == conflicts_view);
    let mut middle = String::new();
    if conflicts.len() == 0 {
        middle.append("implementation does not use `");
    } else {
        middle.append("implementation uses ");
        let joined = crate::text::join_strings(conflicts.as_slice(), ", ");
        assert(joined@ == join_spec(conflicts_view, ", "@));
        middle.append(joined.as_str());
        middle.append(" but not `");
    }
    assert(middle@ == (if conflicts_view.len() == 0 {
        "implementation does not use `"@
    } else {
        "implementation uses "@ + join_spec(conflicts_view, ", "@) + " but not `"@
    }));
    m.append(middle.as_str());
    m.append(operator_of(expected));
    m.append("` or call a helper whose name/intent indicates ");
    m.append(label);
    m.append(".");
    assert(m@ =~= mismatch_message(text, ek));
    out.push(m);
    assert(texts(out@) =~= intent_risks(*f, fs@, ins@));
    out
}

// ---------------------------------------------------------------------------
// Sampled property coverage
// ---------------------------------------------------------------------------
/// Each variable written `name: Type`.
pub open spec fn var_texts(vs: Seq<(Seq<char>, Seq<char>)>) -> Seq<Seq<char>> {
    vs.map_values(|v: (Seq<char>, Seq<char>)| v.0 + ": "@ + v.1)
}

/// The types of the variables that have no samples, in order.
pub open spec fn unsupported_of(vs: Seq<(Seq<char>, Seq<char>)>) -> Seq<Seq<char>>
    decreases vs.len(),
{
    if vs.len() == 0 {
        seq![]
    } else if samples_of(vs.last().1) is None {
        unsupported_of(vs.drop_last()).push(vs.last().1)
    } else {
        unsupported_of(vs.drop_last())
    }
}

/// How many bindings sampling tries: the product of the sample counts of the sampled
/// types, held at `usize::MAX`.
pub open spec fn sample_product(vs: Seq<(Seq<char>, Seq<char>)>) -> int
    decreases vs.len(),
{
    if vs.len() == 0 {
        1
    } else {
        let p = sample_product(vs.drop_last());
        match samples_of(vs.last().1) {
            Some(s) => if p * s.len() > usize::MAX {
                usize::MAX as int
            } else {
                p * s.len()
            },
            None => p,
        }
    }
}

/// The properties that sampling can read, each with its position, header and expression.
pub open spec fn hint_sources(props: Seq<Seq<char>>) -> Seq<(int, Seq<char>, Seq<char>)>
    decreases props.len(),
{
    if props.len() == 0 {
        seq![]
    } else {
        match property_parts_of(props.last()) {
            Some(q) => hint_sources(props.drop_last()).push((props.len() - 1, q.0, q.1)),
            None => hint_sources(props.drop_last()),
        }
    }
}

/// `h` is the coverage hint of the property at position `src.0` with header `src.1` and
/// expression `src.2`.
pub open spec fn hint_is(h: PropertyCoverageHint, src: (int, Seq<char>, Seq<char>), f: Function, fs: Seq<Function>, ins: Seq<Function>) -> bool {
    let vs = crate::checks::header_vars(src.1);
    &&& h.property_index == src.0 + 1
    &&& h.expression@ == src.2
    &&& texts(h.variables@) == var_texts(vs)
    &&& texts(h.unsupported_types@) == unsupported_of(vs)
    &&& h.sample_count == (if unsupported_of(vs).len() == 0 { sample_product(vs) } else { 0 })
    &&& h.direct_call == crate::symbols::calls_symbol(src.2, symbol_text(f), fs, ins)
    &&& h.vacuous == (vs.len() == 0)
    &&& h.unsupported_reasons@.len() == 0
    &&& h.recursive_record_cycles@.len() == 0
}

/// The coverage hints of a function's properties, one per property that sampling can read.
pub open spec fn hints_are(res: Seq<PropertyCoverageHint>, f: Function, fs: Seq<Function>, ins: Seq<Function>) -> bool {
    let srcs = hint_sources(normalized_props(texts(f.properties@)));
    &&& res.len() == srcs.len()
    &&& forall|k: int| 0 <= k < res.len() ==> hint_is(#[trigger] res[k], srcs[k], f, fs, ins)
}

fn hint_for(index: usize, header: String, expression: String, sym: &str, fs: &Vec<Function>, ins: &Vec<Function>) -> (res: PropertyCoverageHint)
    requires
        is_header(header@),
        index < usize::MAX,
    ensures
        res.property_index == index + 1,
        res.expression@ == expression@,
        texts(res.variables@) == var_texts(crate::checks::header_vars(header@)),
        texts(res.unsupported_types@) == unsupported_of(crate::checks::header_vars(header@)),
        res.sample_count == (if unsupported_of(crate::checks::header_vars(header@)).len() == 0 {
            sample_product(crate::checks::header_vars(header@))
        } else {
            0
        }),
        res.direct_call == crate::symbols::calls_symbol(expression@, sym@, fs@, ins@),
        res.vacuous == (crate::checks::header_vars(header@).len() == 0),
        res.unsupported_reasons@.len() == 0,
        res.recursive_record_cycles@.len() == 0,
{
    let vars = header_variables(&header);
    let ghost vs = crate::checks::header_vars(header@);
    let mut variables: Vec<String> = Vec::new();
    let mut unsupported: Vec<String> = Vec::new();
    let mut count: usize = 1;
    let mut j: usize = 0;
    assert(vs.take(0) =~= Seq::<(Seq<char>, Seq<char>)>::empty());
    while j < vars.len()
        invariant
            j <= vars@.len(),
            crate::calls::pair_texts(vars@) == vs,
            texts(variables@) == var_texts(vs.take(j as int)),
            texts(unsupported@) == unsupported_of(vs.take(j as int)),
            count == sample_product(vs.take(j as int)),
        decreases vars@.len() - j,
    {
        let ghost pre_v = texts(variables@);
        let ghost pre_u = texts(unsupported@);
        assert(vs.take(j + 1).drop_last() =~= vs.take(j as int));
        assert(vs.take(j + 1).last() == vs[j as int]);
        assert(vs[j as int] == (vars@[j as int].0@, vars@[j as int].1@));
        let mut v = owned(vars[j].0.as_str());
        v.append(": ");
        v.append(vars[j].1.as_str());
        variables.push(v);
        assert(texts(variables@) =~= pre_v.push(vs[j as int].0 + ": "@ + vs[j as int].1));
        assert(var_texts(vs.take(j + 1)) =~= var_texts(vs.take(j as int)).push(vs[j as int].0 + ": "@ + vs[j as int].1));
        match samples_for_type(vars[j].1.as_str()) {
            Some(s) => {
                count = match count.checked_mul(s.len()) {
                    Some(c) => c,
                    None => usize::MAX,
                };
                proof {
                    assert(crate::evaluator::vals_of(s@).len() == s@.len());
                }
            },
            None => {
                unsupported.push(owned(vars[j].1.as_str()));
                assert(texts(unsupported@) =~= pre_u.push(vs[j as int].1));
            },
        }
        j += 1;
    }
    assert(vs.take(vars@.len() as int) =~= vs);
    let sample_count = if unsupported.len() == 0 {
        count
    } else {
        0
    };
    let direct_call = expression_calls_symbol(expression.as_str(), sym, fs, ins);
    let vacuous = variables.len() == 0;
    PropertyCoverageHint {
        property_index: index + 1,
        expression,
        variables,
        sample_count,
        direct_call,
        vacuous,
        unsupported_types: unsupported,
        unsupported_reasons: Vec::new(),
        recursive_record_cycles: Vec::new(),
    }
}

/// What sampling would do with each property of a function: its position among the
/// properties, its expression and variables, how many bindings it would try, whether it
/// calls the function, whether it is vacuous, and the types without samples.
pub fn property_coverage_hints(f: &Function, fs: &Vec<Function>, ins: &Vec<Function>) -> (res: Vec<PropertyCoverageHint>)
    ensures
        hints_are(res@, *f, fs@, ins@),
{
    let props = normalized_properties(&f.properties);
    let ghost ps = texts(props@);
    let sym = f.symbol();
    let mut out: Vec<PropertyCoverageHint> = Vec::new();
    let mut i: usize = 0;
    assert(ps.take(0) =~= Seq::<Seq<char>>::empty());
    while i < props.len()
        invariant
            i <= props@.len(),
            ps == texts(props@),
            ps == normalized_props(texts(f.properties@)),
            sym@ == symbol_text(*f),
            out@.len() == hint_sources(ps.take(i as int)).len(),
            forall|k: int| 0 <= k < out@.len() ==> hint_is(#[trigger] out@[k], hint_sources(ps.take(i as int))[k], *f, fs@, ins@),
        decreases props@.len() - i,
    {
        let ghost prev = hint_sources(ps.take(i as int));
        assert(ps.take(i + 1).drop_last() =~= ps.take(i as int));
        assert(ps.take(i + 1).last() == props@[i as int]@);
        match property_parts(&props[i]) {
            Some((header, expression)) => {
                let ghost q = property_parts_of(props@[i as int]@)->0;
                let h = hint_for(i, header, expression, sym.as_str(), fs, ins);
                let ghost old_out = out@;
                out.push(h);
                proof {
                    let srcs = hint_sources(ps.take(i + 1));
                    assert(srcs == prev.push((i as int, q.0, q.1)));
                    assert forall|k: int| 0 <= k < out@.len() implies hint_is(#[trigger] out@[k], srcs[k], *f, fs@, ins@) by {
                        if k < prev.len() {
                            assert(out@[k] == old_out[k]);
                            assert(srcs[k] == prev[k]);
                        }
                    }
                }
            },
            None => {
                assert(hint_sources(ps.take(i + 1)) == prev);
            },
        }
        i += 1;
    }
    assert(ps.take(props@.len() as int) =~= ps);
    out
}

} // verus!
