//! One changed function compared with its baseline, and the change plan of the functions
//! of a set of changed files.
use vstd::prelude::*;
use vstd::string::*;

use crate::changes::{change_views, semantic_change_list, semantic_changes};
use crate::checker::{check_program, checked, example_count, property_count};
use crate::checks::near_warnings_ok;
use crate::coverage::{intent_risks, implementation_evidence_coverage, intent_implementation_risks, property_coverage_hints, added_coverage, added_examples, added_properties, coverage_reason, sensitivity_reason, evaluates_against, sensitive_examples, sensitive_properties};
use crate::diagnostic::Diagnostic;
use crate::evaluator::Env;
use crate::impact::{call_rows, impact_report, impact_targets, impacts_are, query_impact};
use crate::intrinsics::{intrinsic_functions, is_intrinsic_list};
use crate::ledger::{effect_row_is, EffectQueryRow, ImpactDependent};
use crate::model::{same_function, symbol_text, Function, MigrationRecord, Program};
use crate::patch::texts;
use crate::plan::{acknowledges, active_gates, analysis_is, behavior_acknowledged, capability_analysis, capability_change, capability_delta, evidence_coverage, evidence_drift, evidence_sections, evidence_weakening, has_migration, header_count, public_behavior_change, public_behavior_change_acknowledged, removed_from, removed_listed, removed_public_symbols, stale_migrations, stale_of, stale_view, strengthened, surface_changes, weakening_view, weakenings, ActiveGates, CapabilityChange, ChangePlan, ChangedSymbol, EvidenceCoverage, EvidenceDelta, EvidenceDrift, EvidenceWeakening, ImpactEvidenceCoverage, ImplementationChange, ImplementationEvidenceCoverage, PublicBehaviorChange, StaleMigration, executable_evidence_strengthened};
use crate::planning::{build_plan, plan_built};
use crate::project::Architecture;
use crate::symbols::{baseline_of, coverage_is, find_baseline, functions_with, impact_evidence_coverage, implementation_change, norm_impl, same_list, same_lowering, site_views, with_baseline};
use crate::text::{decimal, is_permutation, owned, str_eq, usize_text};

verus! {

// ---------------------------------------------------------------------------
// The parts of a changed symbol
// ---------------------------------------------------------------------------
/// `e` counts the executable evidence of `f`.
pub open spec fn evidence_is(e: EvidenceCoverage, f: Function) -> bool {
    &&& e.requires == f.requires@.len()
    &&& e.ensures == f.contracts@.len()
    &&& e.examples == f.examples@.len()
    &&& e.properties == header_count(texts(f.properties@))
}

/// `a - b`, held within the range of `isize`.
pub open spec fn clamped(a: int, b: int) -> int {
    if a - b > isize::MAX {
        isize::MAX as int
    } else if a - b < isize::MIN {
        isize::MIN as int
    } else {
        a - b
    }
}

/// How much executable evidence was added (or removed) compared with the baseline.
pub open spec fn delta_is(d: EvidenceDelta, now: EvidenceCoverage, then: EvidenceCoverage) -> bool {
    &&& d.requires == clamped(now.requires as int, then.requires as int)
    &&& d.ensures == clamped(now.ensures as int, then.ensures as int)
    &&& d.examples == clamped(now.examples as int, then.examples as int)
    &&& d.properties == clamped(now.properties as int, then.properties as int)
}

fn signed_delta(a: usize, b: usize) -> (res: isize)
    ensures
        res == clamped(a as int, b as int),
{
    let x: i128 = a as i128 - b as i128;
    if x > isize::MAX as i128 {
        isize::MAX
    } else if x < isize::MIN as i128 {
        isize::MIN
    } else {
        x as isize
    }
}

fn delta_of(now: &EvidenceCoverage, then: &EvidenceCoverage) -> (res: EvidenceDelta)
    ensures
        delta_is(res, *now, *then),
{
    EvidenceDelta {
        requires: signed_delta(now.requires, then.requires),
        ensures: signed_delta(now.ensures, then.ensures),
        examples: signed_delta(now.examples, then.examples),
        properties: signed_delta(now.properties, then.properties),
    }
}

/// The public contract surface change, as `public_behavior_change` finds it.
pub open spec fn behavior_is(c: Option<PublicBehaviorChange>, b: Function, a: Function) -> bool {
    if surface_changes(b, a).len() == 0 {
        c is None
    } else {
        c is Some && texts(c->0.changed@) == surface_changes(b, a)
    }
}

/// The capability change, as `capability_change` finds it.
pub open spec fn capability_is(c: Option<CapabilityChange>, b: Function, a: Function) -> bool {
    match capability_delta(b, a) {
        None => c is None,
        Some(d) => c is Some && texts(c->0.before@) == d.0 && texts(c->0.after@) == d.1 && texts(c->0.added@)
            == d.2 && texts(c->0.removed@) == d.3,
    }
}

/// The implementation change, as `implementation_change` finds it.
pub open spec fn implementation_is(c: Option<ImplementationChange>, b: Function, a: Function, p: Program) -> bool {
    &&& norm_impl(b.implementation) == norm_impl(a.implementation) ==> c is None
    &&& c is Some ==> c->0.before@ == norm_impl(b.implementation) && c->0.after@ == norm_impl(a.implementation)
    &&& c is None && norm_impl(b.implementation) != norm_impl(a.implementation) ==> same_lowering(b, a, p)
}

/// The coverage of a changed implementation by the evidence added with it.
pub open spec fn implementation_evidence_is(
    c: ImplementationEvidenceCoverage,
    b: Function,
    a: Function,
    p: Program,
    ins: Seq<Function>,
) -> bool {
    let fs = p.functions@;
    let none_added = c.added_examples@.len() == 0 && c.added_properties@.len() == 0;
    &&& texts(c.added_examples@) == added_examples(b, a)
    &&& texts(c.added_properties@) == added_properties(b, a)
    &&& site_views(c.coverage@) == added_coverage(b, a, fs, ins)
    &&& c.covered == (c.coverage@.len() > 0)
    &&& c.reason@ == coverage_reason(a, c.covered, none_added)
    &&& c.behavior_sensitive == (c.sensitivity@.len() > 0)
    &&& exists|e: Env, bf: Seq<Function>|
        same_list(bf, with_baseline(fs, b)) && #[trigger] evaluates_against(e, bf, p) && site_views(c.sensitivity@)
            == sensitive_examples(e, added_examples(b, a), symbol_text(a), fs, ins) + sensitive_properties(
            e,
            added_properties(b, a),
            symbol_text(a),
            fs,
            ins,
        )
    &&& c.sensitivity_reason@ == sensitivity_reason(a, c.behavior_sensitive, none_added)
}

/// The evidence drift that comes with a changed implementation and a changed surface.
pub open spec fn drift_is(d: Option<EvidenceDrift>, s: ChangedSymbol) -> bool {
    if s.implementation_change is Some && s.behavior_change is Some {
        let ch = texts(s.behavior_change->0.changed@);
        if evidence_sections(ch).len() == 0 {
            d is None
        } else {
            d is Some && texts(d->0.changed@) == evidence_sections(ch)
        }
    } else {
        d is None
    }
}

/// The gates that a changed symbol triggers.
pub open spec fn gates_of(s: ChangedSymbol) -> ActiveGates {
    ActiveGates {
        public_behavior: s.behavior_change is Some,
        capability_expansion: s.capability_change is Some && s.capability_change->0.added@.len() > 0,
        evidence_weakening: s.evidence_weakening@.len() > 0,
        implementation_change: s.implementation_change is Some || s.evidence_drift is Some,
        impact_review: s.impact@.len() > 0 || crate::plan::some_uncovered(s.impact_coverage@),
    }
}

/// One risk message when `cond` holds.
pub open spec fn risk_if(cond: bool, m: Seq<char>) -> Seq<Seq<char>> {
    if cond {
        seq![m]
    } else {
        seq![]
    }
}

/// The risk that a changed implementation carries, if unacknowledged.
pub open spec fn implementation_risk(f: Function, s: ChangedSymbol) -> Seq<Seq<char>> {
    if s.implementation_change is Some && !acknowledges(f, "implementation-change"@) {
        if strengthened(s.evidence_delta) {
            if s.implementation_evidence is Some && s.implementation_evidence->0.covered {
                if s.implementation_evidence->0.behavior_sensitive {
                    seq!["Implementation changed compared with HEAD; verify the added executable evidence explains the change."@]
                } else {
                    seq!["Implementation changed compared with HEAD, but added executable evidence also passes against the HEAD implementation."@]
                }
            } else {
                seq!["Implementation changed compared with HEAD, but added executable evidence does not call the changed function."@]
            }
        } else {
            seq!["Implementation changed compared with HEAD without added executable evidence."@]
        }
    } else {
        seq![]
    }
}

pub open spec fn stale_risk(m: StaleMigration) -> Seq<char> {
    "Stale "@ + m.kind@ + " migration acknowledgement at same-kind index "@ + decimal(m.index as nat) + "."@
}

/// The risks that a changed symbol carries whatever its baseline: an implicit version, and
/// kinds of evidence it lacks.
pub open spec fn head_risks(f: Function, s: ChangedSymbol) -> Seq<Seq<char>> {
    risk_if(
        !f.version_explicit,
        "Public symbol relies on the bootstrap default version; unattended certification requires an explicit version."@,
    ) + risk_if(s.evidence.examples == 0, "No executable examples cover this symbol."@) + risk_if(
        s.evidence.properties == 0,
        "No sampled properties cover this symbol."@,
    ) + risk_if(
        s.evidence.requires + s.evidence.ensures == 0,
        "No executable contract clauses cover this symbol."@,
    )
}

/// The unacknowledged impact, weakened evidence, surface and capability changes.
pub open spec fn review_risks_of(f: Function, s: ChangedSymbol) -> Seq<Seq<char>> {
    risk_if(
        s.impact@.len() > 0 && !acknowledges(f, "impact-review"@),
        "Transitive dependents must be reviewed before changing behavior."@,
    ) + risk_if(
        crate::plan::some_uncovered(s.impact_coverage@) && !acknowledges(f, "impact-review"@),
        "One or more impacted dependent call edges lack executable evidence coverage."@,
    ) + risk_if(
        s.evidence_weakening@.len() > 0 && !acknowledges(f, "evidence-weakening"@),
        "Executable evidence was removed or narrowed compared with HEAD."@,
    ) + risk_if(
        s.behavior_change is Some && !behavior_acknowledged(f, s.behavior_change->0),
        "Public contract surface changed without a new symbol version compared with HEAD."@,
    ) + risk_if(
        s.capability_change is Some && s.capability_change->0.added@.len() > 0 && !acknowledges(
            f,
            "capability-expansion"@,
        ),
        "Declared capabilities expanded compared with HEAD without acknowledgement."@,
    )
}

/// The unacknowledged drift, the intent risks and the stale migrations.
pub open spec fn tail_risks_of(f: Function, s: ChangedSymbol) -> Seq<Seq<char>> {
    risk_if(
        s.evidence_drift is Some && !acknowledges(f, "implementation-change"@),
        "Implementation and executable evidence changed together compared with HEAD without acknowledgement."@,
    ) + texts(s.intent_implementation_risks@) + s.stale_migrations@.map_values(|m: StaleMigration| stale_risk(m))
}

/// The residual risks of changed symbol `s` of function `f`, in a fixed order.
pub open spec fn symbol_risks(f: Function, s: ChangedSymbol) -> Seq<Seq<char>> {
    head_risks(f, s) + review_risks_of(f, s) + implementation_risk(f, s) + tail_risks_of(f, s)
}

/// What `s` says of the baseline of `f`: its evidence, and how `f` differs from it.
pub open spec fn baseline_holds(s: ChangedSymbol, f: Function, p: Program, base: Seq<Function>, ins: Seq<Function>) -> bool {
    match baseline_of(base, symbol_text(f)) {
        None => {
            &&& s.baseline_evidence is None
            &&& s.behavior_change is None
            &&& s.capability_change is None
            &&& s.evidence_delta is None
            &&& s.evidence_weakening@.len() == 0
            &&& s.implementation_change is None
            &&& s.implementation_evidence is None
        },
        Some(b) => {
            &&& s.baseline_evidence is Some && evidence_is(s.baseline_evidence->0, b)
            &&& behavior_is(s.behavior_change, b, f)
            &&& capability_is(s.capability_change, b, f)
            &&& s.evidence_delta is Some && delta_is(s.evidence_delta->0, s.evidence, s.baseline_evidence->0)
            &&& s.evidence_weakening@.map_values(|w: EvidenceWeakening| weakening_view(w)) == weakenings(b, f)
            &&& implementation_is(s.implementation_change, b, f, p)
            &&& (s.implementation_evidence is Some <==> s.implementation_change is Some)
            &&& s.implementation_evidence is Some ==> implementation_evidence_is(
                s.implementation_evidence->0,
                b,
                f,
                p,
                ins,
            )
        },
    }
}

/// What `s` says of the capabilities of `f`.
pub open spec fn analysis_holds(s: ChangedSymbol, f: Function, p: Program) -> bool {
    exists|i2: Seq<Function>, r: EffectQueryRow|
        is_intrinsic_list(i2) && #[trigger] effect_row_is(r, p.functions@, i2, f) && analysis_is(s.capability_analysis, r)
}

/// What `s` says of the properties of `f` and of its arithmetic intent.
pub open spec fn hints_hold(s: ChangedSymbol, f: Function, p: Program, ins: Seq<Function>) -> bool {
    &&& crate::coverage::hints_are(s.property_coverage@, f, p.functions@, ins)
    &&& texts(s.intent_implementation_risks@) == intent_risks(f, p.functions@, ins)
}

/// What `s` says of the dependents of `f` and of their evidence.
pub open spec fn impact_holds(s: ChangedSymbol, f: Function, p: Program, ins: Seq<Function>) -> bool {
    let fs = p.functions@;
    &&& exists|i3: Seq<Function>|
        is_intrinsic_list(i3) && impacts_are(
            s.impact@,
            call_rows(fs, i3),
            impact_targets(fs, symbol_text(f), fs.len() as int),
            #[trigger] impact_report(fs, i3, symbol_text(f)),
        )
    &&& s.impact_coverage@.len() == s.impact@.len()
    &&& forall|k: int| 0 <= k < s.impact@.len() ==> coverage_is(#[trigger] s.impact_coverage@[k], s.impact@[k], fs, ins)
}

/// What `s` derives from its other parts: the drift, the stale migrations, the semantic
/// changes and the residual risks; and what it copies of `f`.
pub open spec fn derived_holds(s: ChangedSymbol, f: Function) -> bool {
    &&& same_function(s.function, f)
    &&& evidence_is(s.evidence, f)
    &&& drift_is(s.evidence_drift, s)
    &&& s.stale_migrations@.map_values(|m: StaleMigration| stale_view(m)) == stale_of(f.migrations@, gates_of(s))
    &&& s.version_explicit == f.version_explicit
    &&& s.migrations@ == f.migrations@
    &&& change_views(s.semantic_changes@) == semantic_change_list(
        f,
        s.behavior_change,
        s.capability_analysis,
        s.capability_change,
        s.evidence_drift,
        s.evidence_weakening@,
        s.implementation_change,
        s.implementation_evidence,
        texts(s.intent_implementation_risks@),
        s.stale_migrations@,
        s.impact@,
        s.impact_coverage@,
    )
    &&& texts(s.residual_risks@) == symbol_risks(f, s)
}

/// `s` is the changed symbol of function `f` of program `p` against the baseline functions
/// `base`; `ins` are the intrinsics that calls may resolve to.
pub open spec fn symbol_holds(s: ChangedSymbol, f: Function, p: Program, base: Seq<Function>, ins: Seq<Function>) -> bool {
    &&& baseline_holds(s, f, p, base, ins)
    &&& analysis_holds(s, f, p)
    &&& hints_hold(s, f, p, ins)
    &&& impact_holds(s, f, p, ins)
    &&& derived_holds(s, f)
}

/// `s` is the changed symbol of function `f` of program `p` against the baseline functions
/// `base`, for the intrinsics that calls resolve to.
#[verifier::opaque]
pub open spec fn symbol_for(s: ChangedSymbol, f: Function, p: Program, base: Seq<Function>) -> bool {
    exists|ins: Seq<Function>| is_intrinsic_list(ins) && #[trigger] symbol_holds(s, f, p, base, ins)
}

fn copy_migrations(v: &Vec<MigrationRecord>) -> (res: Vec<MigrationRecord>)
    ensures
        res@ == v@,
{
    let mut out: Vec<MigrationRecord> = Vec::new();
    let mut i: usize = 0;
    while i < v.len()
        invariant
            i <= v@.len(),
            out@ == v@.take(i as int),
        decreases v@.len() - i,
    {
        out.push(MigrationRecord { kind: v[i].kind.clone(), note: v[i].note.clone() });
        assert(v@.take(i + 1) =~= v@.take(i as int).push(v@[i as int]));
        i += 1;
    }
    assert(v@.take(v@.len() as int) =~= v@);
    out
}

fn impact_coverages(impact: &Vec<ImpactDependent>, fs: &Vec<Function>, ins: &Vec<Function>) -> (res: Vec<ImpactEvidenceCoverage>)
    ensures
        res@.len() == impact@.len(),
        forall|k: int| 0 <= k < impact@.len() ==> coverage_is(#[trigger] res@[k], impact@[k], fs@, ins@),
{
    let mut out: Vec<ImpactEvidenceCoverage> = Vec::new();
    let mut i: usize = 0;
    while i < impact.len()
        invariant
            i <= impact@.len(),
            out@.len() == i,
            forall|k: int| 0 <= k < i ==> coverage_is(#[trigger] out@[k], impact@[k], fs@, ins@),
        decreases impact@.len() - i,
    {
        out.push(impact_evidence_coverage(&impact[i], fs, ins));
        i += 1;
    }
    out
}

fn push_risk(out: &mut Vec<String>, cond: bool, m: &str)
    ensures
        texts(final(out)@) == texts(old(out)@) + risk_if(cond, m@),
{
    let ghost before = texts(out@);
    if cond {
        out.push(owned(m));
    }
    assert(texts(out@) =~= before + risk_if(cond, m@));
}

fn implementation_risk_text(f: &Function, s: &ChangedSymbol) -> (res: Vec<String>)
    ensures
        texts(res@) == implementation_risk(*f, *s),
{
    let mut out: Vec<String> = Vec::new();
    if s.implementation_change.is_some() && !has_migration(f, "implementation-change") {
        if executable_evidence_strengthened(&s.evidence_delta) {
            let (covered, sensitive) = match &s.implementation_evidence {
                Some(c) => (c.covered, c.behavior_sensitive),
                None => (false, false),
            };
            if covered {
                if sensitive {
                    out.push(owned("Implementation changed compared with HEAD; verify the added executable evidence explains the change."));
                } else {
                    out.push(owned("Implementation changed compared with HEAD, but added executable evidence also passes against the HEAD implementation."));
                }
            } else {
                out.push(owned("Implementation changed compared with HEAD, but added executable evidence does not call the changed function."));
            }
        } else {
            out.push(owned("Implementation changed compared with HEAD without added executable evidence."));
        }
    }
    assert(texts(out@) =~= implementation_risk(*f, *s));
    out
}

fn stale_risks(v: &Vec<StaleMigration>) -> (res: Vec<String>)
    ensures
        texts(res@) == v@.map_values(|m: StaleMigration| stale_risk(m)),
{
    let ghost full = v@.map_values(|m: StaleMigration| stale_risk(m));
    let mut out: Vec<String> = Vec::new();
    let mut i: usize = 0;
    while i < v.len()
        invariant
            i <= v@.len(),
            full == v@.map_values(|m: StaleMigration| stale_risk(m)),
            texts(out@) == full.take(i as int),
        decreases v@.len() - i,
    {
        let ghost before = texts(out@);
        let mut m = owned("Stale ");
        m.append(v[i].kind.as_str());
        m.append(" migration acknowledgement at same-kind index ");
        let n = usize_text(v[i].index);
        m.append(n.as_str());
        m.append(".");
        out.push(m);
        assert(texts(out@) =~= before.push(full[i as int]));
        assert(full.take(i + 1) =~= full.take(i as int).push(full[i as int]));
        i += 1;
    }
    assert(full.take(v@.len() as int) =~= full);
    out
}

fn first_risks(f: &Function, s: &ChangedSymbol) -> (res: Vec<String>)
    ensures
        texts(res@) == head_risks(*f, *s),
{
    let mut out: Vec<String> = Vec::new();
    assert(texts(out@) =~= seq![]);
    push_risk(
        &mut out,
        !f.version_explicit,
        "Public symbol relies on the bootstrap default version; unattended certification requires an explicit version.",
    );
    push_risk(&mut out, s.evidence.examples == 0, "No executable examples cover this symbol.");
    push_risk(&mut out, s.evidence.properties == 0, "No sampled properties cover this symbol.");
    push_risk(
        &mut out,
        s.evidence.requires == 0 && s.evidence.ensures == 0,
        "No executable contract clauses cover this symbol.",
    );
    out
}

fn review_risks(f: &Function, s: &ChangedSymbol) -> (res: Vec<String>)
    ensures
        texts(res@) == review_risks_of(*f, *s),
{
    let mut out: Vec<String> = Vec::new();
    assert(texts(out@) =~= seq![]);
    let review = has_migration(f, "impact-review");
    push_risk(&mut out, s.impact.len() > 0 && !review, "Transitive dependents must be reviewed before changing behavior.");
    let mut uncovered = false;
    let mut k: usize = 0;
    while k < s.impact_coverage.len()
        invariant
            k <= s.impact_coverage@.len(),
            uncovered == exists|j: int| 0 <= j < k && !(#[trigger] s.impact_coverage@[j]).covered,
        decreases s.impact_coverage@.len() - k,
    {
        if !s.impact_coverage[k].covered {
            uncovered = true;
        }
        k += 1;
    }
    push_risk(
        &mut out,
        uncovered && !review,
        "One or more impacted dependent call edges lack executable evidence coverage.",
    );
    push_risk(
        &mut out,
        s.evidence_weakening.len() > 0 && !has_migration(f, "evidence-weakening"),
        "Executable evidence was removed or narrowed compared with HEAD.",
    );
    let unacked = match &s.behavior_change {
        Some(c) => !public_behavior_change_acknowledged(f, c),
        None => false,
    };
    push_risk(
        &mut out,
        unacked,
        "Public contract surface changed without a new symbol version compared with HEAD.",
    );
    let expanded = match &s.capability_change {
        Some(c) => c.added.len() > 0 && !has_migration(f, "capability-expansion"),
        None => false,
    };
    push_risk(&mut out, expanded, "Declared capabilities expanded compared with HEAD without acknowledgement.");
    out
}

fn tail_risks(f: &Function, s: &ChangedSymbol) -> (res: Vec<String>)
    ensures
        texts(res@) == tail_risks_of(*f, *s),
{
    let mut out: Vec<String> = Vec::new();
    assert(texts(out@) =~= seq![]);
    push_risk(
        &mut out,
        s.evidence_drift.is_some() && !has_migration(f, "implementation-change"),
        "Implementation and executable evidence changed together compared with HEAD without acknowledgement.",
    );
    let ghost d = texts(out@);
    let mut k: usize = 0;
    while k < s.intent_implementation_risks.len()
        invariant
            k <= s.intent_implementation_risks@.len(),
            texts(out@) == d + texts(s.intent_implementation_risks@).take(k as int),
        decreases s.intent_implementation_risks@.len() - k,
    {
        let ghost pre = texts(out@);
        out.push(owned(s.intent_implementation_risks[k].as_str()));
        assert(texts(out@) =~= pre.push(s.intent_implementation_risks@[k as int]@));
        assert(texts(s.intent_implementation_risks@).take(k + 1) =~= texts(s.intent_implementation_risks@).take(k as int).push(
            s.intent_implementation_risks@[k as int]@,
        ));
        k += 1;
    }
    assert(texts(s.intent_implementation_risks@).take(s.intent_implementation_risks@.len() as int) =~= texts(
        s.intent_implementation_risks@,
    ));
    let mut st = stale_risks(&s.stale_migrations);
    let ghost e = texts(out@);
    let ghost g = texts(st@);
    out.append(&mut st);
    assert(texts(out@) =~= e + g);
    out
}

fn residual_risk_list(f: &Function, s: &ChangedSymbol) -> (res: Vec<String>)
    ensures
        texts(res@) == symbol_risks(*f, *s),
{
    let mut out = first_risks(f, s);
    let mut r = review_risks(f, s);
    let ghost a = texts(out@);
    let ghost b = texts(r@);
    out.append(&mut r);
    assert(texts(out@) =~= a + b);
    let mut i = implementation_risk_text(f, s);
    let ghost c = texts(i@);
    out.append(&mut i);
    assert(texts(out@) =~= a + b + c);
    let mut t = tail_risks(f, s);
    let ghost d = texts(t@);
    out.append(&mut t);
    assert(texts(out@) =~= a + b + c + d);
    out
}

// ---------------------------------------------------------------------------
// Changed symbols and the change plan
// ---------------------------------------------------------------------------
/// Compares a function of the program with its baseline (the last baseline function with
/// its symbol, if any): its evidence and how it grew, its contract surface, capabilities,
/// implementation and the evidence added with it, the dependents it impacts and their
/// coverage, its stale migrations, semantic changes and residual risks.
#[verifier::rlimit(100)]
#[verifier::spinoff_prover]
pub fn changed_symbol(function: &Function, program: &Program, baseline: &Vec<Function>) -> (res: ChangedSymbol)
    ensures
        symbol_for(res, *function, *program, baseline@),
{
    let ins = intrinsic_functions();
    let sym = function.symbol();
    let evidence = evidence_coverage(function);
    let analysis = capability_analysis(function, program);
    let bi = find_baseline(baseline, sym.as_str());
    let mut baseline_evidence: Option<EvidenceCoverage> = None;
    let mut behavior_change: Option<PublicBehaviorChange> = None;
    let mut cap: Option<CapabilityChange> = None;
    let mut delta: Option<EvidenceDelta> = None;
    let mut weakening: Vec<EvidenceWeakening> = Vec::new();
    let mut implc: Option<ImplementationChange> = None;
    let mut ie: Option<ImplementationEvidenceCoverage> = None;
    match bi {
        Some(k) => {
            let b = &baseline[k];
            let be = evidence_coverage(b);
            delta = Some(delta_of(&evidence, &be));
            baseline_evidence = Some(be);
            behavior_change = public_behavior_change(b, function);
            cap = capability_change(b, function);
            weakening = evidence_weakening(b, function);
            implc = implementation_change(b, function, program);
            if implc.is_some() {
                let bfs = functions_with(&program.functions, b);
                ie = Some(implementation_evidence_coverage(b, function, program, &bfs, &program.functions, &ins));
            }
        },
        None => {},
    }
    let drift = if implc.is_some() {
        match &behavior_change {
            Some(c) => evidence_drift(c),
            None => None,
        }
    } else {
        None
    };
    let property_coverage = property_coverage_hints(function, &program.functions, &ins);
    let risks = intent_implementation_risks(function, &program.functions, &ins);
    let impact = query_impact(program, sym.as_str());
    let impact_coverage = impact_coverages(&impact, &program.functions, &ins);
    let gates = active_gates(&behavior_change, &cap, &drift, &weakening, &implc, &impact, &impact_coverage);
    let stale = stale_migrations(function, &gates);
    let semantic = semantic_changes(
        function,
        &behavior_change,
        &analysis,
        &cap,
        &drift,
        &weakening,
        &implc,
        &ie,
        &risks,
        &stale,
        &impact,
        &impact_coverage,
    );
    let mut s = ChangedSymbol {
        function: function.copy(),
        baseline_evidence,
        behavior_change,
        capability_analysis: analysis,
        capability_change: cap,
        evidence,
        evidence_delta: delta,
        evidence_drift: drift,
        property_coverage,
        evidence_weakening: weakening,
        implementation_change: implc,
        implementation_evidence: ie,
        intent_implementation_risks: risks,
        version_explicit: function.version_explicit,
        migrations: copy_migrations(&function.migrations),
        stale_migrations: stale,
        impact,
        impact_coverage,
        semantic_changes: semantic,
        residual_risks: Vec::new(),
    };
    proof {
        assert(gates == gates_of(s));
    }
    let rr = residual_risk_list(function, &s);
    s.residual_risks = rr;
    proof {
        assert(baseline_holds(s, *function, *program, baseline@, ins@));
        assert(analysis_holds(s, *function, *program));
        assert(hints_hold(s, *function, *program, ins@));
        assert(impact_holds(s, *function, *program, ins@));
        assert(derived_holds(s, *function));
        assert(symbol_holds(s, *function, *program, baseline@, ins@));
        reveal(symbol_for);
    }
    s
}

/// The functions whose source path is among `paths`, in program order.
pub open spec fn changed_functions(fs: Seq<Function>, paths: Seq<Seq<char>>) -> Seq<Function>
    decreases fs.len(),
{
    if fs.len() == 0 {
        seq![]
    } else if paths.contains(fs.last().source_path@) {
        changed_functions(fs.drop_last(), paths).push(fs.last())
    } else {
        changed_functions(fs.drop_last(), paths)
    }
}

/// `syms` are the changed symbols of the functions of the changed paths, in program order.
pub open spec fn symbols_of(syms: Seq<ChangedSymbol>, p: Program, base: Seq<Function>, paths: Seq<Seq<char>>) -> bool {
    let cf = changed_functions(p.functions@, paths);
    &&& syms.len() == cf.len()
    &&& forall|k: int| 0 <= k < syms.len() ==> #[trigger] symbol_for(syms[k], cf[k], p, base)
}

fn path_listed(paths: &Vec<String>, p: &str) -> (res: bool)
    ensures
        res == texts(paths@).contains(p@),
{
    let mut i: usize = 0;
    while i < paths.len()
        invariant
            i <= paths@.len(),
            forall|q: int| 0 <= q < i ==> texts(paths@)[q] != p@,
        decreases paths@.len() - i,
    {
        if str_eq(paths[i].as_str(), p) {
            assert(texts(paths@)[i as int] == p@);
            return true;
        }
        i += 1;
    }
    false
}

fn changed_symbols_of(program: &Program, baseline: &Vec<Function>, changed_paths: &Vec<String>) -> (res: Vec<ChangedSymbol>)
    ensures
        symbols_of(res@, *program, baseline@, texts(changed_paths@)),
{
    let ghost paths = texts(changed_paths@);
    let ghost fs = program.functions@;
    let mut out: Vec<ChangedSymbol> = Vec::new();
    let mut i: usize = 0;
    assert(fs.take(0) =~= Seq::<Function>::empty());
    while i < program.functions.len()
        invariant
            i <= fs.len(),
            fs == program.functions@,
            paths == texts(changed_paths@),
            out@.len() == changed_functions(fs.take(i as int), paths).len(),
            forall|k: int|
                #![trigger out@[k]]
                0 <= k < out@.len() ==> symbol_for(out@[k], changed_functions(fs.take(i as int), paths)[k], *program, baseline@),
        decreases fs.len() - i,
    {
        let f = &program.functions[i];
        assert(fs.take(i + 1).drop_last() =~= fs.take(i as int));
        assert(fs.take(i + 1).last() == fs[i as int]);
        let ghost prev = changed_functions(fs.take(i as int), paths);
        let ghost old_out = out@;
        if path_listed(changed_paths, f.source_path.as_str()) {
            let s = changed_symbol(f, program, baseline);
            let ghost sv = s;
            out.push(s);
            proof {
                let cf = changed_functions(fs.take(i + 1), paths);
                assert(cf == prev.push(fs[i as int]));
                assert forall|k: int|
                    #![trigger out@[k]]
                    0 <= k < out@.len() implies symbol_for(out@[k], cf[k], *program, baseline@) by {
                    if k < prev.len() {
                        assert(cf[k] == prev[k]);
                        assert(out@[k] == old_out[k]);
                    } else {
                        assert(cf[k] == fs[i as int]);
                        assert(out@[k] == sv);
                    }
                }
            }
        } else {
            proof {
                let cf = changed_functions(fs.take(i + 1), paths);
                assert(cf == prev);
                assert forall|k: int|
                    #![trigger out@[k]]
                    0 <= k < out@.len() implies symbol_for(out@[k], cf[k], *program, baseline@) by {
                    assert(cf[k] == prev[k]);
                }
            }
        }
        i += 1;
    }
    assert(fs.take(fs.len() as int) =~= fs);
    proof {
        let cf = changed_functions(fs, paths);
        assert(cf == changed_functions(fs.take(i as int), paths));
        assert forall|k: int|
            #![trigger out@[k]]
            0 <= k < out@.len() implies symbol_for(out@[k], cf[k], *program, baseline@) by {
        }
    }
    out
}

/// The change plan of the functions of the changed files: the program checked, each
/// function whose source path is among `changed_paths` compared with its baseline, the
/// baseline's public symbols that are gone, and the plan assembled from them.
pub fn plan_of(
    program: &Program,
    parse_diagnostics: Vec<Diagnostic>,
    architecture: &Architecture,
    near: Vec<Option<Diagnostic>>,
    changed_paths: Vec<String>,
    source_paths: Vec<String>,
    baseline: &Vec<Function>,
    explicit: bool,
) -> (res: ChangePlan)
    requires
        near_warnings_ok(program.functions@, near@),
        program.functions@.len() < usize::MAX,
        example_count(program.functions@, program.functions@.len() as int) <= usize::MAX,
        property_count(program.functions@, program.functions@.len() as int) <= usize::MAX,
    ensures
        checked(res.summary, *program, parse_diagnostics@, *architecture, near@),
        exists|syms: Seq<ChangedSymbol>|
            #[trigger] symbols_of(syms, *program, baseline@, texts(changed_paths@)) && plan_built(
                res,
                res.summary,
                syms,
                res.removed_symbols,
                changed_paths,
                source_paths,
                explicit,
            ),
        exists|perm: Seq<usize>|
            #[trigger] is_permutation(perm, removed_from(program.functions@, baseline@).len() as int)
                && removed_listed(res.removed_symbols@, program.functions@, removed_from(program.functions@, baseline@), perm),
{
    let summary = check_program(program, parse_diagnostics, architecture, near);
    let syms = changed_symbols_of(program, baseline, &changed_paths);
    let ghost sv = syms@;
    let removed = removed_public_symbols(program, baseline);
    let res = build_plan(summary, syms, removed, changed_paths, source_paths, explicit);
    assert(symbols_of(sv, *program, baseline@, texts(changed_paths@)));
    res
}

} // verus!
