//! A change plan: how the changed public symbols of a program differ from their baseline,
//! and the errors that the unattended certification gates raise from it.
use vstd::prelude::*;
use vstd::string::*;

use crate::checker::CheckSummary;
use crate::checks::{finding_of, reports_findings, target_of, Finding};
use crate::diagnostic::{
    add_command, add_prose, no_repairs, push_arg, repairs_of, strs, Diagnostic, Repairs, Severity,
};
use crate::ledger::{
    capability_list, effect_row, effect_row_is, ncaps, norm_set, normalized_effect_list,
    strings_of, CallSite, ImpactDependent,
};
use crate::checks::difference;
use crate::intrinsics::{intrinsic_functions, is_intrinsic_list};
use crate::model::Program;
use crate::text::{
    is_permutation, lemma_sorted_of, seq_eq, sort_order, sorted_of, stably_sorted_by, strictly_sorted, views,
};
use crate::model::same_function;
use crate::json::{bool_str, bool_text};
use crate::text::{i64_text, int_text};
use crate::model::{signature_text, symbol_text, Function, MigrationRecord};
use crate::patch::{data_texts, texts};
use crate::text::{
    chars_of, decimal, has_prefix_str, join_spec, join_strings, owned, starts_with, str_eq, trim,
    trim_str, usize_text,
};

verus! {

#[derive(Clone, Debug)]
pub struct ChangePlan {
    pub ok: bool,
    pub mode: String,
    pub source_paths: Vec<String>,
    pub changed_paths: Vec<String>,
    pub removed_symbols: Vec<RemovedPublicSymbol>,
    pub changed_symbols: Vec<ChangedSymbol>,
    pub diagnostics: Vec<Diagnostic>,
    pub summary: CheckSummary,
    pub residual_risks: Vec<String>,
}

#[derive(Clone, Debug)]
pub struct ChangedSymbol {
    pub function: Function,
    pub baseline_evidence: Option<EvidenceCoverage>,
    pub behavior_change: Option<PublicBehaviorChange>,
    pub capability_analysis: CapabilityAnalysis,
    pub capability_change: Option<CapabilityChange>,
    pub evidence: EvidenceCoverage,
    pub evidence_delta: Option<EvidenceDelta>,
    pub evidence_drift: Option<EvidenceDrift>,
    pub property_coverage: Vec<PropertyCoverageHint>,
    pub evidence_weakening: Vec<EvidenceWeakening>,
    pub implementation_change: Option<ImplementationChange>,
    pub implementation_evidence: Option<ImplementationEvidenceCoverage>,
    pub intent_implementation_risks: Vec<String>,
    pub version_explicit: bool,
    pub migrations: Vec<MigrationRecord>,
    pub stale_migrations: Vec<StaleMigration>,
    pub impact: Vec<ImpactDependent>,
    pub impact_coverage: Vec<ImpactEvidenceCoverage>,
    pub semantic_changes: Vec<SemanticChange>,
    pub residual_risks: Vec<String>,
}

#[derive(Clone, Debug, Eq, PartialEq)]
pub struct SemanticChange {
    pub label: String,
    pub acknowledged: bool,
    pub details: Vec<String>,
}

#[derive(Clone, Debug, Eq, PartialEq)]
pub struct RemovedPublicSymbol {
    pub function: Function,
    pub replacement_candidates: Vec<Function>,
}

#[derive(Clone, Debug, Eq, PartialEq)]
pub struct StaleMigration {
    pub kind: String,
    pub index: usize,
    pub note: String,
    pub reason: String,
}

#[derive(Clone, Debug, Eq, PartialEq)]
pub struct EvidenceCoverage {
    pub requires: usize,
    pub ensures: usize,
    pub examples: usize,
    pub properties: usize,
}

#[derive(Clone, Debug, Eq, PartialEq)]
pub struct EvidenceDelta {
    pub requires: isize,
    pub ensures: isize,
    pub examples: isize,
    pub properties: isize,
}

#[derive(Clone, Debug, Eq, PartialEq)]
pub struct EvidenceWeakening {
    pub kind: String,
    pub before: usize,
    pub after: usize,
    pub removed: Vec<String>,
}

#[derive(Clone, Debug, Eq, PartialEq)]
pub struct EvidenceDrift {
    pub changed: Vec<String>,
}

#[derive(Clone, Debug, Eq, PartialEq)]
pub struct PublicBehaviorChange {
    pub changed: Vec<String>,
}

#[derive(Clone, Debug, Eq, PartialEq)]
pub struct CapabilityChange {
    pub before: Vec<String>,
    pub after: Vec<String>,
    pub added: Vec<String>,
    pub removed: Vec<String>,
}

#[derive(Clone, Debug, Eq, PartialEq)]
pub struct CapabilityAnalysis {
    pub declared_effects: Vec<String>,
    pub declared_capabilities: Vec<String>,
    pub required_by_direct_callees: Vec<String>,
    pub missing_for_direct_callees: Vec<String>,
    pub unused_for_direct_callees: Vec<String>,
    pub suggested_effects: String,
}

#[derive(Clone, Debug, Eq, PartialEq)]
pub struct ImplementationChange {
    pub before: String,
    pub after: String,
}

#[derive(Clone, Debug, Eq, PartialEq)]
pub struct ImplementationEvidenceCoverage {
    pub added_examples: Vec<String>,
    pub added_properties: Vec<String>,
    pub behavior_sensitive: bool,
    pub covered: bool,
    pub coverage: Vec<CallSite>,
    pub reason: String,
    pub sensitivity: Vec<CallSite>,
    pub sensitivity_reason: String,
}

#[derive(Clone, Debug, Eq, PartialEq)]
pub struct ImpactEvidenceCoverage {
    pub dependent: Function,
    pub edge_target: Function,
    pub target: Function,
    pub depth: usize,
    pub path: Vec<Function>,
    pub covered: bool,
    pub coverage: Vec<CallSite>,
    pub reason: String,
}

#[derive(Clone, Debug, Eq, PartialEq)]
pub struct PropertyCoverageHint {
    pub property_index: usize,
    pub expression: String,
    pub variables: Vec<String>,
    pub sample_count: usize,
    pub direct_call: bool,
    pub vacuous: bool,
    pub unsupported_types: Vec<String>,
    pub unsupported_reasons: Vec<String>,
    pub recursive_record_cycles: Vec<String>,
}

// ---------------------------------------------------------------------------
// Acknowledgements
// ---------------------------------------------------------------------------
/// `f` records a migration of `kind` with a note that is not blank.
pub open spec fn acknowledges(f: Function, kind: Seq<char>) -> bool {
    exists|k: int|
        0 <= k < f.migrations@.len() && (#[trigger] f.migrations@[k]).kind@ == kind && trim(
            f.migrations@[k].note@,
        ).len() > 0
}

/// Whether `f` records a migration of `kind` with a note that is not blank.
pub fn has_migration(f: &Function, kind: &str) -> (res: bool)
    ensures
        res == acknowledges(*f, kind@),
{
    let mut k: usize = 0;
    while k < f.migrations.len()
        invariant
            k <= f.migrations@.len(),
            forall|j: int|
                0 <= j < k ==> !((#[trigger] f.migrations@[j]).kind@ == kind@ && trim(f.migrations@[j].note@).len() > 0),
        decreases f.migrations@.len() - k,
    {
        let m = &f.migrations[k];
        if str_eq(m.kind.as_str(), kind) && trim_str(m.note.as_str()).as_str().unicode_len() > 0 {
            return true;
        }
        k += 1;
    }
    false
}

/// A changed public surface is acknowledged by a public-behavior-change migration, or, when
/// only the effects changed, by a capability-expansion one.
pub open spec fn behavior_acknowledged(f: Function, c: PublicBehaviorChange) -> bool {
    acknowledges(f, "public-behavior-change"@) || (texts(c.changed@) == seq!["effects"@] && acknowledges(
        f,
        "capability-expansion"@,
    ))
}

pub(crate) fn public_behavior_change_acknowledged(f: &Function, c: &PublicBehaviorChange) -> (res: bool)
    ensures
        res == behavior_acknowledged(*f, *c),
{
    if has_migration(f, "public-behavior-change") {
        return true;
    }
    let only_effects = c.changed.len() == 1 && str_eq(c.changed[0].as_str(), "effects");
    assert(only_effects == (texts(c.changed@) == seq!["effects"@])) by {
        assert(texts(c.changed@).len() == c.changed@.len());
        if texts(c.changed@) == seq!["effects"@] {
            assert(c.changed@.len() == 1);
            assert(texts(c.changed@)[0] == c.changed@[0]@);
        }
        if only_effects {
            assert(texts(c.changed@) =~= seq!["effects"@]);
        }
    }
    only_effects && has_migration(f, "capability-expansion")
}

/// Some executable evidence was added compared with the baseline.
pub open spec fn strengthened(d: Option<EvidenceDelta>) -> bool {
    match d {
        Some(d) => d.requires > 0 || d.ensures > 0 || d.examples > 0 || d.properties > 0,
        None => false,
    }
}

pub(crate) fn executable_evidence_strengthened(d: &Option<EvidenceDelta>) -> (res: bool)
    ensures
        res == strengthened(*d),
{
    match d {
        Some(d) => d.requires > 0 || d.ensures > 0 || d.examples > 0 || d.properties > 0,
        None => false,
    }
}

fn joined(parts: &Vec<String>, sep: &str) -> (res: String)
    ensures
        res@ == join_spec(texts(parts@), sep@),
{
    let r = join_strings(parts, sep);
    assert(parts@.map_values(|p: String| p@) =~= texts(parts@));
    r
}

fn words(a: &str, b: &str) -> (res: Vec<String>)
    ensures
        strs(res@) == seq![a@, b@],
{
    let mut v: Vec<String> = Vec::new();
    push_arg(&mut v, owned(a));
    push_arg(&mut v, owned(b));
    assert(strs(v@) =~= seq![a@, b@]);
    v
}

fn words3(a: &str, b: &str, c: &str) -> (res: Vec<String>)
    ensures
        strs(res@) == seq![a@, b@, c@],
{
    let mut v = words(a, b);
    push_arg(&mut v, owned(c));
    assert(strs(v@) =~= seq![a@, b@, c@]);
    v
}

/// `bin/serow patch add-migration <path> <symbol> <kind> <note>`
pub open spec fn migration_cmd(f: Function, kind: Seq<char>, note: Seq<char>) -> Seq<Seq<char>> {
    seq!["bin/serow"@, "patch"@, "add-migration"@, f.source_path@, symbol_text(f), kind, note]
}

/// `bin/serow plan <paths...> --json`
pub open spec fn plan_cmd(paths: Seq<Seq<char>>) -> Seq<Seq<char>> {
    seq!["bin/serow"@, "plan"@] + paths + seq!["--json"@]
}

/// `bin/serow plan <path> --json`
pub open spec fn review_cmd(f: Function) -> Seq<Seq<char>> {
    seq!["bin/serow"@, "plan"@, f.source_path@, "--json"@]
}

/// One runnable repair, then one prose repair.
pub open spec fn gate_repairs(label: Seq<char>, cmd: Seq<Seq<char>>, prose: Seq<char>) -> Repairs {
    add_prose(add_command(no_repairs(), label, cmd), prose)
}

fn migration_command(f: &Function, sym: &String, kind: &str, note: &str) -> (res: Vec<String>)
    requires
        sym@ == symbol_text(*f),
    ensures
        strs(res@) == migration_cmd(*f, kind@, note@),
{
    let mut v = words3("bin/serow", "patch", "add-migration");
    push_arg(&mut v, f.source_path.clone());
    push_arg(&mut v, sym.clone());
    push_arg(&mut v, owned(kind));
    push_arg(&mut v, owned(note));
    assert(strs(v@) =~= migration_cmd(*f, kind@, note@));
    v
}

fn plan_command(paths: &[String]) -> (res: Vec<String>)
    ensures
        strs(res@) == plan_cmd(strs(paths@)),
{
    let mut v = words("bin/serow", "plan");
    let mut i: usize = 0;
    while i < paths.len()
        invariant
            i <= paths@.len(),
            strs(v@) == seq!["bin/serow"@, "plan"@] + strs(paths@.take(i as int)),
        decreases paths@.len() - i,
    {
        push_arg(&mut v, paths[i].clone());
        assert(strs(v@) =~= seq!["bin/serow"@, "plan"@] + strs(paths@.take(i + 1)));
        i += 1;
    }
    push_arg(&mut v, owned("--json"));
    assert(paths@.take(paths@.len() as int) =~= paths@);
    assert(strs(v@) =~= plan_cmd(strs(paths@)));
    v
}

// ---------------------------------------------------------------------------
// Removed public symbols
// ---------------------------------------------------------------------------
/// One error for each removed public symbol without a same-name replacement.
pub open spec fn removed_findings(rs: Seq<RemovedPublicSymbol>, paths: Seq<Seq<char>>) -> Seq<Finding>
    decreases rs.len(),
{
    if rs.len() == 0 {
        seq![]
    } else {
        let r = rs.last();
        let rest = removed_findings(rs.drop_last(), paths);
        if r.replacement_candidates@.len() == 0 {
            rest.push(
                (
                    Severity::Error,
                    "PublicSymbolRemoved"@,
                    "Public symbol `"@ + symbol_text(r.function)
                        + "` was removed without a same-name replacement version."@,
                    target_of(r.function),
                    seq![("symbol"@, symbol_text(r.function)), ("signature"@, signature_text(r.function))],
                    gate_repairs(
                        "Review removed public symbols"@,
                        plan_cmd(paths),
                        "Restore the public symbol, keep a compatibility wrapper, or introduce a same-name replacement version before unattended certification."@,
                    ),
                ),
            )
        } else {
            rest
        }
    }
}

proof fn lemma_report_push(ds: Seq<Diagnostic>, fs: Seq<Finding>, d: Diagnostic, f: Finding)
    requires
        reports_findings(ds, fs),
        d.target is Some,
        finding_of(d) == f,
    ensures
        reports_findings(ds.push(d), fs.push(f)),
{
    assert forall|k: int| 0 <= k < ds.push(d).len() implies (#[trigger] ds.push(d)[k]).target is Some
        && finding_of(ds.push(d)[k]) == fs.push(f)[k] by {
        if k < ds.len() {
            assert(ds.push(d)[k] == ds[k]);
        }
    }
}

/// The errors of the removed-symbol gate: public symbols that the change removes without
/// a same-name replacement version.
pub fn unattended_removed_public_symbol_diagnostics(plan: &ChangePlan, paths: &[String]) -> (res: Vec<
    Diagnostic,
>)
    ensures
        reports_findings(res@, removed_findings(plan.removed_symbols@, strs(paths@))),
{
    let rs = &plan.removed_symbols;
    let mut out: Vec<Diagnostic> = Vec::new();
    let mut i: usize = 0;
    assert(rs@.take(0) =~= Seq::<RemovedPublicSymbol>::empty());
    while i < rs.len()
        invariant
            i <= rs@.len(),
            reports_findings(out@, removed_findings(rs@.take(i as int), strs(paths@))),
        decreases rs@.len() - i,
    {
        proof {
            assert(rs@.take(i + 1).drop_last() =~= rs@.take(i as int));
            assert(rs@.take(i + 1).last() == rs@[i as int]);
        }
        let r = &rs[i];
        if r.replacement_candidates.len() == 0 {
            let f = &r.function;
            let sym = f.symbol();
            let mut m = owned("Public symbol `");
            m.append(sym.as_str());
            m.append("` was removed without a same-name replacement version.");
            let sig = f.signature();
            let d = Diagnostic::error("PublicSymbolRemoved", m.as_str(), Some(f.target()))
                .with_data("symbol", sym.as_str())
                .with_data("signature", sig.as_str())
                .with_command_repair("Review removed public symbols", plan_command(paths))
                .with_repair(
                    "Restore the public symbol, keep a compatibility wrapper, or introduce a same-name replacement version before unattended certification.",
                );
            proof {
                assert(data_texts(d) =~= seq![("symbol"@, symbol_text(*f)), ("signature"@, signature_text(*f))]);
                lemma_report_push(out@, removed_findings(rs@.take(i as int), strs(paths@)), d, removed_findings(rs@.take(i + 1), strs(paths@)).last());
            }
            out.push(d);
        }
        i += 1;
    }
    assert(rs@.take(rs@.len() as int) =~= rs@);
    out
}

// ---------------------------------------------------------------------------
// Gates over the changed symbols
// ---------------------------------------------------------------------------
/// `Public function `name``
pub open spec fn public_fn(f: Function) -> Seq<char> {
    "Public function `"@ + f.name@ + "`"@
}

/// The weakened-evidence error for one kind of evidence.
pub open spec fn weakening_finding(f: Function, w: EvidenceWeakening) -> Finding {
    (
        Severity::Error,
        "EvidenceWeakening"@,
        public_fn(f) + " weakens "@ + w.kind@ + " evidence compared with HEAD."@,
        target_of(f),
        seq![
            ("symbol"@, symbol_text(f)),
            ("kind"@, w.kind@),
            ("before"@, decimal(w.before as nat)),
            ("after"@, decimal(w.after as nat)),
            ("removed"@, join_spec(texts(w.removed@), "\n"@)),
        ],
        gate_repairs(
            "Acknowledge intentional evidence weakening"@,
            migration_cmd(f, "evidence-weakening"@, "Document why the weakened evidence remains acceptable."@),
            "Restore the removed executable evidence or make an explicit migration/version decision before unattended certification."@,
        ),
    )
}

/// The errors of the evidence-weakening gate for one symbol.
pub open spec fn weakening_findings(s: ChangedSymbol) -> Seq<Finding> {
    if acknowledges(s.function, "evidence-weakening"@) {
        seq![]
    } else {
        s.evidence_weakening@.map_values(|w: EvidenceWeakening| weakening_finding(s.function, w))
    }
}

/// The error of the public-behavior gate for one symbol: its public surface changed
/// without acknowledgement.
pub open spec fn behavior_findings(s: ChangedSymbol) -> Seq<Finding> {
    match s.behavior_change {
        Some(c) => if behavior_acknowledged(s.function, c) {
            seq![]
        } else {
            seq![
                (
                    Severity::Error,
                    "PublicBehaviorChangeNeedsVersion"@,
                    public_fn(s.function)
                        + " changes its public contract surface without changing its symbol version."@,
                    target_of(s.function),
                    seq![("symbol"@, symbol_text(s.function)), ("changed"@, join_spec(texts(c.changed@), ", "@))],
                    gate_repairs(
                        "Acknowledge intentional public behavior change"@,
                        migration_cmd(
                            s.function,
                            "public-behavior-change"@,
                            "Document why this same-version public surface change is compatible."@,
                        ),
                        "Preserve the existing public contract surface or introduce a new explicit version before unattended certification."@,
                    ),
                ),
            ]
        },
        None => seq![],
    }
}

/// The error of the capability gate for one symbol: capabilities added without
/// acknowledgement.
pub open spec fn capability_findings(s: ChangedSymbol) -> Seq<Finding> {
    if acknowledges(s.function, "capability-expansion"@) {
        seq![]
    } else {
        match s.capability_change {
            Some(c) => if c.added@.len() == 0 {
                seq![]
            } else {
                seq![
                    (
                        Severity::Error,
                        "CapabilityExpansionNeedsMigration"@,
                        public_fn(s.function) + " expands its declared capabilities without acknowledgement."@,
                        target_of(s.function),
                        seq![
                            ("symbol"@, symbol_text(s.function)),
                            ("added"@, join_spec(texts(c.added@), ", "@)),
                            ("before"@, join_spec(texts(c.before@), ", "@)),
                            ("after"@, join_spec(texts(c.after@), ", "@)),
                        ],
                        gate_repairs(
                            "Acknowledge intentional capability expansion"@,
                            migration_cmd(
                                s.function,
                                "capability-expansion"@,
                                "Document why this capability expansion is required and acceptable."@,
                            ),
                            "Keep the existing minimum capability set, bump the public version, or add an explicit capability-expansion migration decision before unattended certification."@,
                        ),
                    ),
                ]
            },
            None => seq![],
        }
    }
}

/// The texts joined by new lines, or nothing when there is no coverage.
pub open spec fn coverage_lines(c: Option<ImplementationEvidenceCoverage>, examples: bool) -> Seq<char> {
    match c {
        Some(c) => join_spec(texts(if examples { c.added_examples@ } else { c.added_properties@ }), "\n"@),
        None => seq![],
    }
}

/// The error of the implementation gate for one symbol: the implementation changed and
/// no added evidence both calls it and fails against the baseline.
pub open spec fn implementation_findings(s: ChangedSymbol) -> Seq<Finding> {
    let f = s.function;
    let cov = s.implementation_evidence;
    if acknowledges(f, "implementation-change"@) {
        seq![]
    } else {
        match s.implementation_change {
            None => seq![],
            Some(ic) => if strengthened(s.evidence_delta) && cov is Some && cov->0.covered
                && cov->0.behavior_sensitive {
                seq![]
            } else if strengthened(s.evidence_delta) && cov is Some && cov->0.covered {
                seq![
                    (
                        Severity::Error,
                        "ImplementationChangeNeedsSensitiveEvidence"@,
                        public_fn(f)
                            + " changes its implementation, but the added executable evidence also passes against the HEAD implementation."@,
                        target_of(f),
                        seq![
                            ("symbol"@, symbol_text(f)),
                            ("before"@, ic.before@),
                            ("after"@, ic.after@),
                            ("added_examples"@, coverage_lines(cov, true)),
                            ("added_properties"@, coverage_lines(cov, false)),
                            ("sensitivity_reason"@, cov->0.sensitivity_reason@),
                        ],
                        gate_repairs(
                            "Review implementation evidence sensitivity"@,
                            review_cmd(f),
                            "Add executable evidence that would fail against the HEAD implementation, or add an explicit implementation-change migration decision."@,
                        ),
                    ),
                ]
            } else if strengthened(s.evidence_delta) {
                seq![
                    (
                        Severity::Error,
                        "ImplementationChangeNeedsCoveringEvidence"@,
                        public_fn(f)
                            + " changes its implementation, but the added executable evidence does not call the changed function."@,
                        target_of(f),
                        seq![
                            ("symbol"@, symbol_text(f)),
                            ("before"@, ic.before@),
                            ("after"@, ic.after@),
                            ("added_examples"@, coverage_lines(cov, true)),
                            ("added_properties"@, coverage_lines(cov, false)),
                        ],
                        gate_repairs(
                            "Review implementation evidence coverage"@,
                            review_cmd(f),
                            "Add an executable example or sampled property that directly calls the changed function, or add an explicit implementation-change migration decision."@,
                        ),
                    ),
                ]
            } else {
                seq![
                    (
                        Severity::Error,
                        "ImplementationChangeNeedsEvidence"@,
                        public_fn(f) + " changes its implementation without adding executable evidence."@,
                        target_of(f),
                        seq![("symbol"@, symbol_text(f)), ("before"@, ic.before@), ("after"@, ic.after@)],
                        gate_repairs(
                            "Acknowledge intentional implementation change"@,
                            migration_cmd(
                                f,
                                "implementation-change"@,
                                "Document why this implementation change is behavior-preserving."@,
                            ),
                            "Add executable evidence covering the implementation change or introduce a new explicit version/migration decision before unattended certification."@,
                        ),
                    ),
                ]
            },
        }
    }
}

/// The error of the drift gate for one symbol: implementation and evidence changed
/// together without acknowledgement.
pub open spec fn drift_findings(s: ChangedSymbol) -> Seq<Finding> {
    let f = s.function;
    if acknowledges(f, "implementation-change"@) {
        seq![]
    } else {
        match (s.evidence_drift, s.implementation_change) {
            (Some(d), Some(ic)) => seq![
                (
                    Severity::Error,
                    "ImplementationEvidenceDriftNeedsMigration"@,
                    public_fn(f) + " changes its implementation and executable evidence in the same patch."@,
                    target_of(f),
                    seq![
                        ("symbol"@, symbol_text(f)),
                        ("changed_evidence"@, join_spec(texts(d.changed@), ", "@)),
                        ("before"@, ic.before@),
                        ("after"@, ic.after@),
                    ],
                    gate_repairs(
                        "Acknowledge intentional implementation and evidence drift"@,
                        migration_cmd(
                            f,
                            "implementation-change"@,
                            "Document why this implementation change and evidence update remain compatible."@,
                        ),
                        "Separate the implementation and evidence edits, introduce a new explicit version, or add an implementation-change migration decision before unattended certification."@,
                    ),
                ),
            ],
            _ => seq![],
        }
    }
}

/// `a -> b -> c` of the functions' symbols.
pub open spec fn path_text(p: Seq<Function>) -> Seq<char> {
    join_spec(p.map_values(|f: Function| symbol_text(f)), " -> "@)
}

/// `context: expression` of each call site, one per line.
pub open spec fn sites_text(v: Seq<CallSite>) -> Seq<char> {
    join_spec(v.map_values(|c: CallSite| c.context@ + ": "@ + c.expression@), "\n"@)
}

/// The error for a dependent outside the change set.
pub open spec fn impact_finding(f: Function, i: ImpactDependent) -> Finding {
    (
        Severity::Error,
        "UncheckedImpact"@,
        public_fn(f) + " has dependent `"@ + symbol_text(i.function) + "` outside the certified change set."@,
        target_of(f),
        seq![
            ("symbol"@, symbol_text(f)),
            ("dependent"@, symbol_text(i.function)),
            ("depth"@, decimal(i.depth as nat)),
            ("path"@, path_text(i.path@)),
            ("call_sites"@, sites_text(i.call_sites@)),
        ],
        add_prose(
            add_command(
                add_command(no_repairs(), "Review transitive impact"@, seq!["bin/serow"@, "query"@, "impact"@, symbol_text(f)]),
                "Acknowledge reviewed impact"@,
                migration_cmd(f, "impact-review"@, "Document why the listed dependent impact is acceptable."@),
            ),
            "Include impacted dependents in the certified change set or add an explicit migration/impact decision before unattended certification."@,
        ),
    )
}

/// The dependents among `v` outside the change set `changed`, as errors.
pub open spec fn outside_findings(f: Function, v: Seq<ImpactDependent>, changed: Seq<Seq<char>>) -> Seq<Finding>
    decreases v.len(),
{
    if v.len() == 0 {
        seq![]
    } else {
        let rest = outside_findings(f, v.drop_last(), changed);
        if changed.contains(symbol_text(v.last().function)) {
            rest
        } else {
            rest.push(impact_finding(f, v.last()))
        }
    }
}

/// The errors of the unchecked-impact gate for one symbol.
pub open spec fn unchecked_findings(s: ChangedSymbol, changed: Seq<Seq<char>>) -> Seq<Finding> {
    if acknowledges(s.function, "impact-review"@) {
        seq![]
    } else {
        outside_findings(s.function, s.impact@, changed)
    }
}

/// The error for an impacted edge that no evidence covers.
pub open spec fn uncovered_finding(f: Function, c: ImpactEvidenceCoverage, paths: Seq<Seq<char>>) -> Finding {
    (
        Severity::Error,
        "UncoveredImpactEvidence"@,
        public_fn(f) + " has impacted dependent `"@ + symbol_text(c.dependent)
            + "` without executable evidence covering the changed call edge."@,
        target_of(f),
        seq![
            ("symbol"@, symbol_text(f)),
            ("dependent"@, symbol_text(c.dependent)),
            ("edge_target"@, symbol_text(c.edge_target)),
            ("target"@, symbol_text(c.target)),
            ("depth"@, decimal(c.depth as nat)),
            ("path"@, path_text(c.path@)),
            ("reason"@, c.reason@),
        ],
        add_prose(
            add_command(
                add_command(no_repairs(), "Review impact coverage"@, plan_cmd(paths)),
                "Acknowledge reviewed impact"@,
                migration_cmd(f, "impact-review"@, "Document why the uncovered impacted edge is acceptable."@),
            ),
            "Add an executable example or sampled property that exercises the impacted dependent call edge before unattended certification."@,
        ),
    )
}

/// The uncovered edges among `v`, as errors.
pub open spec fn uncovered_in(f: Function, v: Seq<ImpactEvidenceCoverage>, paths: Seq<Seq<char>>) -> Seq<Finding>
    decreases v.len(),
{
    if v.len() == 0 {
        seq![]
    } else {
        let rest = uncovered_in(f, v.drop_last(), paths);
        if v.last().covered {
            rest
        } else {
            rest.push(uncovered_finding(f, v.last(), paths))
        }
    }
}

/// The errors of the uncovered-impact gate for one symbol.
pub open spec fn uncovered_findings(s: ChangedSymbol, paths: Seq<Seq<char>>) -> Seq<Finding> {
    if acknowledges(s.function, "impact-review"@) {
        seq![]
    } else {
        uncovered_in(s.function, s.impact_coverage@, paths)
    }
}

/// The error for a stale migration acknowledgement.
pub open spec fn stale_finding(f: Function, m: StaleMigration) -> Finding {
    (
        Severity::Error,
        "StaleMigrationAcknowledgement"@,
        public_fn(f) + " has a stale `"@ + m.kind@ + "` migration acknowledgement."@,
        target_of(f),
        seq![
            ("symbol"@, symbol_text(f)),
            ("kind"@, m.kind@),
            ("index"@, decimal(m.index as nat)),
            ("note"@, m.note@),
            ("reason"@, m.reason@),
        ],
        gate_repairs(
            "Remove stale migration acknowledgement"@,
            seq!["bin/serow"@, "patch"@, "remove-migration"@, f.source_path@, symbol_text(f), m.kind@, decimal(m.index as nat)],
            "Remove stale migration acknowledgements so future unattended gates cannot be bypassed by leftover notes."@,
        ),
    )
}

/// The errors of the stale-migration gate for one symbol.
pub open spec fn stale_findings(s: ChangedSymbol) -> Seq<Finding> {
    s.stale_migrations@.map_values(|m: StaleMigration| stale_finding(s.function, m))
}

/// The unattended gates that look at each changed symbol.
pub enum Gate {
    EvidenceWeakening,
    PublicBehavior,
    CapabilityExpansion,
    ImplementationChange,
    EvidenceDrift,
    UncheckedImpact,
    UncoveredImpact,
    StaleMigration,
}

/// What a gate reports for one changed symbol, given the symbols of the change set.
pub open spec fn gate_findings(g: Gate, s: ChangedSymbol, changed: Seq<Seq<char>>, paths: Seq<Seq<char>>) -> Seq<Finding> {
    match g {
        Gate::EvidenceWeakening => weakening_findings(s),
        Gate::PublicBehavior => behavior_findings(s),
        Gate::CapabilityExpansion => capability_findings(s),
        Gate::ImplementationChange => implementation_findings(s),
        Gate::EvidenceDrift => drift_findings(s),
        Gate::UncheckedImpact => unchecked_findings(s, changed),
        Gate::UncoveredImpact => uncovered_findings(s, paths),
        Gate::StaleMigration => stale_findings(s),
    }
}

/// What a gate reports for the changed symbols, symbol by symbol.
pub open spec fn gathered(g: Gate, syms: Seq<ChangedSymbol>, changed: Seq<Seq<char>>, paths: Seq<Seq<char>>) -> Seq<Finding>
    decreases syms.len(),
{
    if syms.len() == 0 {
        seq![]
    } else {
        gathered(g, syms.drop_last(), changed, paths) + gate_findings(g, syms.last(), changed, paths)
    }
}

/// The symbols of the changed functions.
pub open spec fn changed_set(plan: ChangePlan) -> Seq<Seq<char>> {
    plan.changed_symbols@.map_values(|s: ChangedSymbol| symbol_text(s.function))
}

/// What a gate reports for a plan; `paths` are the paths its review commands name.
pub open spec fn gate_report(g: Gate, plan: ChangePlan, paths: Seq<Seq<char>>) -> Seq<Finding> {
    gathered(g, plan.changed_symbols@, changed_set(plan), paths)
}

proof fn lemma_reports_append(a: Seq<Diagnostic>, fa: Seq<Finding>, b: Seq<Diagnostic>, fb: Seq<Finding>)
    requires
        reports_findings(a, fa),
        reports_findings(b, fb),
    ensures
        reports_findings(a + b, fa + fb),
{
    assert forall|k: int| 0 <= k < (a + b).len() implies (#[trigger] (a + b)[k]).target is Some
        && finding_of((a + b)[k]) == (fa + fb)[k] by {
        if k < a.len() {
        } else {
            assert((a + b)[k] == b[k - a.len()]);
        }
    }
}

fn push_finding(out: &mut Vec<Diagnostic>, d: Diagnostic, Ghost(fs): Ghost<Seq<Finding>>, Ghost(f): Ghost<Finding>)
    requires
        reports_findings(old(out)@, fs),
        d.target is Some,
        finding_of(d) == f,
    ensures
        reports_findings(final(out)@, fs.push(f)),
{
    proof {
        lemma_report_push(out@, fs, d, f);
    }
    out.push(d);
}

fn weakening_diagnostics(s: &ChangedSymbol) -> (res: Vec<Diagnostic>)
    ensures
        reports_findings(res@, weakening_findings(*s)),
{
    let mut out: Vec<Diagnostic> = Vec::new();
    let f = &s.function;
    if has_migration(f, "evidence-weakening") {
        return out;
    }
    let sym = f.symbol();
    let ws = &s.evidence_weakening;
    let ghost all = ws@.map_values(|w: EvidenceWeakening| weakening_finding(*f, w));
    let mut i: usize = 0;
    while i < ws.len()
        invariant
            i <= ws@.len(),
            sym@ == symbol_text(*f),
            all == ws@.map_values(|w: EvidenceWeakening| weakening_finding(*f, w)),
            reports_findings(out@, all.take(i as int)),
        decreases ws@.len() - i,
    {
        let w = &ws[i];
        let mut m = owned("Public function `");
        m.append(f.name.as_str());
        m.append("`");
        m.append(" weakens ");
        m.append(w.kind.as_str());
        m.append(" evidence compared with HEAD.");
        let before = usize_text(w.before);
        let after = usize_text(w.after);
        let removed = joined(&w.removed, "\n");
        let d = Diagnostic::error("EvidenceWeakening", m.as_str(), Some(f.target()))
            .with_data("symbol", sym.as_str())
            .with_data("kind", w.kind.as_str())
            .with_data("before", before.as_str())
            .with_data("after", after.as_str())
            .with_data("removed", removed.as_str())
            .with_command_repair(
                "Acknowledge intentional evidence weakening",
                migration_command(f, &sym, "evidence-weakening", "Document why the weakened evidence remains acceptable."),
            )
            .with_repair(
                "Restore the removed executable evidence or make an explicit migration/version decision before unattended certification.",
            );
        proof {
            assert(data_texts(d) =~= weakening_finding(*f, *w).4);
            assert(all.take(i + 1) =~= all.take(i as int).push(all[i as int]));
        }
        push_finding(&mut out, d, Ghost(all.take(i as int)), Ghost(all[i as int]));
        i += 1;
    }
    assert(all.take(ws@.len() as int) =~= all);
    out
}

fn behavior_diagnostics(s: &ChangedSymbol) -> (res: Vec<Diagnostic>)
    ensures
        reports_findings(res@, behavior_findings(*s)),
{
    let mut out: Vec<Diagnostic> = Vec::new();
    let f = &s.function;
    match &s.behavior_change {
        Some(c) => {
            if public_behavior_change_acknowledged(f, c) {
                return out;
            }
            let sym = f.symbol();
            let changed = joined(&c.changed, ", ");
            let mut m = owned("Public function `");
            m.append(f.name.as_str());
            m.append("`");
            m.append(" changes its public contract surface without changing its symbol version.");
            let d = Diagnostic::error("PublicBehaviorChangeNeedsVersion", m.as_str(), Some(f.target()))
                .with_data("symbol", sym.as_str())
                .with_data("changed", changed.as_str())
                .with_command_repair(
                    "Acknowledge intentional public behavior change",
                    migration_command(
                        f,
                        &sym,
                        "public-behavior-change",
                        "Document why this same-version public surface change is compatible.",
                    ),
                )
                .with_repair(
                    "Preserve the existing public contract surface or introduce a new explicit version before unattended certification.",
                );
            proof {
                assert(data_texts(d) =~= behavior_findings(*s)[0].4);
            }
            push_finding(&mut out, d, Ghost(Seq::empty()), Ghost(behavior_findings(*s)[0]));
            assert(behavior_findings(*s) =~= Seq::<Finding>::empty().push(behavior_findings(*s)[0]));
        },
        None => {},
    }
    out
}

fn capability_diagnostics(s: &ChangedSymbol) -> (res: Vec<Diagnostic>)
    ensures
        reports_findings(res@, capability_findings(*s)),
{
    let mut out: Vec<Diagnostic> = Vec::new();
    let f = &s.function;
    if has_migration(f, "capability-expansion") {
        return out;
    }
    match &s.capability_change {
        Some(c) => {
            if c.added.len() == 0 {
                return out;
            }
            let sym = f.symbol();
            let mut m = owned("Public function `");
            m.append(f.name.as_str());
            m.append("`");
            m.append(" expands its declared capabilities without acknowledgement.");
            let added = joined(&c.added, ", ");
            let before = joined(&c.before, ", ");
            let after = joined(&c.after, ", ");
            let d = Diagnostic::error("CapabilityExpansionNeedsMigration", m.as_str(), Some(f.target()))
                .with_data("symbol", sym.as_str())
                .with_data("added", added.as_str())
                .with_data("before", before.as_str())
                .with_data("after", after.as_str())
                .with_command_repair(
                    "Acknowledge intentional capability expansion",
                    migration_command(
                        f,
                        &sym,
                        "capability-expansion",
                        "Document why this capability expansion is required and acceptable.",
                    ),
                )
                .with_repair(
                    "Keep the existing minimum capability set, bump the public version, or add an explicit capability-expansion migration decision before unattended certification.",
                );
            proof {
                assert(data_texts(d) =~= capability_findings(*s)[0].4);
            }
            push_finding(&mut out, d, Ghost(Seq::empty()), Ghost(capability_findings(*s)[0]));
            assert(capability_findings(*s) =~= Seq::<Finding>::empty().push(capability_findings(*s)[0]));
        },
        None => {},
    }
    out
}

fn coverage_lines_exec(c: &Option<ImplementationEvidenceCoverage>, examples: bool) -> (res: String)
    ensures
        res@ == coverage_lines(*c, examples),
{
    match c {
        Some(c) => if examples {
            joined(&c.added_examples, "\n")
        } else {
            joined(&c.added_properties, "\n")
        },
        None => String::new(),
    }
}

fn implementation_diagnostics(s: &ChangedSymbol) -> (res: Vec<Diagnostic>)
    ensures
        reports_findings(res@, implementation_findings(*s)),
{
    let mut out: Vec<Diagnostic> = Vec::new();
    let f = &s.function;
    if has_migration(f, "implementation-change") {
        return out;
    }
    let ic = match &s.implementation_change {
        Some(ic) => ic,
        None => {
            return out;
        },
    };
    let strong = executable_evidence_strengthened(&s.evidence_delta);
    let cov = &s.implementation_evidence;
    let covered = match cov {
        Some(c) => c.covered,
        None => false,
    };
    let sensitive = match cov {
        Some(c) => c.behavior_sensitive,
        None => false,
    };
    if strong && covered && sensitive {
        return out;
    }
    let sym = f.symbol();
    let ghost fs = implementation_findings(*s);
    let d = if strong && covered {
        let mut m = owned("Public function `");
        m.append(f.name.as_str());
        m.append("`");
        m.append(
            " changes its implementation, but the added executable evidence also passes against the HEAD implementation.",
        );
        let reason = match cov {
            Some(c) => c.sensitivity_reason.clone(),
            None => String::new(),
        };
        let mut review = words("bin/serow", "plan");
        push_arg(&mut review, f.source_path.clone());
        push_arg(&mut review, owned("--json"));
        assert(strs(review@) =~= review_cmd(*f));
        let d = Diagnostic::error("ImplementationChangeNeedsSensitiveEvidence", m.as_str(), Some(f.target()))
            .with_data("symbol", sym.as_str())
            .with_data("before", ic.before.as_str())
            .with_data("after", ic.after.as_str())
            .with_data("added_examples", coverage_lines_exec(cov, true).as_str())
            .with_data("added_properties", coverage_lines_exec(cov, false).as_str())
            .with_data("sensitivity_reason", reason.as_str())
            .with_command_repair(
                "Review implementation evidence sensitivity",
                review,
            )
            .with_repair(
                "Add executable evidence that would fail against the HEAD implementation, or add an explicit implementation-change migration decision.",
            );
        assert(data_texts(d) =~= fs[0].4);
        d
    } else if strong {
        let mut m = owned("Public function `");
        m.append(f.name.as_str());
        m.append("`");
        m.append(
            " changes its implementation, but the added executable evidence does not call the changed function.",
        );
        let mut review = words("bin/serow", "plan");
        push_arg(&mut review, f.source_path.clone());
        push_arg(&mut review, owned("--json"));
        assert(strs(review@) =~= review_cmd(*f));
        let d = Diagnostic::error("ImplementationChangeNeedsCoveringEvidence", m.as_str(), Some(f.target()))
            .with_data("symbol", sym.as_str())
            .with_data("before", ic.before.as_str())
            .with_data("after", ic.after.as_str())
            .with_data("added_examples", coverage_lines_exec(cov, true).as_str())
            .with_data("added_properties", coverage_lines_exec(cov, false).as_str())
            .with_command_repair(
                "Review implementation evidence coverage",
                review,
            )
            .with_repair(
                "Add an executable example or sampled property that directly calls the changed function, or add an explicit implementation-change migration decision.",
            );
        assert(data_texts(d) =~= fs[0].4);
        d
    } else {
        let mut m = owned("Public function `");
        m.append(f.name.as_str());
        m.append("`");
        m.append(" changes its implementation without adding executable evidence.");
        let d = Diagnostic::error("ImplementationChangeNeedsEvidence", m.as_str(), Some(f.target()))
            .with_data("symbol", sym.as_str())
            .with_data("before", ic.before.as_str())
            .with_data("after", ic.after.as_str())
            .with_command_repair(
                "Acknowledge intentional implementation change",
                migration_command(
                    f,
                    &sym,
                    "implementation-change",
                    "Document why this implementation change is behavior-preserving.",
                ),
            )
            .with_repair(
                "Add executable evidence covering the implementation change or introduce a new explicit version/migration decision before unattended certification.",
            );
        assert(data_texts(d) =~= fs[0].4);
        d
    };
    push_finding(&mut out, d, Ghost(Seq::empty()), Ghost(fs[0]));
    assert(fs =~= Seq::<Finding>::empty().push(fs[0]));
    out
}

fn drift_diagnostics(s: &ChangedSymbol) -> (res: Vec<Diagnostic>)
    ensures
        reports_findings(res@, drift_findings(*s)),
{
    let mut out: Vec<Diagnostic> = Vec::new();
    let f = &s.function;
    if has_migration(f, "implementation-change") {
        return out;
    }
    match (&s.evidence_drift, &s.implementation_change) {
        (Some(dr), Some(ic)) => {
            let sym = f.symbol();
            let mut m = owned("Public function `");
            m.append(f.name.as_str());
            m.append("`");
            m.append(" changes its implementation and executable evidence in the same patch.");
            let changed = joined(&dr.changed, ", ");
            let d = Diagnostic::error("ImplementationEvidenceDriftNeedsMigration", m.as_str(), Some(f.target()))
                .with_data("symbol", sym.as_str())
                .with_data("changed_evidence", changed.as_str())
                .with_data("before", ic.before.as_str())
                .with_data("after", ic.after.as_str())
                .with_command_repair(
                    "Acknowledge intentional implementation and evidence drift",
                    migration_command(
                        f,
                        &sym,
                        "implementation-change",
                        "Document why this implementation change and evidence update remain compatible.",
                    ),
                )
                .with_repair(
                    "Separate the implementation and evidence edits, introduce a new explicit version, or add an implementation-change migration decision before unattended certification.",
                );
            let ghost fs = drift_findings(*s);
            assert(data_texts(d) =~= fs[0].4);
            push_finding(&mut out, d, Ghost(Seq::empty()), Ghost(fs[0]));
            assert(fs =~= Seq::<Finding>::empty().push(fs[0]));
        },
        _ => {},
    }
    out
}

fn path_text_exec(p: &Vec<Function>) -> (res: String)
    ensures
        res@ == path_text(p@),
{
    let mut parts: Vec<String> = Vec::new();
    let mut i: usize = 0;
    while i < p.len()
        invariant
            i <= p@.len(),
            parts@.len() == i,
            forall|j: int| 0 <= j < i ==> #[trigger] parts@[j]@ == symbol_text(p@[j]),
        decreases p@.len() - i,
    {
        parts.push(p[i].symbol());
        i += 1;
    }
    assert(parts@.map_values(|x: String| x@) =~= p@.map_values(|f: Function| symbol_text(f)));
    join_strings(&parts, " -> ")
}

fn sites_text_exec(v: &Vec<CallSite>) -> (res: String)
    ensures
        res@ == sites_text(v@),
{
    let mut parts: Vec<String> = Vec::new();
    let mut i: usize = 0;
    while i < v.len()
        invariant
            i <= v@.len(),
            parts@.len() == i,
            forall|j: int| 0 <= j < i ==> #[trigger] parts@[j]@ == v@[j].context@ + ": "@ + v@[j].expression@,
        decreases v@.len() - i,
    {
        let mut t = v[i].context.clone();
        t.append(": ");
        t.append(v[i].expression.as_str());
        parts.push(t);
        i += 1;
    }
    assert(parts@.map_values(|x: String| x@) =~= v@.map_values(|c: CallSite| c.context@ + ": "@ + c.expression@));
    join_strings(&parts, "\n")
}

fn contains_text(v: &Vec<String>, x: &String) -> (res: bool)
    ensures
        res == texts(v@).contains(x@),
{
    let mut i: usize = 0;
    while i < v.len()
        invariant
            i <= v@.len(),
            forall|j: int| 0 <= j < i ==> v@[j]@ != x@,
        decreases v@.len() - i,
    {
        if str_eq(v[i].as_str(), x.as_str()) {
            assert(texts(v@)[i as int] == x@);
            return true;
        }
        i += 1;
    }
    proof {
        if texts(v@).contains(x@) {
            let j = choose|j: int| 0 <= j < texts(v@).len() && texts(v@)[j] == x@;
            assert(v@[j]@ == x@);
        }
    }
    false
}

fn unchecked_diagnostics(s: &ChangedSymbol, changed: &Vec<String>) -> (res: Vec<Diagnostic>)
    ensures
        reports_findings(res@, unchecked_findings(*s, texts(changed@))),
{
    let mut out: Vec<Diagnostic> = Vec::new();
    let f = &s.function;
    if has_migration(f, "impact-review") {
        return out;
    }
    let sym = f.symbol();
    let v = &s.impact;
    let ghost cs = texts(changed@);
    let mut i: usize = 0;
    assert(v@.take(0) =~= Seq::<ImpactDependent>::empty());
    while i < v.len()
        invariant
            i <= v@.len(),
            sym@ == symbol_text(*f),
            cs == texts(changed@),
            reports_findings(out@, outside_findings(*f, v@.take(i as int), cs)),
        decreases v@.len() - i,
    {
        proof {
            assert(v@.take(i + 1).drop_last() =~= v@.take(i as int));
            assert(v@.take(i + 1).last() == v@[i as int]);
        }
        let dep = &v[i];
        let dsym = dep.function.symbol();
        if !contains_text(changed, &dsym) {
            let mut m = owned("Public function `");
            m.append(f.name.as_str());
            m.append("`");
            m.append(" has dependent `");
            m.append(dsym.as_str());
            m.append("` outside the certified change set.");
            let depth = usize_text(dep.depth);
            let path = path_text_exec(&dep.path);
            let sites = sites_text_exec(&dep.call_sites);
            let mut review = words3("bin/serow", "query", "impact");
            push_arg(&mut review, sym.clone());
            assert(strs(review@) =~= seq!["bin/serow"@, "query"@, "impact"@, symbol_text(*f)]);
            let d = Diagnostic::error("UncheckedImpact", m.as_str(), Some(f.target()))
                .with_data("symbol", sym.as_str())
                .with_data("dependent", dsym.as_str())
                .with_data("depth", depth.as_str())
                .with_data("path", path.as_str())
                .with_data("call_sites", sites.as_str())
                .with_command_repair("Review transitive impact", review)
                .with_command_repair(
                    "Acknowledge reviewed impact",
                    migration_command(f, &sym, "impact-review", "Document why the listed dependent impact is acceptable."),
                )
                .with_repair(
                    "Include impacted dependents in the certified change set or add an explicit migration/impact decision before unattended certification.",
                );
            assert(data_texts(d) =~= impact_finding(*f, *dep).4);
            push_finding(&mut out, d, Ghost(outside_findings(*f, v@.take(i as int), cs)), Ghost(impact_finding(*f, *dep)));
        }
        i += 1;
    }
    assert(v@.take(v@.len() as int) =~= v@);
    out
}

fn uncovered_diagnostics(s: &ChangedSymbol, paths: &[String]) -> (res: Vec<Diagnostic>)
    ensures
        reports_findings(res@, uncovered_findings(*s, strs(paths@))),
{
    let mut out: Vec<Diagnostic> = Vec::new();
    let f = &s.function;
    if has_migration(f, "impact-review") {
        return out;
    }
    let sym = f.symbol();
    let v = &s.impact_coverage;
    let mut i: usize = 0;
    assert(v@.take(0) =~= Seq::<ImpactEvidenceCoverage>::empty());
    while i < v.len()
        invariant
            i <= v@.len(),
            sym@ == symbol_text(*f),
            reports_findings(out@, uncovered_in(*f, v@.take(i as int), strs(paths@))),
        decreases v@.len() - i,
    {
        proof {
            assert(v@.take(i + 1).drop_last() =~= v@.take(i as int));
            assert(v@.take(i + 1).last() == v@[i as int]);
        }
        let c = &v[i];
        if !c.covered {
            let dsym = c.dependent.symbol();
            let mut m = owned("Public function `");
            m.append(f.name.as_str());
            m.append("`");
            m.append(" has impacted dependent `");
            m.append(dsym.as_str());
            m.append("` without executable evidence covering the changed call edge.");
            let edge = c.edge_target.symbol();
            let tsym = c.target.symbol();
            let depth = usize_text(c.depth);
            let path = path_text_exec(&c.path);
            let d = Diagnostic::error("UncoveredImpactEvidence", m.as_str(), Some(f.target()))
                .with_data("symbol", sym.as_str())
                .with_data("dependent", dsym.as_str())
                .with_data("edge_target", edge.as_str())
                .with_data("target", tsym.as_str())
                .with_data("depth", depth.as_str())
                .with_data("path", path.as_str())
                .with_data("reason", c.reason.as_str())
                .with_command_repair("Review impact coverage", plan_command(paths))
                .with_command_repair(
                    "Acknowledge reviewed impact",
                    migration_command(f, &sym, "impact-review", "Document why the uncovered impacted edge is acceptable."),
                )
                .with_repair(
                    "Add an executable example or sampled property that exercises the impacted dependent call edge before unattended certification.",
                );
            assert(data_texts(d) =~= uncovered_finding(*f, *c, strs(paths@)).4);
            push_finding(&mut out, d, Ghost(uncovered_in(*f, v@.take(i as int), strs(paths@))), Ghost(uncovered_finding(*f, *c, strs(paths@))));
        }
        i += 1;
    }
    assert(v@.take(v@.len() as int) =~= v@);
    out
}

fn stale_diagnostics(s: &ChangedSymbol) -> (res: Vec<Diagnostic>)
    ensures
        reports_findings(res@, stale_findings(*s)),
{
    let mut out: Vec<Diagnostic> = Vec::new();
    let f = &s.function;
    let sym = f.symbol();
    let ms = &s.stale_migrations;
    let ghost all = ms@.map_values(|m: StaleMigration| stale_finding(*f, m));
    let mut i: usize = 0;
    while i < ms.len()
        invariant
            i <= ms@.len(),
            sym@ == symbol_text(*f),
            all == ms@.map_values(|m: StaleMigration| stale_finding(*f, m)),
            reports_findings(out@, all.take(i as int)),
        decreases ms@.len() - i,
    {
        let mg = &ms[i];
        let mut m = owned("Public function `");
        m.append(f.name.as_str());
        m.append("`");
        m.append(" has a stale `");
        m.append(mg.kind.as_str());
        m.append("` migration acknowledgement.");
        let index = usize_text(mg.index);
        let mut remove = words3("bin/serow", "patch", "remove-migration");
        push_arg(&mut remove, f.source_path.clone());
        push_arg(&mut remove, sym.clone());
        push_arg(&mut remove, mg.kind.clone());
        push_arg(&mut remove, index.clone());
        assert(strs(remove@) =~= seq!["bin/serow"@, "patch"@, "remove-migration"@, f.source_path@, symbol_text(*f), mg.kind@, decimal(mg.index as nat)]);
        let d = Diagnostic::error("StaleMigrationAcknowledgement", m.as_str(), Some(f.target()))
            .with_data("symbol", sym.as_str())
            .with_data("kind", mg.kind.as_str())
            .with_data("index", index.as_str())
            .with_data("note", mg.note.as_str())
            .with_data("reason", mg.reason.as_str())
            .with_command_repair("Remove stale migration acknowledgement", remove)
            .with_repair(
                "Remove stale migration acknowledgements so future unattended gates cannot be bypassed by leftover notes.",
            );
        proof {
            assert(data_texts(d) =~= stale_finding(*f, *mg).4);
            assert(all.take(i + 1) =~= all.take(i as int).push(all[i as int]));
        }
        push_finding(&mut out, d, Ghost(all.take(i as int)), Ghost(all[i as int]));
        i += 1;
    }
    assert(all.take(ms@.len() as int) =~= all);
    out
}

fn gate_diagnostics(g: Gate, plan: &ChangePlan, paths: &[String]) -> (res: Vec<Diagnostic>)
    ensures
        reports_findings(res@, gate_report(g, *plan, strs(paths@))),
{
    let syms = &plan.changed_symbols;
    let mut changed: Vec<String> = Vec::new();
    let mut k: usize = 0;
    while k < syms.len()
        invariant
            k <= syms@.len(),
            changed@.len() == k,
            forall|j: int| 0 <= j < k ==> #[trigger] changed@[j]@ == symbol_text(syms@[j].function),
        decreases syms@.len() - k,
    {
        changed.push(syms[k].function.symbol());
        k += 1;
    }
    assert(texts(changed@) =~= changed_set(*plan));
    let mut out: Vec<Diagnostic> = Vec::new();
    let mut i: usize = 0;
    assert(syms@.take(0) =~= Seq::<ChangedSymbol>::empty());
    while i < syms.len()
        invariant
            i <= syms@.len(),
            texts(changed@) == changed_set(*plan),
            *syms == plan.changed_symbols,
            reports_findings(out@, gathered(g, syms@.take(i as int), changed_set(*plan), strs(paths@))),
        decreases syms@.len() - i,
    {
        proof {
            assert(syms@.take(i + 1).drop_last() =~= syms@.take(i as int));
            assert(syms@.take(i + 1).last() == syms@[i as int]);
        }
        let s = &syms[i];
        let more = match g {
            Gate::EvidenceWeakening => weakening_diagnostics(s),
            Gate::PublicBehavior => behavior_diagnostics(s),
            Gate::CapabilityExpansion => capability_diagnostics(s),
            Gate::ImplementationChange => implementation_diagnostics(s),
            Gate::EvidenceDrift => drift_diagnostics(s),
            Gate::UncheckedImpact => unchecked_diagnostics(s, &changed),
            Gate::UncoveredImpact => uncovered_diagnostics(s, paths),
            Gate::StaleMigration => stale_diagnostics(s),
        };
        proof {
            lemma_reports_append(
                out@,
                gathered(g, syms@.take(i as int), changed_set(*plan), strs(paths@)),
                more@,
                gate_findings(g, *s, changed_set(*plan), strs(paths@)),
            );
        }
        let mut more = more;
        out.append(&mut more);
        i += 1;
    }
    assert(syms@.take(syms@.len() as int) =~= syms@);
    out
}

/// The errors of the evidence-weakening gate: evidence removed or narrowed compared with
/// the baseline, unless acknowledged.
pub fn unattended_evidence_weakening_diagnostics(plan: &ChangePlan) -> (res: Vec<Diagnostic>)
    ensures
        reports_findings(res@, gate_report(Gate::EvidenceWeakening, *plan, seq![])),
{
    let none: Vec<String> = Vec::new();
    let res = gate_diagnostics(Gate::EvidenceWeakening, plan, none.as_slice());
    assert(strs(none@) =~= Seq::<Seq<char>>::empty());
    res
}

/// The errors of the public-behavior gate: a public surface changed at the same version,
/// unless acknowledged.
pub fn unattended_public_behavior_change_diagnostics(plan: &ChangePlan) -> (res: Vec<Diagnostic>)
    ensures
        reports_findings(res@, gate_report(Gate::PublicBehavior, *plan, seq![])),
{
    let none: Vec<String> = Vec::new();
    let res = gate_diagnostics(Gate::PublicBehavior, plan, none.as_slice());
    assert(strs(none@) =~= Seq::<Seq<char>>::empty());
    res
}

/// The errors of the capability gate: declared capabilities expanded, unless
/// acknowledged.
pub fn unattended_capability_expansion_diagnostics(plan: &ChangePlan) -> (res: Vec<Diagnostic>)
    ensures
        reports_findings(res@, gate_report(Gate::CapabilityExpansion, *plan, seq![])),
{
    let none: Vec<String> = Vec::new();
    let res = gate_diagnostics(Gate::CapabilityExpansion, plan, none.as_slice());
    assert(strs(none@) =~= Seq::<Seq<char>>::empty());
    res
}

/// The errors of the implementation gate: an implementation changed without added
/// evidence that calls it and fails against the baseline, unless acknowledged.
pub fn unattended_implementation_change_diagnostics(plan: &ChangePlan) -> (res: Vec<Diagnostic>)
    ensures
        reports_findings(res@, gate_report(Gate::ImplementationChange, *plan, seq![])),
{
    let none: Vec<String> = Vec::new();
    let res = gate_diagnostics(Gate::ImplementationChange, plan, none.as_slice());
    assert(strs(none@) =~= Seq::<Seq<char>>::empty());
    res
}

/// The errors of the drift gate: implementation and evidence changed together, unless
/// acknowledged.
pub fn unattended_implementation_evidence_drift_diagnostics(plan: &ChangePlan) -> (res: Vec<Diagnostic>)
    ensures
        reports_findings(res@, gate_report(Gate::EvidenceDrift, *plan, seq![])),
{
    let none: Vec<String> = Vec::new();
    let res = gate_diagnostics(Gate::EvidenceDrift, plan, none.as_slice());
    assert(strs(none@) =~= Seq::<Seq<char>>::empty());
    res
}

/// The errors of the impact gate: dependents outside the change set, unless the impact
/// was reviewed.
pub fn unattended_unchecked_impact_diagnostics(plan: &ChangePlan) -> (res: Vec<Diagnostic>)
    ensures
        reports_findings(res@, gate_report(Gate::UncheckedImpact, *plan, seq![])),
{
    let none: Vec<String> = Vec::new();
    let res = gate_diagnostics(Gate::UncheckedImpact, plan, none.as_slice());
    assert(strs(none@) =~= Seq::<Seq<char>>::empty());
    res
}

/// The errors of the impact-evidence gate: impacted call edges that no executable
/// evidence covers, unless the impact was reviewed.
pub fn unattended_uncovered_impact_evidence_diagnostics(plan: &ChangePlan, paths: &[String]) -> (res: Vec<
    Diagnostic,
>)
    ensures
        reports_findings(res@, gate_report(Gate::UncoveredImpact, *plan, strs(paths@))),
{
    gate_diagnostics(Gate::UncoveredImpact, plan, paths)
}

/// The errors of the stale-migration gate: migration acknowledgements that no gate needs.
pub fn unattended_stale_migration_diagnostics(plan: &ChangePlan) -> (res: Vec<Diagnostic>)
    ensures
        reports_findings(res@, gate_report(Gate::StaleMigration, *plan, seq![])),
{
    let none: Vec<String> = Vec::new();
    let res = gate_diagnostics(Gate::StaleMigration, plan, none.as_slice());
    assert(strs(none@) =~= Seq::<Seq<char>>::empty());
    res
}

// ---------------------------------------------------------------------------
// Comparing a function with its baseline
// ---------------------------------------------------------------------------
/// The lines trimmed, without the blank ones.
pub open spec fn normalized(ls: Seq<Seq<char>>) -> Seq<Seq<char>>
    decreases ls.len(),
{
    if ls.len() == 0 {
        seq![]
    } else if trim(ls.last()).len() == 0 {
        normalized(ls.drop_last())
    } else {
        normalized(ls.drop_last()).push(trim(ls.last()))
    }
}

/// The trimmed, non-blank lines of a list.
pub fn normalized_lines(lines: &Vec<String>) -> (res: Vec<String>)
    ensures
        texts(res@) == normalized(texts(lines@)),
{
    let ghost ls = texts(lines@);
    let mut out: Vec<String> = Vec::new();
    let mut i: usize = 0;
    assert(ls.take(0) =~= Seq::<Seq<char>>::empty());
    while i < lines.len()
        invariant
            i <= lines@.len(),
            ls == texts(lines@),
            texts(out@) == normalized(ls.take(i as int)),
        decreases lines@.len() - i,
    {
        proof {
            assert(ls.take(i + 1).drop_last() =~= ls.take(i as int));
            assert(ls.take(i + 1).last() == lines@[i as int]@);
        }
        let t = trim_str(lines[i].as_str());
        if t.as_str().unicode_len() > 0 {
            let ghost before = texts(out@);
            out.push(t);
            assert(texts(out@) =~= before.push(trim(lines@[i as int]@)));
        }
        i += 1;
    }
    assert(ls.take(lines@.len() as int) =~= ls);
    out
}

/// Property blocks from normalized lines: a `forall ` line starts a new block, and the
/// other lines join the current one, separated by new lines.
pub open spec fn grouped(ls: Seq<Seq<char>>, i: int, current: Seq<char>, acc: Seq<Seq<char>>) -> Seq<Seq<char>>
    decreases ls.len() - i,
{
    if i < 0 || i >= ls.len() {
        if current.len() > 0 {
            acc.push(current)
        } else {
            acc
        }
    } else if starts_with(ls[i], "forall "@) && current.len() > 0 {
        grouped(ls, i + 1, ls[i], acc.push(current))
    } else if current.len() == 0 {
        grouped(ls, i + 1, ls[i], acc)
    } else {
        grouped(ls, i + 1, current + "\n"@ + ls[i], acc)
    }
}

/// The property blocks of a property list, each as one text.
pub open spec fn normalized_props(ls: Seq<Seq<char>>) -> Seq<Seq<char>> {
    grouped(normalized(ls), 0, seq![], seq![])
}

/// The property blocks of a property list, each as one text.
pub fn normalized_properties(lines: &Vec<String>) -> (res: Vec<String>)
    ensures
        texts(res@) == normalized_props(texts(lines@)),
{
    let ls = normalized_lines(lines);
    let ghost n = texts(ls@);
    let mut out: Vec<String> = Vec::new();
    let mut current = String::new();
    let mut i: usize = 0;
    assert(texts(out@) =~= Seq::<Seq<char>>::empty());
    assert(current@ =~= Seq::<char>::empty());
    while i < ls.len()
        invariant
            i <= ls@.len(),
            n == texts(ls@),
            n == normalized(texts(lines@)),
            grouped(n, i as int, current@, texts(out@)) == normalized_props(texts(lines@)),
        decreases ls@.len() - i,
    {
        let line = &ls[i];
        let lc = chars_of(line.as_str());
        assert(n[i as int] == line@);
        if has_prefix_str(&lc, "forall ") && current.as_str().unicode_len() > 0 {
            let ghost before = texts(out@);
            out.push(current);
            assert(texts(out@) =~= before.push(current@));
            current = line.clone();
        } else if current.as_str().unicode_len() == 0 {
            current = line.clone();
        } else {
            current.append("\n");
            current.append(line.as_str());
        }
        i += 1;
    }
    if current.as_str().unicode_len() > 0 {
        let ghost before = texts(out@);
        out.push(current);
        assert(texts(out@) =~= before.push(current@));
    }
    out
}

/// How many `forall ` property headers a list of property lines holds.
pub open spec fn header_count(ls: Seq<Seq<char>>) -> nat
    decreases ls.len(),
{
    if ls.len() == 0 {
        0
    } else {
        header_count(ls.drop_last()) + if starts_with(trim(ls.last()), "forall "@) {
            1nat
        } else {
            0nat
        }
    }
}

/// The executable evidence of a function: its preconditions, contract clauses, examples
/// and properties.
pub fn evidence_coverage(f: &Function) -> (res: EvidenceCoverage)
    ensures
        res.requires == f.requires@.len(),
        res.ensures == f.contracts@.len(),
        res.examples == f.examples@.len(),
        res.properties == header_count(texts(f.properties@)),
{
    let ghost ls = texts(f.properties@);
    let mut count: usize = 0;
    let mut i: usize = 0;
    assert(ls.take(0) =~= Seq::<Seq<char>>::empty());
    while i < f.properties.len()
        invariant
            i <= f.properties@.len(),
            ls == texts(f.properties@),
            count == header_count(ls.take(i as int)),
            count <= i,
        decreases f.properties@.len() - i,
    {
        proof {
            assert(ls.take(i + 1).drop_last() =~= ls.take(i as int));
            assert(ls.take(i + 1).last() == f.properties@[i as int]@);
        }
        let t = chars_of(trim_str(f.properties[i].as_str()).as_str());
        if has_prefix_str(&t, "forall ") {
            count += 1;
        }
        i += 1;
    }
    assert(ls.take(f.properties@.len() as int) =~= ls);
    EvidenceCoverage {
        requires: f.requires.len(),
        ensures: f.contracts.len(),
        examples: f.examples.len(),
        properties: count,
    }
}

/// The parts of the public surface that differ between `b` and `a`, in a fixed order.
pub open spec fn surface_changes(b: Function, a: Function) -> Seq<Seq<char>> {
    (if signature_text(b) != signature_text(a) { seq!["signature"@] } else { seq![] })
        + (if normalized(texts(b.requires@)) != normalized(texts(a.requires@)) { seq!["requires"@] } else { seq![] })
        + (if normalized(texts(b.contracts@)) != normalized(texts(a.contracts@)) { seq!["ensures"@] } else { seq![] })
        + (if normalized(texts(b.examples@)) != normalized(texts(a.examples@)) { seq!["examples"@] } else { seq![] })
        + (if normalized_props(texts(b.properties@)) != normalized_props(texts(a.properties@)) {
        seq!["properties"@]
    } else {
        seq![]
    }) + (if normalized(texts(b.effects@)) != normalized(texts(a.effects@)) { seq!["effects"@] } else { seq![] })
}

fn same_texts(a: &Vec<String>, b: &Vec<String>) -> (res: bool)
    ensures
        res == (texts(a@) == texts(b@)),
{
    if a.len() != b.len() {
        assert(texts(a@).len() != texts(b@).len());
        return false;
    }
    let mut i: usize = 0;
    while i < a.len()
        invariant
            i <= a@.len(),
            a@.len() == b@.len(),
            forall|j: int| 0 <= j < i ==> a@[j]@ == b@[j]@,
        decreases a@.len() - i,
    {
        if !str_eq(a[i].as_str(), b[i].as_str()) {
            assert(texts(a@)[i as int] != texts(b@)[i as int]);
            return false;
        }
        i += 1;
    }
    assert(texts(a@) =~= texts(b@));
    true
}

fn push_word(v: &mut Vec<String>, word: &str)
    ensures
        texts(final(v)@) == texts(old(v)@).push(word@),
{
    let ghost before = texts(v@);
    v.push(owned(word));
    assert(texts(v@) =~= before.push(word@));
}

/// How the public surface of `after` differs from `before`, if it does.
pub fn public_behavior_change(before: &Function, after: &Function) -> (res: Option<PublicBehaviorChange>)
    ensures
        surface_changes(*before, *after).len() == 0 ==> res is None,
        surface_changes(*before, *after).len() > 0 ==> res is Some && texts(res->0.changed@)
            == surface_changes(*before, *after),
{
    let mut changed: Vec<String> = Vec::new();
    let sb = before.signature();
    let sa = after.signature();
    if !str_eq(sb.as_str(), sa.as_str()) {
        push_word(&mut changed, "signature");
    }
    if !same_texts(&normalized_lines(&before.requires), &normalized_lines(&after.requires)) {
        push_word(&mut changed, "requires");
    }
    if !same_texts(&normalized_lines(&before.contracts), &normalized_lines(&after.contracts)) {
        push_word(&mut changed, "ensures");
    }
    if !same_texts(&normalized_lines(&before.examples), &normalized_lines(&after.examples)) {
        push_word(&mut changed, "examples");
    }
    if !same_texts(&normalized_properties(&before.properties), &normalized_properties(&after.properties)) {
        push_word(&mut changed, "properties");
    }
    if !same_texts(&normalized_lines(&before.effects), &normalized_lines(&after.effects)) {
        push_word(&mut changed, "effects");
    }
    assert(texts(changed@) =~= surface_changes(*before, *after));
    if changed.len() == 0 {
        None
    } else {
        Some(PublicBehaviorChange { changed })
    }
}

/// An evidence section: preconditions, contract clauses, examples or properties.
pub open spec fn evidence_section(w: Seq<char>) -> bool {
    w == "requires"@ || w == "ensures"@ || w == "examples"@ || w == "properties"@
}

/// The evidence sections among the changed parts, in order.
pub open spec fn evidence_sections(v: Seq<Seq<char>>) -> Seq<Seq<char>>
    decreases v.len(),
{
    if v.len() == 0 {
        seq![]
    } else if evidence_section(v.last()) {
        evidence_sections(v.drop_last()).push(v.last())
    } else {
        evidence_sections(v.drop_last())
    }
}

/// The evidence sections that a public surface change touches, if any.
pub fn evidence_drift(change: &PublicBehaviorChange) -> (res: Option<EvidenceDrift>)
    ensures
        evidence_sections(texts(change.changed@)).len() == 0 ==> res is None,
        evidence_sections(texts(change.changed@)).len() > 0 ==> res is Some && texts(res->0.changed@)
            == evidence_sections(texts(change.changed@)),
{
    let v = &change.changed;
    let ghost vs = texts(v@);
    let mut out: Vec<String> = Vec::new();
    let mut i: usize = 0;
    assert(vs.take(0) =~= Seq::<Seq<char>>::empty());
    while i < v.len()
        invariant
            i <= v@.len(),
            vs == texts(v@),
            texts(out@) == evidence_sections(vs.take(i as int)),
        decreases v@.len() - i,
    {
        proof {
            assert(vs.take(i + 1).drop_last() =~= vs.take(i as int));
            assert(vs.take(i + 1).last() == v@[i as int]@);
        }
        let w = v[i].as_str();
        if str_eq(w, "requires") || str_eq(w, "ensures") || str_eq(w, "examples") || str_eq(w, "properties") {
            let ghost before = texts(out@);
            out.push(v[i].clone());
            assert(texts(out@) =~= before.push(v@[i as int]@));
        }
        i += 1;
    }
    assert(vs.take(v@.len() as int) =~= vs);
    if out.len() == 0 {
        None
    } else {
        Some(EvidenceDrift { changed: out })
    }
}

// ---------------------------------------------------------------------------
// Capabilities
// ---------------------------------------------------------------------------
/// How the declared effects changed from `b` to `a`: both effect lists, and the
/// capabilities added and removed, each sorted; nothing when the effects are the same.
pub open spec fn capability_delta(b: Function, a: Function) -> Option<
    (Seq<Seq<char>>, Seq<Seq<char>>, Seq<Seq<char>>, Seq<Seq<char>>),
> {
    let be = sorted_of(norm_set(b));
    let ae = sorted_of(norm_set(a));
    if be == ae {
        None
    } else {
        Some((be, ae, sorted_of(ncaps(a) - ncaps(b)), sorted_of(ncaps(b) - ncaps(a))))
    }
}

fn same_lists(a: &Vec<Vec<char>>, b: &Vec<Vec<char>>) -> (res: bool)
    ensures
        res == (views(a@) == views(b@)),
{
    if a.len() != b.len() {
        assert(views(a@).len() != views(b@).len());
        return false;
    }
    let mut i: usize = 0;
    while i < a.len()
        invariant
            i <= a@.len(),
            a@.len() == b@.len(),
            forall|j: int| 0 <= j < i ==> a@[j]@ == b@[j]@,
        decreases a@.len() - i,
    {
        if !seq_eq(&a[i], &b[i]) {
            assert(views(a@)[i as int] != views(b@)[i as int]);
            return false;
        }
        i += 1;
    }
    assert(views(a@) =~= views(b@));
    true
}

/// How the declared effects of `after` differ from those of `before`, if they do.
pub fn capability_change(before: &Function, after: &Function) -> (res: Option<CapabilityChange>)
    ensures
        match capability_delta(*before, *after) {
            None => res is None,
            Some(d) => res is Some && texts(res->0.before@) == d.0 && texts(res->0.after@) == d.1
                && texts(res->0.added@) == d.2 && texts(res->0.removed@) == d.3,
        },
{
    let be = normalized_effect_list(before);
    let ae = normalized_effect_list(after);
    proof {
        lemma_sorted_of(views(be@));
        lemma_sorted_of(views(ae@));
    }
    if same_lists(&be, &ae) {
        return None;
    }
    let bc = capability_list(&be);
    let ac = capability_list(&ae);
    let added = difference(&ac, &bc);
    let removed = difference(&bc, &ac);
    proof {
        lemma_sorted_of(views(added@));
        lemma_sorted_of(views(removed@));
        assert(views(bc@).to_set() == ncaps(*before));
        assert(views(ac@).to_set() == ncaps(*after));
    }
    Some(CapabilityChange {
        before: strings_of(&be),
        after: strings_of(&ae),
        added: strings_of(&added),
        removed: strings_of(&removed),
    })
}

/// `a` reports the capabilities of `f`: as the effect query reports them for `f`.
pub open spec fn analysis_is(a: CapabilityAnalysis, r: crate::ledger::EffectQueryRow) -> bool {
    &&& a.declared_effects == r.declared_effects
    &&& a.declared_capabilities == r.declared_capabilities
    &&& a.required_by_direct_callees == r.required_by_direct_callees
    &&& a.missing_for_direct_callees == r.missing_for_direct_callees
    &&& a.unused_for_direct_callees == r.unused_for_direct_callees
    &&& a.suggested_effects == r.suggested_effects
}

/// What `f` declares, what its direct callees require, what is missing or unused, and
/// the effect declaration it should have.
pub fn capability_analysis(f: &Function, program: &Program) -> (res: CapabilityAnalysis)
    ensures
        exists|ins: Seq<Function>, r: crate::ledger::EffectQueryRow|
            is_intrinsic_list(ins) && effect_row_is(r, program.functions@, ins, *f) && analysis_is(res, r),
{
    let intrinsics = intrinsic_functions();
    let r = effect_row(program, &intrinsics, f);
    let ghost rr = r;
    let a = CapabilityAnalysis {
        declared_effects: r.declared_effects,
        declared_capabilities: r.declared_capabilities,
        required_by_direct_callees: r.required_by_direct_callees,
        missing_for_direct_callees: r.missing_for_direct_callees,
        unused_for_direct_callees: r.unused_for_direct_callees,
        suggested_effects: r.suggested_effects,
    };
    assert(analysis_is(a, rr));
    a
}

// ---------------------------------------------------------------------------
// Weakened evidence
// ---------------------------------------------------------------------------
/// The lines of `b` that `a` lacks, in order.
pub open spec fn missing_lines(b: Seq<Seq<char>>, a: Seq<Seq<char>>) -> Seq<Seq<char>>
    decreases b.len(),
{
    if b.len() == 0 {
        seq![]
    } else if a.contains(b.last()) {
        missing_lines(b.drop_last(), a)
    } else {
        missing_lines(b.drop_last(), a).push(b.last())
    }
}

/// One kind of evidence is weakened when a line was removed or there are fewer lines.
pub open spec fn weakened(kind: Seq<char>, b: Seq<Seq<char>>, a: Seq<Seq<char>>) -> Seq<
    (Seq<char>, nat, nat, Seq<Seq<char>>),
> {
    let removed = missing_lines(b, a);
    if removed.len() == 0 && a.len() >= b.len() {
        seq![]
    } else {
        seq![(kind, b.len(), a.len(), removed)]
    }
}

/// The evidence that `after` weakens compared with `before`: per kind (preconditions,
/// contract clauses, examples, properties), its line counts and the lines it removed.
pub open spec fn weakenings(b: Function, a: Function) -> Seq<(Seq<char>, nat, nat, Seq<Seq<char>>)> {
    weakened("requires"@, normalized(texts(b.requires@)), normalized(texts(a.requires@))) + weakened(
        "ensures"@,
        normalized(texts(b.contracts@)),
        normalized(texts(a.contracts@)),
    ) + weakened("examples"@, normalized(texts(b.examples@)), normalized(texts(a.examples@)))
        + weakened("properties"@, normalized_props(texts(b.properties@)), normalized_props(texts(a.properties@)))
}

pub open spec fn weakening_view(w: EvidenceWeakening) -> (Seq<char>, nat, nat, Seq<Seq<char>>) {
    (w.kind@, w.before as nat, w.after as nat, texts(w.removed@))
}

fn weaken_kind(out: &mut Vec<EvidenceWeakening>, kind: &str, b: &Vec<String>, a: &Vec<String>)
    ensures
        final(out)@.map_values(|w: EvidenceWeakening| weakening_view(w)) == old(out)@.map_values(
            |w: EvidenceWeakening| weakening_view(w),
        ) + weakened(kind@, texts(b@), texts(a@)),
{
    let ghost bs = texts(b@);
    let ghost as_ = texts(a@);
    let mut removed: Vec<String> = Vec::new();
    let mut i: usize = 0;
    assert(bs.take(0) =~= Seq::<Seq<char>>::empty());
    while i < b.len()
        invariant
            i <= b@.len(),
            bs == texts(b@),
            as_ == texts(a@),
            texts(removed@) == missing_lines(bs.take(i as int), as_),
        decreases b@.len() - i,
    {
        proof {
            assert(bs.take(i + 1).drop_last() =~= bs.take(i as int));
            assert(bs.take(i + 1).last() == b@[i as int]@);
        }
        let mut found = false;
        let mut k: usize = 0;
        while k < a.len()
            invariant
                k <= a@.len(),
                as_ == texts(a@),
                found == exists|j: int| 0 <= j < k && a@[j]@ == b@[i as int]@,
                i < b@.len(),
            decreases a@.len() - k,
        {
            if str_eq(a[k].as_str(), b[i].as_str()) {
                found = true;
            }
            k += 1;
        }
        proof {
            if found {
                let j = choose|j: int| 0 <= j < a@.len() && a@[j]@ == b@[i as int]@;
                assert(as_[j] == b@[i as int]@);
            }
            if as_.contains(b@[i as int]@) {
                let j = choose|j: int| 0 <= j < as_.len() && as_[j] == b@[i as int]@;
                assert(a@[j]@ == b@[i as int]@);
            }
        }
        if !found {
            let ghost before = texts(removed@);
            removed.push(b[i].clone());
            assert(texts(removed@) =~= before.push(b@[i as int]@));
        }
        i += 1;
    }
    assert(bs.take(b@.len() as int) =~= bs);
    let ghost prev = out@.map_values(|w: EvidenceWeakening| weakening_view(w));
    if removed.len() == 0 && a.len() >= b.len() {
        assert(weakened(kind@, bs, as_) =~= Seq::<(Seq<char>, nat, nat, Seq<Seq<char>>)>::empty());
        assert(prev + weakened(kind@, bs, as_) =~= prev);
        return;
    }
    let w = EvidenceWeakening { kind: owned(kind), before: b.len(), after: a.len(), removed };
    assert(weakening_view(w) == (kind@, bs.len(), as_.len(), missing_lines(bs, as_)));
    out.push(w);
    assert(out@.map_values(|w: EvidenceWeakening| weakening_view(w)) =~= prev + weakened(kind@, bs, as_));
}

/// The evidence that `after` removes or narrows compared with `before`.
pub fn evidence_weakening(before: &Function, after: &Function) -> (res: Vec<EvidenceWeakening>)
    ensures
        res@.map_values(|w: EvidenceWeakening| weakening_view(w)) == weakenings(*before, *after),
{
    let mut out: Vec<EvidenceWeakening> = Vec::new();
    assert(out@.map_values(|w: EvidenceWeakening| weakening_view(w)) =~= Seq::<
        (Seq<char>, nat, nat, Seq<Seq<char>>),
    >::empty());
    weaken_kind(&mut out, "requires", &normalized_lines(&before.requires), &normalized_lines(&after.requires));
    weaken_kind(&mut out, "ensures", &normalized_lines(&before.contracts), &normalized_lines(&after.contracts));
    weaken_kind(&mut out, "examples", &normalized_lines(&before.examples), &normalized_lines(&after.examples));
    weaken_kind(
        &mut out,
        "properties",
        &normalized_properties(&before.properties),
        &normalized_properties(&after.properties),
    );
    assert(out@.map_values(|w: EvidenceWeakening| weakening_view(w)) =~= weakenings(*before, *after));
    out
}

// ---------------------------------------------------------------------------
// Stale migrations
// ---------------------------------------------------------------------------
/// Which unattended gates a changed symbol currently triggers.
pub struct ActiveGates {
    pub public_behavior: bool,
    pub capability_expansion: bool,
    pub evidence_weakening: bool,
    pub implementation_change: bool,
    pub impact_review: bool,
}

/// Some impacted edge lacks covering evidence.
pub open spec fn some_uncovered(v: Seq<ImpactEvidenceCoverage>) -> bool {
    exists|k: int| 0 <= k < v.len() && !(#[trigger] v[k]).covered
}

/// The gates that a symbol's changes trigger.
pub fn active_gates(
    behavior_change: &Option<PublicBehaviorChange>,
    capability_change: &Option<CapabilityChange>,
    evidence_drift: &Option<EvidenceDrift>,
    evidence_weakening: &Vec<EvidenceWeakening>,
    implementation_change: &Option<ImplementationChange>,
    impact: &Vec<ImpactDependent>,
    impact_coverage: &Vec<ImpactEvidenceCoverage>,
) -> (res: ActiveGates)
    ensures
        res.public_behavior == (behavior_change is Some),
        res.capability_expansion == (capability_change is Some && capability_change->0.added@.len() > 0),
        res.evidence_weakening == (evidence_weakening@.len() > 0),
        res.implementation_change == (implementation_change is Some || evidence_drift is Some),
        res.impact_review == (impact@.len() > 0 || some_uncovered(impact_coverage@)),
{
    let mut uncovered = false;
    let mut k: usize = 0;
    while k < impact_coverage.len()
        invariant
            k <= impact_coverage@.len(),
            uncovered == exists|j: int| 0 <= j < k && !(#[trigger] impact_coverage@[j]).covered,
        decreases impact_coverage@.len() - k,
    {
        if !impact_coverage[k].covered {
            uncovered = true;
        }
        k += 1;
    }
    ActiveGates {
        public_behavior: behavior_change.is_some(),
        capability_expansion: match capability_change {
            Some(c) => c.added.len() > 0,
            None => false,
        },
        evidence_weakening: evidence_weakening.len() > 0,
        implementation_change: implementation_change.is_some() || evidence_drift.is_some(),
        impact_review: impact.len() > 0 || uncovered,
    }
}

/// A gate that `g` triggers requires an acknowledgement of `kind`.
pub open spec fn kind_needed(g: ActiveGates, kind: Seq<char>) -> bool {
    ||| (kind == "public-behavior-change"@ && g.public_behavior)
    ||| (kind == "capability-expansion"@ && g.capability_expansion)
    ||| (kind == "evidence-weakening"@ && g.evidence_weakening)
    ||| (kind == "implementation-change"@ && g.implementation_change)
    ||| (kind == "impact-review"@ && g.impact_review)
}

/// How many of the migrations are of `kind`.
pub open spec fn kind_count(ms: Seq<MigrationRecord>, kind: Seq<char>) -> nat
    decreases ms.len(),
{
    if ms.len() == 0 {
        0
    } else {
        kind_count(ms.drop_last(), kind) + if ms.last().kind@ == kind {
            1nat
        } else {
            0nat
        }
    }
}

/// Why a migration of `kind` is stale.
pub open spec fn stale_reason(kind: Seq<char>) -> Seq<char> {
    "No current unattended gate requires a `"@ + kind
        + "` acknowledgement for this changed symbol."@
}

/// The migrations that no triggered gate needs: each with its kind, its 1-based position
/// among the migrations of that kind, its note, and the reason.
pub open spec fn stale_of(ms: Seq<MigrationRecord>, g: ActiveGates) -> Seq<(Seq<char>, nat, Seq<char>, Seq<char>)>
    decreases ms.len(),
{
    if ms.len() == 0 {
        seq![]
    } else {
        let rest = stale_of(ms.drop_last(), g);
        let m = ms.last();
        if kind_needed(g, m.kind@) {
            rest
        } else {
            rest.push((m.kind@, kind_count(ms, m.kind@), m.note@, stale_reason(m.kind@)))
        }
    }
}

pub open spec fn stale_view(m: StaleMigration) -> (Seq<char>, nat, Seq<char>, Seq<char>) {
    (m.kind@, m.index as nat, m.note@, m.reason@)
}

fn needed(g: &ActiveGates, kind: &str) -> (res: bool)
    ensures
        res == kind_needed(*g, kind@),
{
    (str_eq(kind, "public-behavior-change") && g.public_behavior) || (str_eq(kind, "capability-expansion")
        && g.capability_expansion) || (str_eq(kind, "evidence-weakening") && g.evidence_weakening) || (str_eq(
        kind,
        "implementation-change",
    ) && g.implementation_change) || (str_eq(kind, "impact-review") && g.impact_review)
}

/// The migration acknowledgements of `f` that none of the triggered gates needs.
pub fn stale_migrations(f: &Function, gates: &ActiveGates) -> (res: Vec<StaleMigration>)
    ensures
        res@.map_values(|m: StaleMigration| stale_view(m)) == stale_of(f.migrations@, *gates),
{
    let ms = &f.migrations;
    let mut out: Vec<StaleMigration> = Vec::new();
    let mut i: usize = 0;
    assert(ms@.take(0) =~= Seq::<MigrationRecord>::empty());
    assert(out@.map_values(|m: StaleMigration| stale_view(m)) =~= Seq::<(Seq<char>, nat, Seq<char>, Seq<char>)>::empty());
    while i < ms.len()
        invariant
            i <= ms@.len(),
            out@.map_values(|m: StaleMigration| stale_view(m)) == stale_of(ms@.take(i as int), *gates),
        decreases ms@.len() - i,
    {
        let ghost pre = ms@.take(i + 1);
        proof {
            assert(pre.drop_last() =~= ms@.take(i as int));
            assert(pre.last() == ms@[i as int]);
        }
        let m = &ms[i];
        if !needed(gates, m.kind.as_str()) {
            let n = ms.len();
            let mut count: usize = 0;
            let mut j: usize = 0;
            assert(pre.take(0) =~= Seq::<MigrationRecord>::empty());
            while j <= i
                invariant
                    j <= i + 1,
                    i < n,
                    n == ms@.len(),
                    pre == ms@.take(i + 1),
                    count == kind_count(pre.take(j as int), m.kind@),
                    count <= j,
                decreases i + 1 - j,
            {
                proof {
                    assert(pre.take(j + 1).drop_last() =~= pre.take(j as int));
                    assert(pre.take(j + 1).last() == ms@[j as int]);
                }
                if str_eq(ms[j].kind.as_str(), m.kind.as_str()) {
                    count += 1;
                }
                j += 1;
            }
            assert(pre.take(i + 1) =~= pre);
            let mut reason = owned("No current unattended gate requires a `");
            reason.append(m.kind.as_str());
            reason.append("` acknowledgement for this changed symbol.");
            let ghost before = out@.map_values(|m: StaleMigration| stale_view(m));
            let st = StaleMigration { kind: m.kind.clone(), index: count, note: m.note.clone(), reason };
            out.push(st);
            assert(out@.map_values(|m: StaleMigration| stale_view(m)) =~= before.push(stale_view(st)));
        }
        i += 1;
    }
    assert(ms@.take(ms@.len() as int) =~= ms@);
    out
}

// ---------------------------------------------------------------------------
// Removed public symbols
// ---------------------------------------------------------------------------
/// `res` holds the functions of `src`, sorted by symbol, equal symbols in their order.
pub open spec fn sorted_by_symbol(res: Seq<Function>, src: Seq<Function>) -> bool {
    exists|perm: Seq<usize>|
        #[trigger] is_permutation(perm, src.len() as int) && stably_sorted_by(
            perm,
            src.map_values(|f: Function| symbol_text(f)),
        ) && res.len() == src.len() && forall|k: int|
            0 <= k < res.len() ==> same_function(#[trigger] res[k], src[perm[k] as int])
}

/// The public functions of the baseline whose symbols the program no longer has, in
/// baseline order.
pub open spec fn removed_from(fs: Seq<Function>, base: Seq<Function>) -> Seq<Function>
    decreases base.len(),
{
    if base.len() == 0 {
        seq![]
    } else {
        let b = base.last();
        let rest = removed_from(fs, base.drop_last());
        if b.public && !fs.map_values(|f: Function| symbol_text(f)).contains(symbol_text(b)) {
            rest.push(b)
        } else {
            rest
        }
    }
}

/// The public functions of the program with the same module and name as `b`, in order.
pub open spec fn replacements(fs: Seq<Function>, b: Function) -> Seq<Function>
    decreases fs.len(),
{
    if fs.len() == 0 {
        seq![]
    } else {
        let c = fs.last();
        let rest = replacements(fs.drop_last(), b);
        if c.public && c.module@ == b.module@ && c.name@ == b.name@ {
            rest.push(c)
        } else {
            rest
        }
    }
}

/// The two lists hold the same functions, field by field, in order.
pub open spec fn same_functions(a: Seq<Function>, b: Seq<Function>) -> bool {
    a.len() == b.len() && forall|k: int| 0 <= k < a.len() ==> same_function(#[trigger] a[k], b[k])
}

proof fn lemma_same_symbols(a: Seq<Function>, b: Seq<Function>)
    requires
        same_functions(a, b),
    ensures
        a.map_values(|f: Function| symbol_text(f)) == b.map_values(|f: Function| symbol_text(f)),
{
    let ma = a.map_values(|f: Function| symbol_text(f));
    let mb = b.map_values(|f: Function| symbol_text(f));
    assert forall|k: int| 0 <= k < a.len() implies #[trigger] ma[k] == mb[k] by {
        assert(same_function(a[k], b[k]));
    }
    assert(ma =~= mb);
}

proof fn lemma_sorted_transfer(res: Seq<Function>, a: Seq<Function>, b: Seq<Function>)
    requires
        sorted_by_symbol(res, a),
        same_functions(a, b),
    ensures
        sorted_by_symbol(res, b),
{
    let perm = choose|perm: Seq<usize>|
        #[trigger] is_permutation(perm, a.len() as int) && stably_sorted_by(
            perm,
            a.map_values(|f: Function| symbol_text(f)),
        ) && res.len() == a.len() && forall|k: int|
            0 <= k < res.len() ==> same_function(#[trigger] res[k], a[perm[k] as int]);
    lemma_same_symbols(a, b);
    assert forall|k: int| 0 <= k < res.len() implies same_function(#[trigger] res[k], b[perm[k] as int]) by {
        assert(same_function(res[k], a[perm[k] as int]));
        assert(same_function(a[perm[k] as int], b[perm[k] as int]));
    }
    assert(is_permutation(perm, b.len() as int));
}

/// `res` lists the removed functions in the order `perm`, sorted by symbol, each with its
/// replacement candidates sorted by symbol.
pub open spec fn removed_listed(
    res: Seq<RemovedPublicSymbol>,
    fs: Seq<Function>,
    removed: Seq<Function>,
    perm: Seq<usize>,
) -> bool {
    &&& stably_sorted_by(perm, removed.map_values(|f: Function| symbol_text(f)))
    &&& res.len() == removed.len()
    &&& forall|k: int|
        0 <= k < res.len() ==> same_function((#[trigger] res[k]).function, removed[perm[k] as int])
            && sorted_by_symbol(res[k].replacement_candidates@, replacements(fs, removed[perm[k] as int]))
}

/// Sorts functions by symbol, keeping equal symbols in their order.
fn sort_functions(v: &Vec<Function>) -> (res: Vec<Function>)
    ensures
        sorted_by_symbol(res@, v@),
{
    let mut keys: Vec<Vec<char>> = Vec::new();
    let mut i: usize = 0;
    while i < v.len()
        invariant
            i <= v@.len(),
            keys@.len() == i,
            forall|j: int| 0 <= j < i ==> #[trigger] keys@[j]@ == symbol_text(v@[j]),
        decreases v@.len() - i,
    {
        keys.push(chars_of(v[i].symbol().as_str()));
        i += 1;
    }
    assert(views(keys@) =~= v@.map_values(|f: Function| symbol_text(f)));
    let perm = sort_order(&keys);
    let mut out: Vec<Function> = Vec::new();
    let mut k: usize = 0;
    while k < perm.len()
        invariant
            k <= perm@.len(),
            is_permutation(perm@, v@.len() as int),
            out@.len() == k,
            forall|j: int| 0 <= j < k ==> same_function(#[trigger] out@[j], v@[perm@[j] as int]),
        decreases perm@.len() - k,
    {
        out.push(v[perm[k]].copy());
        k += 1;
    }
    assert(is_permutation(perm@, v@.len() as int) && stably_sorted_by(
        perm@,
        v@.map_values(|f: Function| symbol_text(f)),
    ) && out@.len() == v@.len() && forall|j: int|
        0 <= j < out@.len() ==> same_function(#[trigger] out@[j], v@[perm@[j] as int]));
    out
}

fn has_symbol(fs: &Vec<Function>, sym: &String) -> (res: bool)
    ensures
        res == fs@.map_values(|f: Function| symbol_text(f)).contains(sym@),
{
    let ghost ss = fs@.map_values(|f: Function| symbol_text(f));
    let mut i: usize = 0;
    while i < fs.len()
        invariant
            i <= fs@.len(),
            ss == fs@.map_values(|f: Function| symbol_text(f)),
            forall|j: int| 0 <= j < i ==> ss[j] != sym@,
        decreases fs@.len() - i,
    {
        let s = fs[i].symbol();
        if str_eq(s.as_str(), sym.as_str()) {
            assert(ss[i as int] == sym@);
            return true;
        }
        i += 1;
    }
    false
}

/// The public symbols of the baseline that the program removed, sorted by symbol, each
/// with the program's public functions of the same module and name, sorted by symbol.
pub fn removed_public_symbols(program: &Program, baseline: &Vec<Function>) -> (res: Vec<RemovedPublicSymbol>)
    ensures
        exists|perm: Seq<usize>|
            #[trigger] is_permutation(perm, removed_from(program.functions@, baseline@).len() as int)
                && removed_listed(res@, program.functions@, removed_from(program.functions@, baseline@), perm),
{
    let fs = &program.functions;
    let mut removed: Vec<Function> = Vec::new();
    let mut i: usize = 0;
    assert(baseline@.take(0) =~= Seq::<Function>::empty());
    while i < baseline.len()
        invariant
            i <= baseline@.len(),
            *fs == program.functions,
            removed@.len() == removed_from(fs@, baseline@.take(i as int)).len(),
            forall|k: int| 0 <= k < removed@.len() ==> same_function(#[trigger] removed@[k], removed_from(fs@, baseline@.take(i as int))[k]),
        decreases baseline@.len() - i,
    {
        proof {
            assert(baseline@.take(i + 1).drop_last() =~= baseline@.take(i as int));
            assert(baseline@.take(i + 1).last() == baseline@[i as int]);
        }
        let b = &baseline[i];
        if b.public && !has_symbol(fs, &b.symbol()) {
            removed.push(b.copy());
        }
        i += 1;
    }
    assert(baseline@.take(baseline@.len() as int) =~= baseline@);
    let ghost rem = removed_from(fs@, baseline@);
    let sorted = sort_functions(&removed);
    let ghost sperm = choose|perm: Seq<usize>|
        #[trigger] is_permutation(perm, removed@.len() as int) && stably_sorted_by(
            perm,
            removed@.map_values(|f: Function| symbol_text(f)),
        ) && sorted@.len() == removed@.len() && forall|k: int|
            0 <= k < sorted@.len() ==> same_function(#[trigger] sorted@[k], removed@[perm[k] as int]);
    let mut out: Vec<RemovedPublicSymbol> = Vec::new();
    let mut k: usize = 0;
    while k < sorted.len()
        invariant
            k <= sorted@.len(),
            *fs == program.functions,
            rem == removed_from(fs@, baseline@),
            removed@.len() == rem.len(),
            forall|j: int| 0 <= j < removed@.len() ==> same_function(#[trigger] removed@[j], rem[j]),
            is_permutation(sperm, removed@.len() as int),
            sorted@.len() == removed@.len(),
            forall|j: int| 0 <= j < sorted@.len() ==> same_function(#[trigger] sorted@[j], removed@[sperm[j] as int]),
            out@.len() == k,
            forall|j: int|
                0 <= j < k ==> same_function((#[trigger] out@[j]).function, rem[sperm[j] as int]) && sorted_by_symbol(
                    out@[j].replacement_candidates@,
                    replacements(fs@, rem[sperm[j] as int]),
                ),
        decreases sorted@.len() - k,
    {
        let b = &sorted[k];
        let ghost target = rem[sperm[k as int] as int];
        assert(same_function(*b, target));
        let mut cands: Vec<Function> = Vec::new();
        let mut j: usize = 0;
        assert(fs@.take(0) =~= Seq::<Function>::empty());
        while j < fs.len()
            invariant
                j <= fs@.len(),
                same_function(*b, target),
                same_functions(cands@, replacements(fs@.take(j as int), target)),
            decreases fs@.len() - j,
        {
            proof {
                assert(fs@.take(j + 1).drop_last() =~= fs@.take(j as int));
                assert(fs@.take(j + 1).last() == fs@[j as int]);
            }
            let c = &fs[j];
            if c.public && str_eq(c.module.as_str(), b.module.as_str()) && str_eq(c.name.as_str(), b.name.as_str()) {
                cands.push(c.copy());
            }
            j += 1;
        }
        assert(fs@.take(fs@.len() as int) =~= fs@);
        let sorted_cands = sort_functions(&cands);
        proof {
            lemma_sorted_transfer(sorted_cands@, cands@, replacements(fs@, target));
        }
        out.push(RemovedPublicSymbol { function: b.copy(), replacement_candidates: sorted_cands });
        k += 1;
    }
    proof {
        lemma_same_symbols(removed@, rem);
        assert(is_permutation(sperm, rem.len() as int));
        assert(stably_sorted_by(sperm, rem.map_values(|f: Function| symbol_text(f))));
    }
    out
}

// ---------------------------------------------------------------------------
// The plan as text
// ---------------------------------------------------------------------------
/// A line of the report.
pub open spec fn ln(s: Seq<char>) -> Seq<char> {
    s + "\n"@
}

/// The values joined by `, `, or `none`.
pub open spec fn human_list(v: Seq<String>) -> Seq<char> {
    if v.len() == 0 {
        "none"@
    } else {
        join_spec(texts(v), ", "@)
    }
}

/// The values joined by `sep`, or `none`.
pub open spec fn or_none(v: Seq<String>, sep: Seq<char>) -> Seq<char> {
    if v.len() == 0 {
        "none"@
    } else {
        join_spec(texts(v), sep)
    }
}

/// A count with its sign: `+n` when positive.
pub open spec fn signed_text(v: int) -> Seq<char> {
    if v > 0 {
        "+"@ + decimal(v as nat)
    } else {
        int_text(v)
    }
}

/// The report lines of a removed symbol.
pub open spec fn removed_text(r: RemovedPublicSymbol) -> Seq<char> {
    ln("removed "@ + symbol_text(r.function)) + ln("  "@ + signature_text(r.function)) + ln(
        "  same-name replacements: "@ + (if r.replacement_candidates@.len() == 0 {
            "none"@
        } else {
            path_sep(r.replacement_candidates@, ", "@)
        }),
    )
}

/// The functions' symbols joined by `sep`.
pub open spec fn path_sep(p: Seq<Function>, sep: Seq<char>) -> Seq<char> {
    join_spec(p.map_values(|f: Function| symbol_text(f)), sep)
}

/// The report line of one sampled-property hint.
pub open spec fn hint_text(h: PropertyCoverageHint) -> Seq<char> {
    ln(
        "    property "@ + decimal(h.property_index as nat) + ": "@ + decimal(h.sample_count as nat)
            + " samples, direct_call="@ + bool_text(h.direct_call) + ", vacuous="@ + bool_text(h.vacuous)
            + ", unsupported_types="@ + or_none(h.unsupported_types@, ", "@) + ", unsupported_reasons="@
            + or_none(h.unsupported_reasons@, "; "@) + ", recursive_record_cycles="@ + or_none(
            h.recursive_record_cycles@,
            "; "@,
        ),
    )
}

/// Texts run together.
pub open spec fn run(parts: Seq<Seq<char>>) -> Seq<char> {
    join_spec(parts, ""@)
}

/// How many impacted edges evidence covers.
pub open spec fn covered_count(v: Seq<ImpactEvidenceCoverage>) -> nat
    decreases v.len(),
{
    if v.len() == 0 {
        0
    } else {
        covered_count(v.drop_last()) + if v.last().covered {
            1nat
        } else {
            0nat
        }
    }
}

/// The first lines of a changed symbol's report: symbol, signature, evidence, property
/// coverage, evidence delta, weakening and drift.
pub open spec fn symbol_head(s: ChangedSymbol) -> Seq<char> {
    ln(symbol_text(s.function)) + ln("  "@ + signature_text(s.function)) + ln(
        "  evidence: "@ + decimal(s.evidence.requires as nat) + " requires, "@ + decimal(
            s.evidence.ensures as nat,
        ) + " ensures, "@ + decimal(s.evidence.examples as nat) + " examples, "@ + decimal(
            s.evidence.properties as nat,
        ) + " properties"@,
    ) + (if s.property_coverage@.len() > 0 {
        ln("  sampled property coverage:"@) + run(s.property_coverage@.map_values(|h: PropertyCoverageHint| hint_text(h)))
    } else {
        seq![]
    }) + (match s.evidence_delta {
        Some(d) => ln(
            "  evidence delta from HEAD: "@ + signed_text(d.requires as int) + " requires, "@ + signed_text(
                d.ensures as int,
            ) + " ensures, "@ + signed_text(d.examples as int) + " examples, "@ + signed_text(
                d.properties as int,
            ) + " properties"@,
        ),
        None => seq![],
    }) + run(
        s.evidence_weakening@.map_values(
            |w: EvidenceWeakening| ln(
                "  evidence weakening: "@ + w.kind@ + " "@ + decimal(w.before as nat) + " -> "@ + decimal(
                    w.after as nat,
                ),
            ),
        ),
    ) + (match s.evidence_drift {
        Some(d) => ln("  evidence drift: "@ + join_spec(texts(d.changed@), ", "@)),
        None => seq![],
    })
}

/// The capability lines of a changed symbol's report.
pub open spec fn caps_text(ca: CapabilityAnalysis) -> Seq<char> {
    ln(
        "  direct-call capabilities: declared "@ + human_list(ca.declared_effects@) + ", required "@
            + human_list(ca.required_by_direct_callees@) + ", suggested "@ + ca.suggested_effects@,
    ) + (if ca.missing_for_direct_callees@.len() > 0 {
        ln("    missing: "@ + human_list(ca.missing_for_direct_callees@))
    } else {
        seq![]
    }) + (if ca.unused_for_direct_callees@.len() > 0 {
        ln("    unused: "@ + human_list(ca.unused_for_direct_callees@))
    } else {
        seq![]
    })
}

/// The implementation-change lines of a changed symbol's report.
pub open spec fn change_text(c: Option<ImplementationChange>) -> Seq<char> {
    match c {
        Some(c) => ln("  implementation changed:"@) + ln("    before: "@ + c.before@) + ln("    after: "@ + c.after@),
        None => seq![],
    }
}

/// The implementation-evidence lines of a changed symbol's report.
pub open spec fn coverage_text(c: Option<ImplementationEvidenceCoverage>) -> Seq<char> {
    match c {
        Some(c) => ln(
            "  implementation evidence coverage: "@ + if c.covered {
                "covered"@
            } else {
                "uncovered"@
            },
        ) + ln("    "@ + c.reason@) + ln(
            "  implementation evidence sensitivity: "@ + if c.behavior_sensitive {
                "sensitive"@
            } else {
                "insensitive"@
            },
        ) + ln("    "@ + c.sensitivity_reason@),
        None => seq![],
    }
}

/// The capability and implementation lines of a changed symbol's report.
pub open spec fn symbol_middle(s: ChangedSymbol) -> Seq<char> {
    caps_text(s.capability_analysis) + change_text(s.implementation_change) + coverage_text(s.implementation_evidence)
}

/// The last lines of a changed symbol's report: risks, migrations, version, impact and
/// semantic changes.
pub open spec fn symbol_tail(s: ChangedSymbol) -> Seq<char> {
    let covered = covered_count(s.impact_coverage@);
    run(texts(s.intent_implementation_risks@).map_values(|r: Seq<char>| ln("  intent/implementation risk: "@ + r)))
        + run(s.migrations@.map_values(|m: MigrationRecord| ln("  migration: "@ + m.kind@ + " - "@ + m.note@)))
        + run(
        s.stale_migrations@.map_values(
            |m: StaleMigration| ln("  stale migration: "@ + m.kind@ + " #"@ + decimal(m.index as nat) + " - "@ + m.reason@),
        ),
    ) + ln("  explicit version: "@ + bool_text(s.version_explicit)) + ln(
        "  impacted dependents: "@ + decimal(s.impact@.len()),
    ) + ln(
        "  impact evidence coverage: "@ + decimal(covered) + " covered, "@ + decimal(
            (s.impact_coverage@.len() - covered) as nat,
        ) + " uncovered"@,
    ) + run(texts(s.residual_risks@).map_values(|r: Seq<char>| ln("  risk: "@ + r))) + (if s.semantic_changes@.len() > 0 {
        ln("  semantic changes:"@) + run(
            s.semantic_changes@.map_values(
                |c: SemanticChange| ln(
                    "    "@ + c.label@ + " acknowledged="@ + bool_text(c.acknowledged) + " details="@ + human_list(
                        c.details@,
                    ),
                ),
            ),
        )
    } else {
        seq![]
    })
}

/// The report of one changed symbol.
pub open spec fn symbol_text_block(s: ChangedSymbol) -> Seq<char> {
    symbol_head(s) + symbol_middle(s) + symbol_tail(s)
}

/// The plan as a report: status, mode, counts, residual risks, removed symbols, and each
/// changed symbol.
pub open spec fn plan_report(p: ChangePlan) -> Seq<char> {
    ln("serow plan: "@ + if p.ok {
        "ok"@
    } else {
        "needs-review"@
    }) + ln("mode: "@ + p.mode@) + ln("changed files: "@ + decimal(p.changed_paths@.len())) + ln(
        "changed symbols: "@ + decimal(p.changed_symbols@.len()),
    ) + ln("removed public symbols: "@ + decimal(p.removed_symbols@.len())) + (if p.residual_risks@.len() > 0 {
        ln("residual risks:"@) + run(texts(p.residual_risks@).map_values(|r: Seq<char>| ln("  "@ + r)))
    } else {
        seq![]
    }) + run(p.removed_symbols@.map_values(|r: RemovedPublicSymbol| removed_text(r))) + run(
        p.changed_symbols@.map_values(|s: ChangedSymbol| symbol_text_block(s)),
    )
}

fn push_line(out: &mut String, s: &str)
    ensures
        final(out)@ == old(out)@ + ln(s@),
{
    out.append(s);
    out.append("\n");
}

fn human_list_exec(v: &Vec<String>) -> (res: String)
    ensures
        res@ == human_list(v@),
{
    if v.len() == 0 {
        owned("none")
    } else {
        joined(v, ", ")
    }
}

fn or_none_exec(v: &Vec<String>, sep: &str) -> (res: String)
    ensures
        res@ == or_none(v@, sep@),
{
    if v.len() == 0 {
        owned("none")
    } else {
        joined(v, sep)
    }
}

fn signed(v: isize) -> (res: String)
    ensures
        res@ == signed_text(v as int),
{
    if v > 0 {
        let mut s = owned("+");
        s.append(usize_text(v as usize).as_str());
        s
    } else {
        i64_text(v as i64)
    }
}

/// Runs texts together, each made by `f` from an item.
fn run_strings(parts: &Vec<String>) -> (res: String)
    ensures
        res@ == run(texts(parts@)),
{
    joined(parts, "")
}

fn removed_text_exec(r: &RemovedPublicSymbol) -> (res: String)
    ensures
        res@ == removed_text(*r),
{
    let mut out = String::new();
    let mut l = owned("removed ");
    l.append(r.function.symbol().as_str());
    push_line(&mut out, l.as_str());
    let mut l = owned("  ");
    l.append(r.function.signature().as_str());
    push_line(&mut out, l.as_str());
    let mut l = owned("  same-name replacements: ");
    if r.replacement_candidates.len() == 0 {
        l.append("none");
    } else {
        l.append(path_sep_exec(&r.replacement_candidates, ", ").as_str());
    }
    push_line(&mut out, l.as_str());
    out
}

fn path_sep_exec(p: &Vec<Function>, sep: &str) -> (res: String)
    ensures
        res@ == path_sep(p@, sep@),
{
    let mut parts: Vec<String> = Vec::new();
    let mut i: usize = 0;
    while i < p.len()
        invariant
            i <= p@.len(),
            parts@.len() == i,
            forall|j: int| 0 <= j < i ==> #[trigger] parts@[j]@ == symbol_text(p@[j]),
        decreases p@.len() - i,
    {
        parts.push(p[i].symbol());
        i += 1;
    }
    assert(parts@.map_values(|x: String| x@) =~= p@.map_values(|f: Function| symbol_text(f)));
    join_strings(&parts, sep)
}

fn hint_text_exec(h: &PropertyCoverageHint) -> (res: String)
    ensures
        res@ == hint_text(*h),
{
    let mut l = owned("    property ");
    l.append(usize_text(h.property_index).as_str());
    l.append(": ");
    l.append(usize_text(h.sample_count).as_str());
    l.append(" samples, direct_call=");
    l.append(bool_str(h.direct_call));
    l.append(", vacuous=");
    l.append(bool_str(h.vacuous));
    l.append(", unsupported_types=");
    l.append(or_none_exec(&h.unsupported_types, ", ").as_str());
    l.append(", unsupported_reasons=");
    l.append(or_none_exec(&h.unsupported_reasons, "; ").as_str());
    l.append(", recursive_record_cycles=");
    l.append(or_none_exec(&h.recursive_record_cycles, "; ").as_str());
    let mut out = String::new();
    push_line(&mut out, l.as_str());
    out
}

fn symbol_head_exec(s: &ChangedSymbol) -> (res: String)
    ensures
        res@ == symbol_head(*s),
{
    let mut out = String::new();
    push_line(&mut out, s.function.symbol().as_str());
    let mut l = owned("  ");
    l.append(s.function.signature().as_str());
    push_line(&mut out, l.as_str());
    let mut l = owned("  evidence: ");
    l.append(usize_text(s.evidence.requires).as_str());
    l.append(" requires, ");
    l.append(usize_text(s.evidence.ensures).as_str());
    l.append(" ensures, ");
    l.append(usize_text(s.evidence.examples).as_str());
    l.append(" examples, ");
    l.append(usize_text(s.evidence.properties).as_str());
    l.append(" properties");
    push_line(&mut out, l.as_str());
    if s.property_coverage.len() > 0 {
        push_line(&mut out, "  sampled property coverage:");
        let mut parts: Vec<String> = Vec::new();
        let mut i: usize = 0;
        while i < s.property_coverage.len()
            invariant
                i <= s.property_coverage@.len(),
                parts@.len() == i,
                forall|j: int| 0 <= j < i ==> #[trigger] parts@[j]@ == hint_text(s.property_coverage@[j]),
            decreases s.property_coverage@.len() - i,
        {
            parts.push(hint_text_exec(&s.property_coverage[i]));
            i += 1;
        }
        assert(texts(parts@) =~= s.property_coverage@.map_values(|h: PropertyCoverageHint| hint_text(h)));
        out.append(run_strings(&parts).as_str());
    }
    match &s.evidence_delta {
        Some(d) => {
            let mut l = owned("  evidence delta from HEAD: ");
            l.append(signed(d.requires).as_str());
            l.append(" requires, ");
            l.append(signed(d.ensures).as_str());
            l.append(" ensures, ");
            l.append(signed(d.examples).as_str());
            l.append(" examples, ");
            l.append(signed(d.properties).as_str());
            l.append(" properties");
            push_line(&mut out, l.as_str());
        },
        None => {},
    }
    let mut parts: Vec<String> = Vec::new();
    let mut i: usize = 0;
    while i < s.evidence_weakening.len()
        invariant
            i <= s.evidence_weakening@.len(),
            parts@.len() == i,
            forall|j: int| 0 <= j < i ==> #[trigger] parts@[j]@ == ln(
                "  evidence weakening: "@ + s.evidence_weakening@[j].kind@ + " "@ + decimal(
                    s.evidence_weakening@[j].before as nat,
                ) + " -> "@ + decimal(s.evidence_weakening@[j].after as nat),
            ),
        decreases s.evidence_weakening@.len() - i,
    {
        let w = &s.evidence_weakening[i];
        let mut l = owned("  evidence weakening: ");
        l.append(w.kind.as_str());
        l.append(" ");
        l.append(usize_text(w.before).as_str());
        l.append(" -> ");
        l.append(usize_text(w.after).as_str());
        let mut t = String::new();
        push_line(&mut t, l.as_str());
        parts.push(t);
        i += 1;
    }
    assert(texts(parts@) =~= s.evidence_weakening@.map_values(
        |w: EvidenceWeakening| ln(
            "  evidence weakening: "@ + w.kind@ + " "@ + decimal(w.before as nat) + " -> "@ + decimal(w.after as nat),
        ),
    ));
    out.append(run_strings(&parts).as_str());
    match &s.evidence_drift {
        Some(d) => {
            let mut l = owned("  evidence drift: ");
            l.append(joined(&d.changed, ", ").as_str());
            push_line(&mut out, l.as_str());
        },
        None => {},
    }
    out
}

fn caps_text_exec(ca: &CapabilityAnalysis) -> (res: String)
    ensures
        res@ == caps_text(*ca),
{
    let mut out = String::new();
    let mut l = owned("  direct-call capabilities: declared ");
    l.append(human_list_exec(&ca.declared_effects).as_str());
    l.append(", required ");
    l.append(human_list_exec(&ca.required_by_direct_callees).as_str());
    l.append(", suggested ");
    l.append(ca.suggested_effects.as_str());
    push_line(&mut out, l.as_str());
    if ca.missing_for_direct_callees.len() > 0 {
        let mut l = owned("    missing: ");
        l.append(human_list_exec(&ca.missing_for_direct_callees).as_str());
        push_line(&mut out, l.as_str());
    }
    if ca.unused_for_direct_callees.len() > 0 {
        let mut l = owned("    unused: ");
        l.append(human_list_exec(&ca.unused_for_direct_callees).as_str());
        push_line(&mut out, l.as_str());
    }
    out
}

fn change_text_exec(c: &Option<ImplementationChange>) -> (res: String)
    ensures
        res@ == change_text(*c),
{
    let mut out = String::new();
    match c {
        Some(c) => {
            push_line(&mut out, "  implementation changed:");
            let mut l = owned("    before: ");
            l.append(c.before.as_str());
            push_line(&mut out, l.as_str());
            let mut l = owned("    after: ");
            l.append(c.after.as_str());
            push_line(&mut out, l.as_str());
        },
        None => {},
    }
    out
}

fn coverage_text_exec(c: &Option<ImplementationEvidenceCoverage>) -> (res: String)
    ensures
        res@ == coverage_text(*c),
{
    let mut out = String::new();
    match c {
        Some(c) => {
            let mut l = owned("  implementation evidence coverage: ");
            l.append(if c.covered { "covered" } else { "uncovered" });
            push_line(&mut out, l.as_str());
            let mut l = owned("    ");
            l.append(c.reason.as_str());
            push_line(&mut out, l.as_str());
            let mut l = owned("  implementation evidence sensitivity: ");
            l.append(if c.behavior_sensitive { "sensitive" } else { "insensitive" });
            push_line(&mut out, l.as_str());
            let mut l = owned("    ");
            l.append(c.sensitivity_reason.as_str());
            push_line(&mut out, l.as_str());
        },
        None => {},
    }
    out
}

fn symbol_middle_exec(s: &ChangedSymbol) -> (res: String)
    ensures
        res@ == symbol_middle(*s),
{
    let mut out = caps_text_exec(&s.capability_analysis);
    out.append(change_text_exec(&s.implementation_change).as_str());
    out.append(coverage_text_exec(&s.implementation_evidence).as_str());
    out
}

fn prefixed_lines(prefix: &str, v: &Vec<String>) -> (res: String)
    ensures
        res@ == run(texts(v@).map_values(|r: Seq<char>| ln(prefix@ + r))),
{
    let mut parts: Vec<String> = Vec::new();
    let mut i: usize = 0;
    while i < v.len()
        invariant
            i <= v@.len(),
            parts@.len() == i,
            forall|j: int| 0 <= j < i ==> #[trigger] parts@[j]@ == ln(prefix@ + v@[j]@),
        decreases v@.len() - i,
    {
        let mut l = owned(prefix);
        l.append(v[i].as_str());
        let mut t = String::new();
        push_line(&mut t, l.as_str());
        parts.push(t);
        i += 1;
    }
    assert(texts(parts@) =~= texts(v@).map_values(|r: Seq<char>| ln(prefix@ + r)));
    run_strings(&parts)
}

fn symbol_tail_exec(s: &ChangedSymbol) -> (res: String)
    ensures
        res@ == symbol_tail(*s),
{
    let mut out = prefixed_lines("  intent/implementation risk: ", &s.intent_implementation_risks);
    let mut parts: Vec<String> = Vec::new();
    let mut i: usize = 0;
    while i < s.migrations.len()
        invariant
            i <= s.migrations@.len(),
            parts@.len() == i,
            forall|j: int| 0 <= j < i ==> #[trigger] parts@[j]@ == ln(
                "  migration: "@ + s.migrations@[j].kind@ + " - "@ + s.migrations@[j].note@,
            ),
        decreases s.migrations@.len() - i,
    {
        let m = &s.migrations[i];
        let mut l = owned("  migration: ");
        l.append(m.kind.as_str());
        l.append(" - ");
        l.append(m.note.as_str());
        let mut t = String::new();
        push_line(&mut t, l.as_str());
        parts.push(t);
        i += 1;
    }
    assert(texts(parts@) =~= s.migrations@.map_values(|m: MigrationRecord| ln("  migration: "@ + m.kind@ + " - "@ + m.note@)));
    out.append(run_strings(&parts).as_str());
    let mut parts: Vec<String> = Vec::new();
    let mut i: usize = 0;
    while i < s.stale_migrations.len()
        invariant
            i <= s.stale_migrations@.len(),
            parts@.len() == i,
            forall|j: int| 0 <= j < i ==> #[trigger] parts@[j]@ == ln(
                "  stale migration: "@ + s.stale_migrations@[j].kind@ + " #"@ + decimal(s.stale_migrations@[j].index as nat)
                    + " - "@ + s.stale_migrations@[j].reason@,
            ),
        decreases s.stale_migrations@.len() - i,
    {
        let m = &s.stale_migrations[i];
        let mut l = owned("  stale migration: ");
        l.append(m.kind.as_str());
        l.append(" #");
        l.append(usize_text(m.index).as_str());
        l.append(" - ");
        l.append(m.reason.as_str());
        let mut t = String::new();
        push_line(&mut t, l.as_str());
        parts.push(t);
        i += 1;
    }
    assert(texts(parts@) =~= s.stale_migrations@.map_values(
        |m: StaleMigration| ln("  stale migration: "@ + m.kind@ + " #"@ + decimal(m.index as nat) + " - "@ + m.reason@),
    ));
    out.append(run_strings(&parts).as_str());
    let mut l = owned("  explicit version: ");
    l.append(bool_str(s.version_explicit));
    push_line(&mut out, l.as_str());
    let mut l = owned("  impacted dependents: ");
    l.append(usize_text(s.impact.len()).as_str());
    push_line(&mut out, l.as_str());
    let mut covered: usize = 0;
    let mut i: usize = 0;
    assert(s.impact_coverage@.take(0) =~= Seq::<ImpactEvidenceCoverage>::empty());
    while i < s.impact_coverage.len()
        invariant
            i <= s.impact_coverage@.len(),
            covered == covered_count(s.impact_coverage@.take(i as int)),
            covered <= i,
        decreases s.impact_coverage@.len() - i,
    {
        proof {
            assert(s.impact_coverage@.take(i + 1).drop_last() =~= s.impact_coverage@.take(i as int));
            assert(s.impact_coverage@.take(i + 1).last() == s.impact_coverage@[i as int]);
        }
        if s.impact_coverage[i].covered {
            covered += 1;
        }
        i += 1;
    }
    assert(s.impact_coverage@.take(s.impact_coverage@.len() as int) =~= s.impact_coverage@);
    let mut l = owned("  impact evidence coverage: ");
    l.append(usize_text(covered).as_str());
    l.append(" covered, ");
    l.append(usize_text(s.impact_coverage.len() - covered).as_str());
    l.append(" uncovered");
    push_line(&mut out, l.as_str());
    out.append(prefixed_lines("  risk: ", &s.residual_risks).as_str());
    if s.semantic_changes.len() > 0 {
        push_line(&mut out, "  semantic changes:");
        let mut parts: Vec<String> = Vec::new();
        let mut i: usize = 0;
        while i < s.semantic_changes.len()
            invariant
                i <= s.semantic_changes@.len(),
                parts@.len() == i,
                forall|j: int| 0 <= j < i ==> #[trigger] parts@[j]@ == ln(
                    "    "@ + s.semantic_changes@[j].label@ + " acknowledged="@ + bool_text(s.semantic_changes@[j].acknowledged)
                        + " details="@ + human_list(s.semantic_changes@[j].details@),
                ),
            decreases s.semantic_changes@.len() - i,
        {
            let c = &s.semantic_changes[i];
            let mut l = owned("    ");
            l.append(c.label.as_str());
            l.append(" acknowledged=");
            l.append(bool_str(c.acknowledged));
            l.append(" details=");
            l.append(human_list_exec(&c.details).as_str());
            let mut t = String::new();
            push_line(&mut t, l.as_str());
            parts.push(t);
            i += 1;
        }
        assert(texts(parts@) =~= s.semantic_changes@.map_values(
            |c: SemanticChange| ln(
                "    "@ + c.label@ + " acknowledged="@ + bool_text(c.acknowledged) + " details="@ + human_list(c.details@),
            ),
        ));
        out.append(run_strings(&parts).as_str());
    }
    out
}

/// Writes the plan as a text report, one line per finding.
#[verifier::rlimit(40)]
pub fn plan_text(plan: &ChangePlan) -> (res: String)
    ensures
        res@ == plan_report(*plan),
{
    let mut out = String::new();
    let mut l = owned("serow plan: ");
    l.append(if plan.ok { "ok" } else { "needs-review" });
    push_line(&mut out, l.as_str());
    let mut l = owned("mode: ");
    l.append(plan.mode.as_str());
    push_line(&mut out, l.as_str());
    let mut l = owned("changed files: ");
    l.append(usize_text(plan.changed_paths.len()).as_str());
    push_line(&mut out, l.as_str());
    let mut l = owned("changed symbols: ");
    l.append(usize_text(plan.changed_symbols.len()).as_str());
    push_line(&mut out, l.as_str());
    let mut l = owned("removed public symbols: ");
    l.append(usize_text(plan.removed_symbols.len()).as_str());
    push_line(&mut out, l.as_str());
    if plan.residual_risks.len() > 0 {
        push_line(&mut out, "residual risks:");
        out.append(prefixed_lines("  ", &plan.residual_risks).as_str());
    }
    let mut parts: Vec<String> = Vec::new();
    let mut i: usize = 0;
    while i < plan.removed_symbols.len()
        invariant
            i <= plan.removed_symbols@.len(),
            parts@.len() == i,
            forall|j: int| 0 <= j < i ==> #[trigger] parts@[j]@ == removed_text(plan.removed_symbols@[j]),
        decreases plan.removed_symbols@.len() - i,
    {
        parts.push(removed_text_exec(&plan.removed_symbols[i]));
        i += 1;
    }
    assert(texts(parts@) =~= plan.removed_symbols@.map_values(|r: RemovedPublicSymbol| removed_text(r)));
    out.append(run_strings(&parts).as_str());
    let mut parts: Vec<String> = Vec::new();
    let mut i: usize = 0;
    while i < plan.changed_symbols.len()
        invariant
            i <= plan.changed_symbols@.len(),
            parts@.len() == i,
            forall|j: int| 0 <= j < i ==> #[trigger] parts@[j]@ == symbol_text_block(plan.changed_symbols@[j]),
        decreases plan.changed_symbols@.len() - i,
    {
        let s = &plan.changed_symbols[i];
        let mut t = symbol_head_exec(s);
        t.append(symbol_middle_exec(s).as_str());
        t.append(symbol_tail_exec(s).as_str());
        parts.push(t);
        i += 1;
    }
    assert(texts(parts@) =~= plan.changed_symbols@.map_values(|s: ChangedSymbol| symbol_text_block(s)));
    out.append(run_strings(&parts).as_str());
    out
}

} // verus!
