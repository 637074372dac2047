use serow::checker::CheckSummary;
use serow::diagnostic::Diagnostic;
use serow::ledger::{CallSite, ImpactDependent};
use serow::model::{Function, MigrationRecord};
use serow::parser::parse_source;
use serow::plan::{
    unattended_capability_expansion_diagnostics, unattended_evidence_weakening_diagnostics,
    unattended_implementation_change_diagnostics,
    unattended_implementation_evidence_drift_diagnostics,
    unattended_public_behavior_change_diagnostics, unattended_removed_public_symbol_diagnostics,
    unattended_stale_migration_diagnostics, unattended_unchecked_impact_diagnostics,
    unattended_uncovered_impact_evidence_diagnostics, CapabilityAnalysis, CapabilityChange,
    ChangePlan, ChangedSymbol, EvidenceCoverage, EvidenceDelta, EvidenceDrift, EvidenceWeakening,
    ImpactEvidenceCoverage, ImplementationChange, ImplementationEvidenceCoverage,
    PublicBehaviorChange, RemovedPublicSymbol, StaleMigration,
};

const SOURCE: &str = "module core.math

pub fn add(a: Int, b: Int) -> Int
  intent \"add two integers\"
  version v1
  effects pure
  impl
    a + b

pub fn twice(a: Int) -> Int
  intent \"double an integer\"
  version v1
  effects pure
  impl
    add(a, a)
";

fn functions() -> Vec<Function> {
    parse_source("math.serow", SOURCE).0.functions
}

fn coverage() -> EvidenceCoverage {
    EvidenceCoverage { requires: 0, ensures: 0, examples: 0, properties: 0 }
}

fn changed(function: Function) -> ChangedSymbol {
    ChangedSymbol {
        version_explicit: function.version_explicit,
        migrations: function.migrations.clone(),
        function,
        baseline_evidence: None,
        behavior_change: None,
        capability_analysis: CapabilityAnalysis {
            declared_effects: vec![],
            declared_capabilities: vec![],
            required_by_direct_callees: vec![],
            missing_for_direct_callees: vec![],
            unused_for_direct_callees: vec![],
            suggested_effects: String::new(),
        },
        capability_change: None,
        evidence: coverage(),
        evidence_delta: None,
        evidence_drift: None,
        property_coverage: vec![],
        evidence_weakening: vec![],
        implementation_change: None,
        implementation_evidence: None,
        intent_implementation_risks: vec![],
        stale_migrations: vec![],
        impact: vec![],
        impact_coverage: vec![],
        semantic_changes: vec![],
        residual_risks: vec![],
    }
}

fn plan(changed_symbols: Vec<ChangedSymbol>, removed_symbols: Vec<RemovedPublicSymbol>) -> ChangePlan {
    ChangePlan {
        ok: false,
        mode: "explicit-paths".to_string(),
        source_paths: vec!["math.serow".to_string()],
        changed_paths: vec!["math.serow".to_string()],
        removed_symbols,
        changed_symbols,
        diagnostics: vec![],
        summary: CheckSummary { functions: 2, examples: 0, properties: 0, contracts: 0, holes: 0, diagnostics: vec![] },
        residual_risks: vec![],
    }
}

fn data(d: &Diagnostic, key: &str) -> String {
    d.data.iter().find(|(k, _)| k == key).map(|(_, v)| v.clone()).unwrap_or_default()
}

fn acknowledged(mut function: Function, kind: &str, note: &str) -> Function {
    function.migrations.push(MigrationRecord { kind: kind.to_string(), note: note.to_string() });
    function
}

#[test]
fn removed_symbols_without_replacement_are_errors() {
    let fs = functions();
    let removed = vec![
        RemovedPublicSymbol { function: fs[0].clone(), replacement_candidates: vec![] },
        RemovedPublicSymbol { function: fs[1].clone(), replacement_candidates: vec![fs[1].clone()] },
    ];
    let ds = unattended_removed_public_symbol_diagnostics(&plan(vec![], removed), &["math.serow".to_string()]);
    assert_eq!(ds.len(), 1);
    assert_eq!(ds[0].code, "PublicSymbolRemoved");
    assert_eq!(
        ds[0].message,
        "Public symbol `@core.math.add.v1` was removed without a same-name replacement version."
    );
    assert_eq!(data(&ds[0], "signature"), "add(a: Int, b: Int) -> Int");
    assert_eq!(ds[0].target.as_deref(), Some("math.serow:3:add"));
}

#[test]
fn weakened_evidence_is_reported_per_kind_unless_acknowledged() {
    let fs = functions();
    let mut s = changed(fs[0].clone());
    s.evidence_weakening = vec![
        EvidenceWeakening { kind: "examples".to_string(), before: 2, after: 1, removed: vec!["add(1, 1) == 2".to_string()] },
        EvidenceWeakening { kind: "ensures".to_string(), before: 1, after: 0, removed: vec!["a".to_string(), "b".to_string()] },
    ];
    let ds = unattended_evidence_weakening_diagnostics(&plan(vec![s.clone()], vec![]));
    assert_eq!(ds.len(), 2);
    assert_eq!(ds[0].message, "Public function `add` weakens examples evidence compared with HEAD.");
    assert_eq!(data(&ds[0], "before"), "2");
    assert_eq!(data(&ds[1], "removed"), "a\nb");
    s.function = acknowledged(s.function, "evidence-weakening", "fine");
    assert!(unattended_evidence_weakening_diagnostics(&plan(vec![s.clone()], vec![])).is_empty());
    s.function.migrations[0].note = "  ".to_string();
    assert_eq!(unattended_evidence_weakening_diagnostics(&plan(vec![s], vec![])).len(), 2);
}

#[test]
fn behavior_changes_need_a_version_or_acknowledgement() {
    let fs = functions();
    let mut s = changed(fs[0].clone());
    s.behavior_change = Some(PublicBehaviorChange { changed: vec!["signature".to_string(), "ensures".to_string()] });
    let ds = unattended_public_behavior_change_diagnostics(&plan(vec![s.clone()], vec![]));
    assert_eq!(ds.len(), 1);
    assert_eq!(ds[0].code, "PublicBehaviorChangeNeedsVersion");
    assert_eq!(data(&ds[0], "changed"), "signature, ensures");

    let mut effects_only = changed(acknowledged(fs[0].clone(), "capability-expansion", "io needed"));
    effects_only.behavior_change = Some(PublicBehaviorChange { changed: vec!["effects".to_string()] });
    assert!(unattended_public_behavior_change_diagnostics(&plan(vec![effects_only], vec![])).is_empty());
}

#[test]
fn capability_expansion_needs_acknowledgement() {
    let fs = functions();
    let mut s = changed(fs[1].clone());
    s.capability_change = Some(CapabilityChange {
        before: vec!["pure".to_string()],
        after: vec!["io".to_string(), "net".to_string()],
        added: vec!["io".to_string(), "net".to_string()],
        removed: vec![],
    });
    let ds = unattended_capability_expansion_diagnostics(&plan(vec![s.clone()], vec![]));
    assert_eq!(ds.len(), 1);
    assert_eq!(ds[0].message, "Public function `twice` expands its declared capabilities without acknowledgement.");
    assert_eq!(data(&ds[0], "added"), "io, net");
    assert_eq!(data(&ds[0], "before"), "pure");
    s.capability_change.as_mut().unwrap().added.clear();
    assert!(unattended_capability_expansion_diagnostics(&plan(vec![s], vec![])).is_empty());
}

fn implementation_change() -> Option<ImplementationChange> {
    Some(ImplementationChange { before: "a + b".to_string(), after: "b + a".to_string() })
}

fn evidence(covered: bool, behavior_sensitive: bool) -> Option<ImplementationEvidenceCoverage> {
    Some(ImplementationEvidenceCoverage {
        added_examples: vec!["add(1, 2) == 3".to_string()],
        added_properties: vec![],
        behavior_sensitive,
        covered,
        coverage: vec![],
        reason: String::new(),
        sensitivity: vec![],
        sensitivity_reason: "also passes".to_string(),
    })
}

#[test]
fn implementation_changes_need_sensitive_covering_evidence() {
    let fs = functions();
    let mut s = changed(fs[0].clone());
    s.implementation_change = implementation_change();
    let ds = unattended_implementation_change_diagnostics(&plan(vec![s.clone()], vec![]));
    assert_eq!(ds[0].code, "ImplementationChangeNeedsEvidence");
    assert_eq!(data(&ds[0], "after"), "b + a");

    s.evidence_delta = Some(EvidenceDelta { requires: 0, ensures: 0, examples: 1, properties: 0 });
    s.implementation_evidence = evidence(false, false);
    let ds = unattended_implementation_change_diagnostics(&plan(vec![s.clone()], vec![]));
    assert_eq!(ds[0].code, "ImplementationChangeNeedsCoveringEvidence");
    assert_eq!(data(&ds[0], "added_examples"), "add(1, 2) == 3");

    s.implementation_evidence = evidence(true, false);
    let ds = unattended_implementation_change_diagnostics(&plan(vec![s.clone()], vec![]));
    assert_eq!(ds[0].code, "ImplementationChangeNeedsSensitiveEvidence");
    assert_eq!(data(&ds[0], "sensitivity_reason"), "also passes");

    s.implementation_evidence = evidence(true, true);
    assert!(unattended_implementation_change_diagnostics(&plan(vec![s], vec![])).is_empty());
}

#[test]
fn implementation_and_evidence_drift_needs_acknowledgement() {
    let fs = functions();
    let mut s = changed(fs[0].clone());
    s.implementation_change = implementation_change();
    s.evidence_drift = Some(EvidenceDrift { changed: vec!["examples".to_string(), "properties".to_string()] });
    let ds = unattended_implementation_evidence_drift_diagnostics(&plan(vec![s.clone()], vec![]));
    assert_eq!(ds.len(), 1);
    assert_eq!(data(&ds[0], "changed_evidence"), "examples, properties");
    s.function = acknowledged(s.function, "implementation-change", "reviewed");
    assert!(unattended_implementation_evidence_drift_diagnostics(&plan(vec![s], vec![])).is_empty());
}

#[test]
fn impact_outside_the_change_set_is_reported() {
    let fs = functions();
    let mut s = changed(fs[0].clone());
    s.impact = vec![ImpactDependent {
        function: fs[1].clone(),
        target: fs[0].clone(),
        depth: 1,
        path: vec![fs[1].clone(), fs[0].clone()],
        call_sites: vec![CallSite { context: "impl".to_string(), expression: "add(a, a)".to_string() }],
    }];
    let ds = unattended_unchecked_impact_diagnostics(&plan(vec![s.clone()], vec![]));
    assert_eq!(ds.len(), 1);
    assert_eq!(
        ds[0].message,
        "Public function `add` has dependent `@core.math.twice.v1` outside the certified change set."
    );
    assert_eq!(data(&ds[0], "path"), "@core.math.twice.v1 -> @core.math.add.v1");
    assert_eq!(data(&ds[0], "call_sites"), "impl: add(a, a)");
    let both = plan(vec![s.clone(), changed(fs[1].clone())], vec![]);
    assert!(unattended_unchecked_impact_diagnostics(&both).is_empty());
}

#[test]
fn uncovered_impact_edges_are_reported() {
    let fs = functions();
    let mut s = changed(fs[0].clone());
    s.impact_coverage = vec![
        ImpactEvidenceCoverage {
            dependent: fs[1].clone(),
            edge_target: fs[0].clone(),
            target: fs[0].clone(),
            depth: 1,
            path: vec![fs[1].clone(), fs[0].clone()],
            covered: false,
            coverage: vec![],
            reason: "no evidence calls it".to_string(),
        },
        ImpactEvidenceCoverage {
            dependent: fs[1].clone(),
            edge_target: fs[0].clone(),
            target: fs[0].clone(),
            depth: 1,
            path: vec![],
            covered: true,
            coverage: vec![],
            reason: String::new(),
        },
    ];
    let ds = unattended_uncovered_impact_evidence_diagnostics(&plan(vec![s], vec![]), &[]);
    assert_eq!(ds.len(), 1);
    assert_eq!(ds[0].code, "UncoveredImpactEvidence");
    assert_eq!(data(&ds[0], "edge_target"), "@core.math.add.v1");
    assert_eq!(data(&ds[0], "reason"), "no evidence calls it");
}

#[test]
fn stale_migrations_are_reported() {
    let fs = functions();
    let mut s = changed(fs[0].clone());
    s.stale_migrations = vec![StaleMigration {
        kind: "impact-review".to_string(),
        index: 1,
        note: "old".to_string(),
        reason: "No current unattended gate requires a `impact-review` acknowledgement for this changed symbol.".to_string(),
    }];
    let ds = unattended_stale_migration_diagnostics(&plan(vec![s], vec![]));
    assert_eq!(ds.len(), 1);
    assert_eq!(ds[0].message, "Public function `add` has a stale `impact-review` migration acknowledgement.");
    assert_eq!(data(&ds[0], "index"), "1");
}
