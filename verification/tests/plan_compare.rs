use serow::checker::CheckSummary;
use serow::model::{Function, MigrationRecord};
use serow::parser::parse_source;
use serow::plan::{
    active_gates, capability_analysis, capability_change, evidence_coverage, evidence_drift,
    evidence_weakening, normalized_lines, normalized_properties, plan_text,
    public_behavior_change, removed_public_symbols, stale_migrations, ActiveGates,
    CapabilityAnalysis, ChangePlan, ChangedSymbol, EvidenceCoverage, EvidenceDelta,
    ImplementationChange, PublicBehaviorChange, SemanticChange,
};

const BEFORE: &str = "module core.math

pub fn add(a: Int, b: Int) -> Int
  intent \"add two integers\"
  version v1
  effects pure
  examples
    add(1, 2) == 3
    add(0, 0) == 0
  impl
    a + b

pub fn sub(a: Int, b: Int) -> Int
  intent \"subtract two integers\"
  version v1
  effects pure
  impl
    a - b
";

const AFTER: &str = "module core.math

pub fn add(a: Int, b: Int) -> Int
  intent \"add two integers\"
  version v2
  effects [io, net]
  examples
    add(1, 2) == 3
  impl
    b + a
";

fn parse(source: &str) -> Vec<Function> {
    parse_source("math.serow", source).0.functions
}

fn strings(v: &[&str]) -> Vec<String> {
    v.iter().map(|s| s.to_string()).collect()
}

#[test]
fn normalized_lines_trim_and_drop_blanks() {
    assert_eq!(normalized_lines(&strings(&["  a ", "", "   ", "b"])), strings(&["a", "b"]));
}

#[test]
fn normalized_properties_group_blocks() {
    let lines = strings(&["forall x: Int:", "  f(x) > 0", "", "forall y: Int:", "g(y)"]);
    assert_eq!(
        normalized_properties(&lines),
        strings(&["forall x: Int:\nf(x) > 0", "forall y: Int:\ng(y)"])
    );
    assert!(normalized_properties(&vec![]).is_empty());
}

#[test]
fn evidence_is_counted() {
    let mut f = parse(BEFORE).remove(0);
    f.properties = strings(&["forall x: Int:", "add(x, 0) == x", "  forall y: Int:", "add(y, 0) == y"]);
    let c = evidence_coverage(&f);
    assert_eq!(c, EvidenceCoverage { requires: 0, ensures: 0, examples: 2, properties: 2 });
}

#[test]
fn surface_changes_are_listed_in_order() {
    let before = parse(BEFORE).remove(0);
    let after = parse(AFTER).remove(0);
    let change = public_behavior_change(&before, &after).expect("changed");
    assert_eq!(change.changed, strings(&["examples", "effects"]));
    assert!(public_behavior_change(&before, &before).is_none());
    let drift = evidence_drift(&PublicBehaviorChange { changed: strings(&["signature", "examples", "effects"]) });
    assert_eq!(drift.expect("drift").changed, strings(&["examples"]));
    assert!(evidence_drift(&PublicBehaviorChange { changed: strings(&["effects"]) }).is_none());
}

#[test]
fn removed_examples_weaken_evidence() {
    let before = parse(BEFORE).remove(0);
    let after = parse(AFTER).remove(0);
    let w = evidence_weakening(&before, &after);
    assert_eq!(w.len(), 1);
    assert_eq!(w[0].kind, "examples");
    assert_eq!((w[0].before, w[0].after), (2, 1));
    assert_eq!(w[0].removed, strings(&["add(0, 0) == 0"]));
    assert!(evidence_weakening(&after, &before).is_empty());
}

#[test]
fn capability_changes_list_added_and_removed() {
    let before = parse(BEFORE).remove(0);
    let after = parse(AFTER).remove(0);
    let c = capability_change(&before, &after).expect("changed");
    assert_eq!(c.before, strings(&["pure"]));
    assert_eq!(c.after, strings(&["io", "net"]));
    assert_eq!(c.added, strings(&["io", "net"]));
    assert!(c.removed.is_empty());
    assert!(capability_change(&before, &before).is_none());
}

#[test]
fn capability_analysis_of_a_pure_function() {
    let (program, _) = parse_source("math.serow", BEFORE);
    let a = capability_analysis(&program.functions[0], &program);
    assert_eq!(a.declared_effects, strings(&["pure"]));
    assert!(a.declared_capabilities.is_empty());
    assert_eq!(a.suggested_effects, "pure");
}

#[test]
fn migrations_no_gate_needs_are_stale() {
    let mut f = parse(BEFORE).remove(0);
    f.migrations = vec![
        MigrationRecord { kind: "impact-review".to_string(), note: "x".to_string() },
        MigrationRecord { kind: "evidence-weakening".to_string(), note: "y".to_string() },
        MigrationRecord { kind: "impact-review".to_string(), note: "z".to_string() },
    ];
    let gates = ActiveGates {
        public_behavior: false,
        capability_expansion: false,
        evidence_weakening: true,
        implementation_change: false,
        impact_review: false,
    };
    let stale = stale_migrations(&f, &gates);
    assert_eq!(stale.len(), 2);
    assert_eq!((stale[0].kind.as_str(), stale[0].index), ("impact-review", 1));
    assert_eq!((stale[1].kind.as_str(), stale[1].index), ("impact-review", 2));
    assert_eq!(
        stale[1].reason,
        "No current unattended gate requires a `impact-review` acknowledgement for this changed symbol."
    );
    let active = active_gates(&None, &None, &None, &vec![], &Some(ImplementationChange { before: String::new(), after: String::new() }), &vec![], &vec![]);
    assert!(active.implementation_change && !active.impact_review);
}

#[test]
fn removed_symbols_are_sorted_with_replacements() {
    let baseline = parse(BEFORE);
    let (program, _) = parse_source("math.serow", AFTER);
    let removed = removed_public_symbols(&program, &baseline);
    assert_eq!(removed.len(), 2);
    assert_eq!(removed[0].function.symbol(), "@core.math.add.v1");
    assert_eq!(removed[0].replacement_candidates.len(), 1);
    assert_eq!(removed[0].replacement_candidates[0].symbol(), "@core.math.add.v2");
    assert_eq!(removed[1].function.symbol(), "@core.math.sub.v1");
    assert!(removed[1].replacement_candidates.is_empty());
}

#[test]
fn the_plan_report_lists_each_symbol() {
    let f = parse(AFTER).remove(0);
    let symbol = ChangedSymbol {
        version_explicit: true,
        migrations: vec![],
        function: f,
        baseline_evidence: None,
        behavior_change: None,
        capability_analysis: CapabilityAnalysis {
            declared_effects: strings(&["io", "net"]),
            declared_capabilities: strings(&["io", "net"]),
            required_by_direct_callees: vec![],
            missing_for_direct_callees: vec![],
            unused_for_direct_callees: vec![],
            suggested_effects: "[io, net]".to_string(),
        },
        capability_change: None,
        evidence: EvidenceCoverage { requires: 0, ensures: 0, examples: 1, properties: 0 },
        evidence_delta: Some(EvidenceDelta { requires: 0, ensures: 0, examples: -1, properties: 2 }),
        evidence_drift: None,
        property_coverage: vec![],
        evidence_weakening: vec![],
        implementation_change: Some(ImplementationChange { before: "a + b".to_string(), after: "b + a".to_string() }),
        implementation_evidence: None,
        intent_implementation_risks: vec![],
        stale_migrations: vec![],
        impact: vec![],
        impact_coverage: vec![],
        semantic_changes: vec![SemanticChange { label: "public_implementation_changed".to_string(), acknowledged: false, details: vec![] }],
        residual_risks: strings(&["No sampled properties cover this symbol."]),
    };
    let plan = ChangePlan {
        ok: false,
        mode: "explicit-paths".to_string(),
        source_paths: strings(&["math.serow"]),
        changed_paths: strings(&["math.serow"]),
        removed_symbols: vec![],
        changed_symbols: vec![symbol],
        diagnostics: vec![],
        summary: CheckSummary { functions: 1, examples: 1, properties: 0, contracts: 0, holes: 0, diagnostics: vec![] },
        residual_risks: strings(&["Changed public symbols weaken executable evidence compared with HEAD."]),
    };
    let expected = "serow plan: needs-review
mode: explicit-paths
changed files: 1
changed symbols: 1
removed public symbols: 0
residual risks:
  Changed public symbols weaken executable evidence compared with HEAD.
@core.math.add.v2
  add(a: Int, b: Int) -> Int
  evidence: 0 requires, 0 ensures, 1 examples, 0 properties
  evidence delta from HEAD: 0 requires, 0 ensures, -1 examples, +2 properties
  direct-call capabilities: declared io, net, required none, suggested [io, net]
  implementation changed:
    before: a + b
    after: b + a
  explicit version: true
  impacted dependents: 0
  impact evidence coverage: 0 covered, 0 uncovered
  risk: No sampled properties cover this symbol.
  semantic changes:
    public_implementation_changed acknowledged=false details=none
";
    assert_eq!(plan_text(&plan), expected);
}
