use serow::changes::semantic_changes;
use serow::changeset::{changed_symbol, plan_of};
use serow::diagnostic::Severity;
use serow::duplicates::near_duplicate_warning;
use serow::model::{Function, MigrationRecord, Program};
use serow::parser::parse_source;
use serow::plan::{
    capability_analysis, CapabilityChange, PublicBehaviorChange, SemanticChange, StaleMigration,
};
use serow::project::Architecture;

const CURRENT: &str = "module core.math

pub fn add(a: Int, b: Int) -> Int
  intent \"add two integers\"
  version v1
  effects pure
  impl
    a - b

pub fn twice(a: Int) -> Int
  intent \"double an integer\"
  version v1
  effects pure
  impl
    add(a, a)
";

const HEAD: &str = "module core.math

pub fn add(a: Int, b: Int) -> Int
  intent \"add two integers\"
  version v1
  effects pure
  impl
    a + b

pub fn twice(a: Int) -> Int
  intent \"double an integer\"
  version v1
  effects pure
  impl
    add(a, a)

pub fn gone(a: Int) -> Int
  intent \"an old helper\"
  version v1
  effects pure
  impl
    a
";

fn program_of(source: &str) -> Program {
    let mut program = Program::new();
    let (parsed, diagnostics) = parse_source("math.serow", source);
    assert!(diagnostics.iter().all(|d| d.severity != Severity::Error));
    for module in parsed.modules {
        program.add_module(&module.name, &module.source_path);
        for function in module.functions {
            program.add_function(function);
        }
    }
    program
}

fn baseline() -> Vec<Function> {
    parse_source("math.serow", HEAD).0.functions
}

fn labels(changes: &[SemanticChange]) -> Vec<String> {
    changes.iter().map(|c| c.label.clone()).collect()
}

#[test]
fn semantic_changes_sort_details_and_follow_acknowledgements() {
    let program = program_of(CURRENT);
    let mut f = program.functions[0].clone();
    f.version_explicit = false;
    f.migrations.push(MigrationRecord { kind: "capability-expansion".to_string(), note: "needed".to_string() });
    let behavior = Some(PublicBehaviorChange {
        changed: vec!["requires".to_string(), "examples".to_string(), "requires".to_string()],
    });
    let capability = capability_analysis(&f, &program);
    let capability_change = Some(CapabilityChange {
        before: vec![],
        after: vec!["fs".to_string()],
        added: vec!["fs".to_string()],
        removed: vec![],
    });
    let stale = vec![StaleMigration {
        kind: "impact-review".to_string(),
        index: 1,
        note: "old".to_string(),
        reason: String::new(),
    }];
    let changes = semantic_changes(
        &f,
        &behavior,
        &capability,
        &capability_change,
        &None,
        &vec![],
        &None,
        &None,
        &vec!["risk b".to_string(), "risk a".to_string()],
        &stale,
        &vec![],
        &vec![],
    );
    assert_eq!(
        labels(&changes),
        vec![
            "implicit_public_version",
            "public_contract_surface_changed",
            "capability_expanded",
            "intent_implementation_mismatch_risk",
            "stale_migration_acknowledgement",
        ]
    );
    assert_eq!(changes[0].details, vec!["version defaults to v1"]);
    assert!(!changes[0].acknowledged);
    assert_eq!(changes[1].details, vec!["examples", "requires"]);
    assert!(!changes[1].acknowledged);
    assert!(changes[2].acknowledged);
    assert_eq!(changes[3].details, vec!["risk a", "risk b"]);
    assert_eq!(changes[4].details, vec!["impact-review#1"]);
}

#[test]
fn changed_symbol_reports_an_implementation_change_and_its_risks() {
    let program = program_of(CURRENT);
    let s = changed_symbol(&program.functions[0], &program, &baseline());
    let change = s.implementation_change.clone().expect("implementation changed");
    assert_eq!(change.before, "a + b");
    assert_eq!(change.after, "a - b");
    assert!(s.implementation_evidence.is_some());
    assert!(s.behavior_change.is_none());
    assert_eq!(s.evidence_delta.as_ref().map(|d| d.examples), Some(0));
    assert_eq!(
        s.intent_implementation_risks,
        vec!["Intent/name indicates addition; implementation uses subtraction but not `+` or call a helper whose name/intent indicates addition."]
    );
    assert!(labels(&s.semantic_changes).contains(&"public_implementation_changed".to_string()));
    assert!(s
        .residual_risks
        .contains(&"Implementation changed compared with HEAD without added executable evidence.".to_string()));
    assert_eq!(s.impact.len(), 1);
    assert_eq!(s.impact_coverage.len(), 1);
    assert!(!s.impact_coverage[0].covered);
    assert_eq!(
        s.impact_coverage[0].reason,
        "No executable example or sampled property in `@core.math.twice.v1` exercises the call edge to `@core.math.add.v1`."
    );
}

#[test]
fn changed_symbol_ignores_a_change_of_spelling_only() {
    let program = program_of(&HEAD.replace("    a + b", "    a+b"));
    let s = changed_symbol(&program.functions[0], &program, &baseline());
    assert!(s.implementation_change.is_none());
    assert!(s.implementation_evidence.is_none());
    assert!(s.intent_implementation_risks.is_empty());
}

#[test]
fn changed_symbol_without_baseline_has_no_comparison() {
    let program = program_of(CURRENT);
    let s = changed_symbol(&program.functions[1], &program, &vec![]);
    assert!(s.baseline_evidence.is_none());
    assert!(s.evidence_delta.is_none());
    assert!(s.implementation_change.is_none());
    assert_eq!(s.residual_risks[0], "No executable examples cover this symbol.");
}

#[test]
fn plan_of_compares_the_changed_files_and_lists_removed_symbols() {
    let program = program_of(CURRENT);
    let near = vec![None; program.functions.len()];
    let plan = plan_of(
        &program,
        vec![],
        &Architecture { modules: Vec::new() },
        near,
        vec!["math.serow".to_string()],
        vec!["math.serow".to_string()],
        &baseline(),
        true,
    );
    assert_eq!(plan.mode, "explicit-paths");
    assert_eq!(plan.changed_symbols.len(), 2);
    assert_eq!(plan.changed_symbols[0].function.name, "add");
    assert_eq!(plan.changed_symbols[1].function.name, "twice");
    assert_eq!(plan.removed_symbols.len(), 1);
    assert_eq!(plan.removed_symbols[0].function.name, "gone");
    assert!(!plan.ok);
    assert!(plan
        .residual_risks
        .contains(&"Changed files remove public symbols without a same-name replacement version.".to_string()));
}

#[test]
fn plan_of_skips_functions_outside_the_changed_paths() {
    let program = program_of(CURRENT);
    let near = vec![None; program.functions.len()];
    let plan = plan_of(
        &program,
        vec![],
        &Architecture { modules: Vec::new() },
        near,
        vec!["other.serow".to_string()],
        vec!["math.serow".to_string()],
        &baseline(),
        false,
    );
    assert_eq!(plan.mode, "git-status");
    assert!(plan.changed_symbols.is_empty());
}

#[test]
fn near_duplicate_warning_names_the_candidate() {
    let mut program = program_of(CURRENT);
    program.functions[1].intent = Some("add two whole integers".to_string());
    let d = near_duplicate_warning(&program, 1, 0, "0.900", "integers, two").expect("a warning");
    assert_eq!(d.code, "NearDuplicateIntent");
    assert_eq!(d.message, "Public function `twice` has an intent similar to `@core.math.add.v1`.");
    assert_eq!(d.data[0], ("candidate".to_string(), "@core.math.add.v1".to_string()));
    assert_eq!(d.data[4], ("score".to_string(), "0.900".to_string()));
    assert_eq!(d.data[5], ("reasons".to_string(), "integers, two".to_string()));
    assert_eq!(d.target.as_deref(), Some("math.serow:10:twice"));
}

#[test]
fn near_duplicate_warning_against_an_intrinsic_or_nothing() {
    let program = program_of(CURRENT);
    let d = near_duplicate_warning(&program, 1, 1, "0.800", "text").expect("intrinsic candidate");
    assert_eq!(d.message, "Public function `twice` has an intent similar to `@serow.intrinsic.print.v1`.");
    assert!(near_duplicate_warning(&program, 1, 9, "0.800", "text").is_none());
    let mut same = program.clone();
    same.functions[1].intent = same.functions[0].intent.clone();
    assert!(near_duplicate_warning(&same, 1, 0, "1.000", "add").is_none());
}

#[test]
fn a_symbol_parses_back_and_resolves_to_its_function() {
    let program = program_of(CURRENT);
    let f = &program.functions[0];
    let r = serow::eval::CallReference::parse(&f.symbol());
    assert_eq!(r.raw, "@core.math.add.v1");
    assert_eq!(r.module.as_deref(), Some("core.math"));
    assert_eq!(r.name, "add");
    assert_eq!(r.version.as_deref(), Some("v1"));
    let g = serow::eval::resolve_function(&f.symbol(), &program.functions).expect("resolves");
    assert_eq!(g.symbol(), f.symbol());
    assert_eq!(g.line, f.line);
}

#[test]
fn unattended_repairs_all_pass_the_repair_action_check() {
    let mut program = program_of(CURRENT);
    program.functions[0].version_explicit = false;
    program.functions[1].version_explicit = false;
    let mut summary = serow::checker::CheckSummary::default();
    serow::checker::enforce_unattended_profile(&program, &mut summary);
    assert_eq!(summary.diagnostics.len(), 2);
    assert_eq!(summary.diagnostics[0].code, "MissingExplicitVersion");
    assert!(serow::diagnostic::validate_repair_actions(&summary.diagnostics).is_empty());
}

#[test]
fn added_evidence_that_fails_against_head_explains_the_change() {
    let source = CURRENT.replace(
        "  impl\n    a - b\n",
        "  examples\n    add(3, 1) == 2\n  properties\n    forall x: Int:\n      add(x, 0) == x\n  impl\n    a - b\n",
    );
    let program = program_of(&source);
    let s = changed_symbol(&program.functions[0], &program, &baseline());
    let coverage = s.implementation_evidence.clone().expect("implementation evidence");
    assert_eq!(coverage.added_examples, vec!["add(3, 1) == 2"]);
    assert!(coverage.covered);
    assert!(coverage.behavior_sensitive);
    assert_eq!(coverage.sensitivity.len(), 1);
    assert_eq!(coverage.sensitivity[0].context, "example");
    assert_eq!(
        coverage.sensitivity_reason,
        "Added executable evidence fails against the HEAD implementation of `@core.math.add.v1`."
    );
    assert_eq!(s.property_coverage.len(), 1);
    assert_eq!(s.property_coverage[0].property_index, 1);
    assert_eq!(s.property_coverage[0].variables, vec!["x: Int"]);
    assert_eq!(s.property_coverage[0].sample_count, 5);
    assert!(s.property_coverage[0].direct_call);
    assert!(!s.property_coverage[0].vacuous);
    assert!(s
        .residual_risks
        .contains(&"Implementation changed compared with HEAD; verify the added executable evidence explains the change.".to_string()));
}
