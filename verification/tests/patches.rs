use serow::diagnostic::{has_errors, Diagnostic};
use serow::model::Program;
use serow::parser::parse_source;
use serow::patch::{
    add_contract, add_example, add_migration, add_property, remove_example, set_effects,
    set_impl, set_intent,
};

const SOURCE: &str = "module core.math

pub fn add(a: Int, b: Int) -> Int
  intent \"add two integers\"
  version v1
  effects pure
  contract
    ensures result == a + b
  examples
    add(1, 2) == 3
  impl
    a + b

pub fn sub(a: Int, b: Int) -> Int
  intent \"subtract two integers\"
  version v1
  effects pure
  contract
    ensures result == a - b
  examples
    sub(3, 2) == 1
  impl
    a - b
";

fn parsed() -> (Program, Vec<Diagnostic>) {
    parse_source("math.serow", SOURCE)
}

fn reparse(text: &str) -> Program {
    let (program, diagnostics) = parse_source("math.serow", text);
    assert!(!has_errors(&diagnostics), "{diagnostics:?}");
    program
}

#[test]
fn add_example_appends_and_rewrites_the_source() {
    let (program, diagnostics) = parsed();
    let (summary, text) = add_example(program, diagnostics, "math.serow", "add", "add(2, 2) == 4");
    assert!(summary.ok());
    assert_eq!(summary.changed, 1);
    let program = reparse(&text.expect("new source"));
    assert_eq!(
        program.functions[0].examples,
        vec!["add(1, 2) == 3".to_string(), "add(2, 2) == 4".to_string()]
    );
    assert_eq!(program.functions[1].examples, vec!["sub(3, 2) == 1".to_string()]);
}

#[test]
fn add_example_refuses_an_empty_expression() {
    let (program, diagnostics) = parsed();
    let (summary, text) = add_example(program, diagnostics, "math.serow", "add", "   ");
    assert!(!summary.ok());
    assert!(text.is_none());
    assert_eq!(summary.changed, 0);
    assert_eq!(summary.diagnostics.len(), 1);
    assert_eq!(summary.diagnostics[0].code, "InvalidPatchTarget");
}

#[test]
fn add_example_reports_an_unknown_target() {
    let (program, diagnostics) = parsed();
    let (summary, text) = add_example(program, diagnostics, "math.serow", "mul", "true");
    assert!(text.is_none());
    assert_eq!(summary.diagnostics.last().map(|d| d.code.as_str()), Some("PatchTargetNotFound"));
}

#[test]
fn add_then_remove_example_restores_the_examples() {
    let (program, diagnostics) = parsed();
    let (_, text) = add_example(program, diagnostics, "math.serow", "add", "add(2, 2) == 4");
    let text = text.expect("added");
    let (program, diagnostics) = parse_source("math.serow", &text);
    let (summary, text) = remove_example(program, diagnostics, "math.serow", "add", 2);
    assert!(summary.ok());
    let program = reparse(&text.expect("removed"));
    assert_eq!(program.functions[0].examples, vec!["add(1, 2) == 3".to_string()]);
}

#[test]
fn remove_example_out_of_range_is_a_conflict() {
    let (program, diagnostics) = parsed();
    let (summary, text) = remove_example(program, diagnostics, "math.serow", "add", 5);
    assert!(text.is_none());
    let last = summary.diagnostics.last().expect("diagnostic");
    assert_eq!(last.code, "PatchConflict");
    assert_eq!(last.message, "Function `add` has no example at index 5.");
}

#[test]
fn add_contract_adds_a_precondition() {
    let (program, diagnostics) = parsed();
    let (summary, text) =
        add_contract(program, diagnostics, "math.serow", "sub", "requires", "a >= b");
    assert!(summary.ok(), "{:?}", summary.diagnostics);
    let program = reparse(&text.expect("new source"));
    assert_eq!(program.functions[1].requires, vec!["a >= b".to_string()]);
}

#[test]
fn set_intent_rejects_a_duplicate_intent() {
    let (program, diagnostics) = parsed();
    let (summary, text) =
        set_intent(program, diagnostics, "math.serow", "sub", "Add two INTEGERS");
    assert!(text.is_none());
    let last = summary.diagnostics.last().expect("diagnostic");
    assert_eq!(last.code, "PossibleDuplicate");
}

#[test]
fn set_intent_with_the_same_text_changes_nothing() {
    let (program, diagnostics) = parsed();
    let (summary, text) =
        set_intent(program, diagnostics, "math.serow", "add", "add two integers");
    assert!(summary.ok());
    assert_eq!(summary.changed, 0);
    assert!(text.is_none());
}

#[test]
fn set_impl_replaces_the_implementation() {
    let (program, diagnostics) = parsed();
    let (summary, text) = set_impl(program, diagnostics, "math.serow", "sub", "a + (0 - b)");
    assert!(summary.ok(), "{:?}", summary.diagnostics);
    let program = reparse(&text.expect("new source"));
    assert_eq!(program.functions[1].implementation.as_deref(), Some("a + (0 - b)"));
}

#[test]
fn set_effects_rejects_a_malformed_declaration() {
    let (program, diagnostics) = parsed();
    let (summary, text) = set_effects(program, diagnostics, "math.serow", "add", "io");
    assert!(text.is_none());
    assert_eq!(summary.diagnostics.last().map(|d| d.code.as_str()), Some("InvalidPatchTarget"));
}

#[test]
fn set_effects_writes_a_capability_list() {
    let (program, diagnostics) = parsed();
    let (summary, text) = set_effects(program, diagnostics, "math.serow", "add", "[io]");
    assert!(summary.ok(), "{:?}", summary.diagnostics);
    let program = reparse(&text.expect("new source"));
    assert_eq!(program.functions[0].effects, vec!["io".to_string()]);
}

#[test]
fn add_property_adds_a_block() {
    let (program, diagnostics) = parsed();
    let (summary, text) = add_property(
        program,
        diagnostics,
        "math.serow",
        "add",
        "forall x: Int:",
        "add(x, 0) == x",
    );
    assert!(summary.ok(), "{:?}", summary.diagnostics);
    let program = reparse(&text.expect("new source"));
    assert_eq!(program.functions[0].properties.len(), 2);
}

#[test]
fn add_migration_rejects_an_unknown_kind() {
    let (program, diagnostics) = parsed();
    let (summary, text) =
        add_migration(program, diagnostics, "math.serow", "add", "rewrite", "note");
    assert!(text.is_none());
    assert!(!summary.ok());
}
