use serow::diagnostic::Diagnostic;
use serow::ledger::{
    exact_intent_key, intent_terms, query_callees, query_dependents, query_effects, symbols,
};
use serow::model::Program;
use serow::parser::parse_source;

const SOURCE: &str = "module app.main

pub fn greet(name: Text) -> Unit
  intent \"print a greeting\"
  version v1
  effects [io]
  contract
    ensures true
  examples
    true
  impl
    print(name)

pub fn twice(name: Text) -> Unit
  intent \"greet twice\"
  version v1
  effects [io]
  contract
    ensures true
  examples
    true
  impl
    greet(name); greet(name)

pub fn quiet(name: Text) -> Unit
  intent \"greet quietly\"
  version v1
  effects [io, network]
  contract
    ensures true
  examples
    true
  impl
    greet(name)
";

fn program() -> Program {
    let (program, diagnostics): (Program, Vec<Diagnostic>) = parse_source("app.serow", SOURCE);
    assert!(diagnostics.is_empty(), "{diagnostics:?}");
    program
}

#[test]
fn intent_key_lowercases_and_joins_words() {
    assert_eq!(exact_intent_key("  Add, two   INTEGERS! "), "add two integers");
    assert_eq!(exact_intent_key("---"), "");
}

#[test]
fn intent_key_is_idempotent_on_an_example() {
    let once = exact_intent_key("Sum of Two numbers");
    assert_eq!(exact_intent_key(&once), once);
}

#[test]
fn intent_terms_are_sorted_and_distinct() {
    let terms = intent_terms("add the two numbers and add them");
    let mut sorted = terms.clone();
    sorted.sort();
    sorted.dedup();
    assert_eq!(terms, sorted);
    assert!(terms.iter().any(|t| t == "add"));
}

#[test]
fn symbols_lists_functions_sorted() {
    let program = program();
    let listed: Vec<String> = symbols(&program).iter().map(|m| m.symbol()).collect();
    let mut sorted = listed.clone();
    sorted.sort();
    assert_eq!(listed, sorted);
    assert!(listed.contains(&"@app.main.greet.v1".to_string()));
}

#[test]
fn callees_of_twice_are_greet_once() {
    let program = program();
    let callees = query_callees(&program, "twice");
    assert_eq!(callees.len(), 1);
    assert_eq!(callees[0].function.name, "twice");
    assert_eq!(callees[0].target.name, "greet");
    assert_eq!(callees[0].call_sites.len(), 1);
    assert_eq!(callees[0].call_sites[0].context, "impl");
}

#[test]
fn callees_of_unknown_function_are_empty() {
    let program = program();
    assert!(query_callees(&program, "nobody").is_empty());
}

#[test]
fn callees_of_greet_include_the_print_intrinsic() {
    let program = program();
    let callees = query_callees(&program, "@app.main.greet.v1");
    assert_eq!(callees.len(), 1);
    assert_eq!(callees[0].target.name, "print");
}

#[test]
fn dependents_of_greet_are_sorted_by_caller() {
    let program = program();
    let dependents = query_dependents(&program, "greet");
    let callers: Vec<String> = dependents.iter().map(|d| d.function.symbol()).collect();
    assert_eq!(
        callers,
        vec!["@app.main.quiet.v1".to_string(), "@app.main.twice.v1".to_string()]
    );
}

#[test]
fn effects_of_quiet_report_the_unused_capability() {
    let program = program();
    let rows = query_effects(&program, "quiet");
    assert_eq!(rows.len(), 1);
    let row = &rows[0];
    assert_eq!(row.declared_capabilities, vec!["io".to_string(), "network".to_string()]);
    assert_eq!(row.required_by_direct_callees, vec!["io".to_string()]);
    assert!(row.missing_for_direct_callees.is_empty());
    assert_eq!(row.unused_for_direct_callees, vec!["network".to_string()]);
    assert_eq!(row.suggested_effects, "[io]");
    assert_eq!(row.callees.len(), 1);
    assert_eq!(row.callees[0].function.name, "greet");
    assert_eq!(row.callees[0].declared_capabilities, vec!["io".to_string()]);
}

#[test]
fn effects_of_an_intrinsic_can_be_queried() {
    let program = program();
    let rows = query_effects(&program, "print");
    assert_eq!(rows.len(), 1);
    assert_eq!(rows[0].declared_effects, vec!["io".to_string()]);
    assert_eq!(rows[0].suggested_effects, "[io]");
    assert!(rows[0].callees.is_empty());
}
