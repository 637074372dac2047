use serow::checker::check_program;
use serow::diagnostic::{has_errors, Diagnostic};
use serow::ir::{lower_checked_program, IrExpr};
use serow::model::Program;
use serow::parser::parse_source;
use serow::project::Architecture;

const MATH: &str = "module core.math

pub fn add(a: Int, b: Int) -> Int
  intent \"add two integers\"
  version v1
  effects pure
  contract
    ensures result == a + b
  examples
    add(1, 2) == 3
  properties
    forall x: Int, y: Int:
      add(x, y) == add(y, x)
  impl
    a + b

pub fn double(n: Int) -> Int
  intent \"double an integer\"
  version v1
  effects pure
  contract
    ensures result == n * 2
  examples
    double(4) == 8
  properties
    forall k: Int:
      double(k) == k + k
  impl
    add(n, n)
";

fn parsed(source: &str) -> (Program, Vec<Diagnostic>) {
    parse_source("math.serow", source)
}

fn no_near(program: &Program) -> Vec<Option<Diagnostic>> {
    program.functions.iter().map(|_| None).collect()
}

#[test]
fn parse_source_reads_functions_and_sections() {
    let (program, diagnostics) = parsed(MATH);
    assert!(!has_errors(&diagnostics), "{diagnostics:?}");
    assert_eq!(program.modules.len(), 1);
    assert_eq!(program.modules[0].name, "core.math");
    assert_eq!(program.functions.len(), 2);
    let add = &program.functions[0];
    assert_eq!(add.name, "add");
    assert_eq!(add.module, "core.math");
    assert!(add.public);
    assert_eq!(add.version, "v1");
    assert!(add.version_explicit);
    assert_eq!(add.params.len(), 2);
    assert_eq!(add.params[0].name, "a");
    assert_eq!(add.params[0].type_text, "Int");
    assert_eq!(add.return_type, "Int");
    assert_eq!(add.intent.as_deref(), Some("add two integers"));
    assert_eq!(add.contracts, vec!["result == a + b".to_string()]);
    assert_eq!(add.examples, vec!["add(1, 2) == 3".to_string()]);
    assert_eq!(add.example_lines, vec![10]);
    assert_eq!(add.properties.len(), 2);
    assert_eq!(add.effects, vec!["pure".to_string()]);
    assert_eq!(add.implementation.as_deref(), Some("a + b"));
    assert_eq!(add.symbol(), "@core.math.add.v1");
    assert_eq!(add.target(), "math.serow:3:add");
}

#[test]
fn check_program_accepts_a_clean_program() {
    let (program, diagnostics) = parsed(MATH);
    let near = no_near(&program);
    let summary = check_program(&program, diagnostics, &Architecture::default(), near);
    assert!(summary.ok(), "{:?}", summary.diagnostics);
    assert_eq!(summary.functions, 2);
    assert_eq!(summary.examples, 2);
    assert_eq!(summary.properties, 2);
    assert_eq!(summary.holes, 0);
}

#[test]
fn check_program_keeps_parse_diagnostics_first() {
    let (program, _) = parsed(MATH);
    let parse = vec![Diagnostic::warning("SyntheticParseNote", "A note from parsing.", None)];
    let near = no_near(&program);
    let summary = check_program(&program, parse, &Architecture::default(), near);
    assert!(!summary.diagnostics.is_empty());
    assert_eq!(summary.diagnostics[0].code, "SyntheticParseNote");
}

#[test]
fn lower_checked_program_emits_ir() {
    let (program, diagnostics) = parsed(MATH);
    let near = no_near(&program);
    let summary = lower_checked_program(&program, diagnostics, &Architecture::default(), near);
    assert!(summary.ok(), "{:?}", summary.diagnostics);
    let ir = summary.ir.expect("ir");
    assert_eq!(ir.version, "serow.ir.v0");
    assert_eq!(ir.functions.len(), 2);
    let add = &ir.functions[0];
    assert_eq!(add.symbol, "@core.math.add.v1");
    assert_eq!(add.ensures.len(), 1);
    assert_eq!(add.examples.len(), 1);
    assert_eq!(add.example_lines, vec![10]);
    assert_eq!(add.properties.len(), 1);
    assert_eq!(add.properties[0].index, 1);
    assert_eq!(add.properties[0].variables.len(), 2);
    assert_eq!(add.properties[0].variables[1].name, "y");
    match &add.body {
        IrExpr::Binary { left, right, .. } => {
            assert!(matches!(**left, IrExpr::Var(ref n) if n == "a"));
            assert!(matches!(**right, IrExpr::Var(ref n) if n == "b"));
        }
        other => panic!("unexpected body {other:?}"),
    }
    let double = &ir.functions[1];
    match &double.body {
        IrExpr::Call { reference, target, args } => {
            assert_eq!(reference, "add");
            assert_eq!(target, "@core.math.add.v1");
            assert_eq!(args.len(), 2);
        }
        other => panic!("unexpected body {other:?}"),
    }
}

#[test]
fn lower_checked_program_reports_unresolved_calls() {
    let source = MATH.replace("    add(n, n)", "    missing(n)");
    let (program, diagnostics) = parsed(&source);
    let near = no_near(&program);
    let summary = lower_checked_program(&program, diagnostics, &Architecture::default(), near);
    assert!(!summary.ok());
    assert!(summary.ir.is_none());
}

#[test]
fn lower_checked_program_stops_after_check_errors() {
    let (program, _) = parsed(MATH);
    let parse = vec![Diagnostic::error("SyntheticParseError", "Broken.", None)];
    let near = no_near(&program);
    let summary = lower_checked_program(&program, parse, &Architecture::default(), near);
    assert!(summary.ir.is_none());
    assert_eq!(summary.diagnostics.len(), summary.check_summary.diagnostics.len());
}
