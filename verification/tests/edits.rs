use serow::checker::{check_program, enforce_unattended_profile, CheckSummary};
use serow::plan::RemovedPublicSymbol;
use serow::diagnostic::{has_errors, validate_repair_actions, Diagnostic};
use serow::eval::CallReference;
use serow::project::Architecture;
use serow::edits::{
    add_function, add_module, add_type, add_use, remove_function, remove_type, remove_use, set_use,
};
use serow::formatter::format_program;
use serow::model::{ModuleDependency, Program};
use serow::parser::parse_source;

const SOURCE: &str = "module core.math

use core.text

type Point = { x: Int, y: Int }
type Shade = Light | Dark

pub fn add(a: Int, b: Int) -> Int
  intent \"add two integers\"
  version v1
  effects pure
  contract
    ensures result == a + b
  examples
    add(1, 2) == 3
  impl
    a + b
";

fn parsed() -> (Program, Vec<Diagnostic>) {
    parse_source("math.serow", SOURCE)
}

fn reparse(text: &str) -> Program {
    let (program, diagnostics) = parse_source("math.serow", text);
    assert!(!has_errors(&diagnostics), "{diagnostics:?}");
    program
}

#[test]
fn format_keeps_record_and_enum_types() {
    let (program, diagnostics) = parsed();
    assert!(!has_errors(&diagnostics));
    let text = format_program(&program);
    assert!(text.contains("type Point = { x: Int, y: Int }\n"), "{text}");
    assert!(text.contains("type Shade = Light | Dark\n"), "{text}");
    let again = reparse(&text);
    assert_eq!(again.modules[0].types.len(), 2);
    assert_eq!(again.modules[0].types[0].name, "Point");
    assert_eq!(again.modules[0].types[0].fields.len(), 2);
    assert_eq!(again.modules[0].types[1].variants, vec!["Light".to_string(), "Dark".to_string()]);
    assert_eq!(format_program(&again), text);
}

#[test]
fn remove_migration_repair_is_an_accepted_action() {
    let d = Diagnostic::error("StaleMigrationAcknowledgement", "m", None).with_command_repair(
        "Remove stale migration acknowledgement",
        vec![
            "bin/serow".to_string(),
            "patch".to_string(),
            "remove-migration".to_string(),
            "a.serow".to_string(),
            "@m.f.v1".to_string(),
            "impact-review".to_string(),
            "1".to_string(),
        ],
    );
    assert!(validate_repair_actions(&[d]).is_empty());
}

#[test]
fn add_function_appends_a_v1_function_with_a_hole() {
    let (program, diagnostics) = parsed();
    let (summary, text) = add_function(
        program,
        diagnostics,
        "math.serow",
        "core.math",
        "scale(n: Int, k: Int) -> Int",
        "  multiply a number by a factor  ",
    );
    assert!(summary.ok());
    assert_eq!(summary.changed, 1);
    let program = reparse(&text.expect("new source"));
    let f = &program.functions[1];
    assert_eq!(f.symbol(), "@core.math.scale.v1");
    assert_eq!(f.intent.as_deref(), Some("multiply a number by a factor"));
    assert_eq!(f.effects, vec!["pure".to_string()]);
    assert_eq!(f.implementation.as_deref(), Some("HOLE(Int)"));
    assert_eq!(f.params.len(), 2);
}

#[test]
fn add_function_refuses_an_existing_symbol() {
    let (program, diagnostics) = parsed();
    let (summary, text) =
        add_function(program, diagnostics, "math.serow", "core.math", "add(x: Int) -> Int", "sum");
    assert!(text.is_none());
    let d = summary.diagnostics.last().unwrap();
    assert_eq!(d.code, "PatchConflict");
    assert_eq!(d.message, "Public symbol `@core.math.add.v1` already exists.");
    assert_eq!(d.repairs, vec!["Choose a different name or add a new explicit version manually.".to_string()]);
}

#[test]
fn add_function_refuses_a_duplicate_intent() {
    let (program, diagnostics) = parsed();
    let (summary, text) = add_function(
        program,
        diagnostics,
        "math.serow",
        "core.math",
        "plus(x: Int, y: Int) -> Int",
        "Add two integers.",
    );
    assert!(text.is_none());
    let d = summary.diagnostics.last().unwrap();
    assert_eq!(d.code, "PossibleDuplicate");
    assert_eq!(d.message, "New public function `plus` has the same intent as `@core.math.add.v1`.");
    assert_eq!(d.repair_actions[0].command[1], "query");
}

#[test]
fn add_function_refuses_bad_inputs() {
    let (program, diagnostics) = parsed();
    let (summary, _) = add_function(program, diagnostics, "math.serow", "core.", "f() -> Int", "x");
    assert_eq!(summary.diagnostics[0].message, "Invalid module name `core.`.");
    let (program, diagnostics) = parsed();
    let (summary, _) = add_function(program, diagnostics, "math.serow", "core.math", "f() -> Int", "  ");
    assert_eq!(summary.diagnostics[0].message, "Function intent must not be empty.");
    let (program, diagnostics) = parsed();
    let (summary, _) = add_function(program, diagnostics, "math.serow", "core.math", "f(", "x");
    assert_eq!(summary.diagnostics[0].message, "Invalid function signature `f(`.");
    let (program, diagnostics) = parsed();
    let (summary, _) = add_function(program, diagnostics, "math.serow", "core.gone", "f() -> Int", "x");
    assert_eq!(summary.diagnostics.last().unwrap().code, "PatchTargetNotFound");
}

#[test]
fn add_module_appends_once() {
    let (program, diagnostics) = parsed();
    let (summary, text) = add_module(program, diagnostics, "math.serow", " core.extra ");
    assert_eq!(summary.changed, 1);
    let program = reparse(&text.expect("new source"));
    assert_eq!(program.modules.len(), 2);
    assert_eq!(program.modules[1].name, "core.extra");
    let (summary, text) = add_module(program.clone(), Vec::new(), "math.serow", "core.extra");
    assert_eq!(summary.changed, 0);
    assert!(text.is_none());
    let (summary, _) = add_module(program, Vec::new(), "math.txt", "core.more");
    assert_eq!(summary.diagnostics[0].message, "Patch path `math.txt` must end in `.serow`.");
}

#[test]
fn use_lines_are_added_replaced_and_removed() {
    let (program, diagnostics) = parsed();
    let (summary, text) = add_use(program, diagnostics, "math.serow", "core.math", "core.list");
    assert_eq!(summary.changed, 1);
    let program = reparse(&text.unwrap());
    let names: Vec<&str> = program.modules[0].dependencies.iter().map(|d| d.module.as_str()).collect();
    assert_eq!(names, vec!["core.text", "core.list"]);
    let (summary, text) = set_use(program, Vec::new(), "math.serow", "core.math", "core.text", "core.io");
    assert_eq!(summary.changed, 1);
    let program = reparse(&text.unwrap());
    let (summary, text) = remove_use(program.clone(), Vec::new(), "math.serow", "core.math", "core.io");
    assert_eq!(summary.changed, 1);
    let after = reparse(&text.unwrap());
    assert_eq!(after.modules[0].dependencies.len(), 1);
    let (summary, _) = remove_use(program, Vec::new(), "math.serow", "core.math", "core.nothing");
    let d = summary.diagnostics.last().unwrap();
    assert_eq!(d.message, "Module `core.math` does not declare `use core.nothing`.");
    assert_eq!(d.data, vec![("dependencies".to_string(), "core.io, core.list".to_string())]);
}

#[test]
fn set_use_refuses_a_declared_dependency() {
    let (program, diagnostics) = parsed();
    let (program, _) = {
        let (s, t) = add_use(program, diagnostics, "math.serow", "core.math", "core.list");
        assert_eq!(s.changed, 1);
        (reparse(&t.unwrap()), ())
    };
    let (summary, _) = set_use(program, Vec::new(), "math.serow", "core.math", "core.text", "core.list");
    assert_eq!(summary.diagnostics.last().unwrap().message, "Module `core.math` already declares `use core.list`.");
}

#[test]
fn types_are_added_and_removed() {
    let (program, diagnostics) = parsed();
    let (summary, text) = add_type(program, diagnostics, "math.serow", "core.math", "type Size = { w: Int, h: Int }");
    assert_eq!(summary.changed, 1);
    let program = reparse(&text.unwrap());
    assert_eq!(program.types.len(), 3);
    assert_eq!(program.types[2].name, "Size");
    let (summary, _) = add_type(program.clone(), Vec::new(), "math.serow", "core.math", "Point = {}");
    assert_eq!(summary.diagnostics.last().unwrap().message, "Type declaration `Point` already exists.");
    let (summary, _) = add_type(program.clone(), Vec::new(), "math.serow", "core.math", "Bad = { a: Int, a: Int }");
    assert_eq!(summary.diagnostics[0].code, "InvalidPatchTarget");
    let (summary, text) = remove_type(program, Vec::new(), "math.serow", "core.math", "Point");
    assert_eq!(summary.changed, 1);
    let program = reparse(&text.unwrap());
    assert!(program.types.iter().all(|t| t.name != "Point"));
}

#[test]
fn remove_function_drops_it_from_the_source() {
    let (program, diagnostics) = parsed();
    let (summary, text) = remove_function(program, diagnostics, "math.serow", "add");
    assert_eq!(summary.changed, 1);
    let program = reparse(&text.unwrap());
    assert!(program.functions.is_empty());
    let (summary, _) = remove_function(program, Vec::new(), "math.serow", "add");
    assert_eq!(summary.diagnostics.last().unwrap().code, "PatchTargetNotFound");
}

#[test]
fn qualified_references_are_those_with_a_module_or_at_sign() {
    assert!(!CallReference::parse("add").is_qualified());
    assert!(CallReference::parse("@add").is_qualified());
    assert!(CallReference::parse("math.add").is_qualified());
    assert!(CallReference::parse("@core.math.add.v1").is_qualified());
}

#[test]
fn effect_violation_carries_the_set_effects_repair() {
    let source = "module app

pub fn show(x: Int) -> Int
  intent \"show a number\"
  effects [io]
  contract
    ensures result == x
  examples
    show(1) == 1
  properties
    forall x: Int:
      show(x) == x
  impl
    x

pub fn run(x: Int) -> Int
  intent \"run the program\"
  effects pure
  contract
    ensures result == x
  examples
    run(1) == 1
  properties
    forall x: Int:
      run(x) == x
  impl
    show(x)
";
    let (program, diagnostics) = parse_source("app.serow", source);
    assert!(!has_errors(&diagnostics), "{diagnostics:?}");
    let near = vec![None; program.functions.len()];
    let summary = check_program(&program, diagnostics, &Architecture::default(), near);
    let d = summary
        .diagnostics
        .iter()
        .find(|d| d.code == "EffectViolation")
        .expect("effect violation");
    assert_eq!(
        d.repair_actions[0].command,
        vec!["bin/serow", "patch", "set-effects", "app.serow", "@app.run.v1", "[io]"]
            .into_iter()
            .map(String::from)
            .collect::<Vec<_>>()
    );
}

#[test]
fn query_symbol_ranks_exact_names_first() {
    let (program, diagnostics) = parsed();
    assert!(!has_errors(&diagnostics));
    let matches = serow::lookup::query_symbol(&program, " ADD ", 20);
    assert_eq!(matches[0].symbol.symbol(), "@core.math.add.v1");
    assert_eq!(matches[0].score_tenths, 15);
    assert_eq!(matches[0].reasons, vec!["exact-name".to_string(), "symbol".to_string()]);
    let shade = serow::lookup::query_symbol(&program, "dark", 20);
    assert_eq!(shade.len(), 1);
    assert_eq!(shade[0].symbol.symbol(), "@core.math.Shade");
    assert_eq!(shade[0].score_tenths, 7);
    assert!(serow::lookup::query_symbol(&program, "   ", 20).is_empty());
    let limited = serow::lookup::query_symbol(&program, "core", 1);
    assert_eq!(limited.len(), 1);
}

#[test]
fn build_plan_reports_residual_risks_and_mode() {
    let (program, _) = parsed();
    let removed = vec![RemovedPublicSymbol {
        function: program.functions[0].clone(),
        replacement_candidates: Vec::new(),
    }];
    let summary = CheckSummary {
        functions: 1,
        examples: 0,
        properties: 0,
        contracts: 0,
        holes: 0,
        diagnostics: vec![Diagnostic::error("ParseError", "bad", None)],
    };
    let plan = serow::planning::build_plan(
        summary,
        Vec::new(),
        removed,
        vec!["math.serow".to_string()],
        vec!["math.serow".to_string()],
        true,
    );
    assert!(!plan.ok);
    assert_eq!(plan.mode, "explicit-paths");
    assert_eq!(
        plan.residual_risks,
        vec![
            "Checker errors are present; impact and evidence data may be incomplete.".to_string(),
            "Changed files remove public symbols without a same-name replacement version.".to_string(),
        ]
    );
    let clean = serow::planning::build_plan(
        CheckSummary { functions: 0, examples: 0, properties: 0, contracts: 0, holes: 0, diagnostics: Vec::new() },
        Vec::new(),
        Vec::new(),
        Vec::new(),
        Vec::new(),
        false,
    );
    assert!(clean.ok);
    assert_eq!(clean.mode, "git-status");
    assert!(clean.residual_risks.is_empty());
}

#[test]
fn a_symbol_parses_back_to_its_function() {
    let (program, _) = parsed();
    let f = &program.functions[0];
    let r = CallReference::parse(&f.symbol());
    assert_eq!(r.module.as_deref(), Some("core.math"));
    assert_eq!(r.name, "add");
    assert_eq!(r.version.as_deref(), Some("v1"));
}


#[test]
fn adding_a_module_dependency_twice_records_it_once() {
    let mut p = Program::new();
    let dep = ModuleDependency { module: "core.text".to_string(), source_path: "app.serow".to_string(), line: 3 };
    p.add_module_dependency("app", dep.clone());
    let once = p.clone();
    p.add_module_dependency("app", dep);
    assert_eq!(p, once);
    assert_eq!(p.modules.len(), 1);
    assert_eq!(p.modules[0].dependencies.len(), 1);
}

#[test]
fn renaming_a_function_rewrites_its_calls() {
    let src = "module app\n\npub fn one() -> Int\n  intent \"one\"\n  effects pure\n  impl\n    1\n\npub fn two() -> Int\n  intent \"two\"\n  effects pure\n  impl\n    one() + one()\n";
    let (program, diagnostics) = parse_source("app.serow", src);
    assert!(!has_errors(&diagnostics), "{diagnostics:?}");
    let (summary, text) = serow::edits::rename_function(program, diagnostics, "app.serow", "one", "uno");
    assert_eq!(summary.changed, 1, "{:?}", summary.diagnostics);
    let text = text.expect("new text");
    assert!(text.contains("pub fn uno() -> Int"), "{text}");
    assert!(text.contains("uno() + uno()"), "{text}");
    let (program, diagnostics) = parse_source("app.serow", src);
    let (refused, _) = serow::edits::rename_function(program, diagnostics, "app.serow", "one", "9x");
    assert_eq!(refused.diagnostics[0].code, "InvalidPatchTarget");
    assert_eq!(refused.diagnostics[0].message, "Invalid function name `9x`.");
}

#[test]
fn unattended_repair_actions_pass_the_repair_action_check() {
    let src = "module app\n\npub fn one() -> Int\n  intent \"one\"\n  effects pure\n  impl\n    1\n";
    let (program, diagnostics) = parse_source("app.serow", src);
    let mut summary = CheckSummary { functions: 1, examples: 0, properties: 0, contracts: 0, holes: 0, diagnostics: Vec::new() };
    assert!(!has_errors(&diagnostics));
    enforce_unattended_profile(&program, &mut summary);
    assert_eq!(summary.diagnostics.len(), 1);
    assert_eq!(summary.diagnostics[0].code, "MissingExplicitVersion");
    assert!(validate_repair_actions(&summary.diagnostics).is_empty());
}

#[test]
fn renaming_a_module_moves_its_functions() {
    let src = "module app\n\npub fn one() -> Int\n  intent \"one\"\n  effects pure\n  impl\n    1\n";
    let (program, diagnostics) = parse_source("app.serow", src);
    assert!(!has_errors(&diagnostics), "{diagnostics:?}");
    let (summary, text) = serow::edits::rename_module(program, diagnostics, "app.serow", "app", "core.app");
    assert_eq!(summary.changed, 1, "{:?}", summary.diagnostics);
    let text = text.expect("new text");
    assert!(text.starts_with("module core.app"), "{text}");
    let (program, diagnostics) = parse_source("app.serow", src);
    let (missing, _) = serow::edits::rename_module(program, diagnostics, "app.serow", "nope", "other");
    assert_eq!(missing.diagnostics[0].code, "PatchTargetNotFound");
    assert_eq!(missing.diagnostics[0].message, "Module `nope` was not found.");
    let (program, diagnostics) = parse_source("app.serow", src);
    let (same, text) = serow::edits::rename_module(program, diagnostics, "app.serow", "app", " app ");
    assert!(same.diagnostics.is_empty());
    assert_eq!(same.changed, 0);
    assert!(text.is_none());
}
