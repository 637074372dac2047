use serow::diagnostic::{has_errors, Diagnostic};
use serow::model::Program;
use serow::parser::parse_source;
use serow::patch::{qualify_call, set_version};

const PINNED: &str = "module core.math

pub fn add(a: Int, b: Int) -> Int
  intent \"add two integers\"
  version v1
  effects pure
  impl
    a + b

pub fn twice(a: Int) -> Int
  intent \"double an integer\"
  effects pure
  examples
    twice(2) == 4
  impl
    @core.math.add.v1(a, a)
";

const BARE: &str = "module core.math

pub fn add(a: Int, b: Int) -> Int
  intent \"add two integers\"
  version v1
  effects pure
  impl
    a + b

pub fn twice(a: Int) -> Int
  intent \"double an integer\"
  effects pure
  examples
    twice(2) == 4
  impl
    add(a, a)
";

fn parsed(source: &str) -> (Program, Vec<Diagnostic>) {
    parse_source("math.serow", source)
}

fn reparse(text: &str) -> Program {
    let (program, diagnostics) = parse_source("math.serow", text);
    assert!(!has_errors(&diagnostics), "{diagnostics:?}");
    program
}

fn data(diagnostic: &Diagnostic, key: &str) -> String {
    diagnostic
        .data
        .iter()
        .find(|(k, _)| k == key)
        .map(|(_, v)| v.clone())
        .unwrap_or_default()
}

#[test]
fn set_version_refuses_a_malformed_version() {
    let (program, diagnostics) = parsed(PINNED);
    let (summary, text) = set_version(program, diagnostics, "math.serow", "add", " 2 ");
    assert!(text.is_none());
    assert_eq!(summary.changed, 0);
    assert_eq!(summary.diagnostics.len(), 1);
    assert_eq!(summary.diagnostics[0].code, "InvalidPatchTarget");
    assert_eq!(summary.diagnostics[0].message, "Invalid symbol version `2`.");
}

#[test]
fn set_version_refuses_while_calls_pin_the_current_version() {
    let (program, diagnostics) = parsed(PINNED);
    let (summary, text) = set_version(program, diagnostics, "math.serow", "add", "v2");
    assert!(text.is_none());
    assert!(!summary.ok());
    let d = &summary.diagnostics[0];
    assert_eq!(d.code, "VersionPinnedDependent");
    assert_eq!(
        d.message,
        "Function `add` cannot move from `v1` to `v2` while call sites pin the current symbol version."
    );
    assert_eq!(data(d, "current_symbol"), "@core.math.add.v1");
    assert_eq!(data(d, "requested_symbol"), "@core.math.add.v2");
    assert_eq!(
        data(d, "pinned_call_sites"),
        "@core.math.twice.v1 impl `@core.math.add.v1` in `@core.math.add.v1(a, a)`"
    );
}

#[test]
fn set_version_moves_an_unpinned_function() {
    let (program, diagnostics) = parsed(PINNED);
    let (summary, text) = set_version(program, diagnostics, "math.serow", "twice", "v2");
    assert!(summary.ok());
    assert_eq!(summary.changed, 1);
    let program = reparse(&text.expect("new source"));
    let twice = program.functions.iter().find(|f| f.name == "twice").unwrap();
    assert_eq!(twice.version, "v2");
    assert!(twice.version_explicit);
}

#[test]
fn set_version_to_the_explicit_current_version_changes_nothing() {
    let (program, diagnostics) = parsed(PINNED);
    let (summary, text) = set_version(program, diagnostics, "math.serow", "add", "v1");
    assert!(summary.ok());
    assert_eq!(summary.changed, 0);
    assert!(text.is_none());
}

#[test]
fn set_version_refuses_an_existing_symbol() {
    let source = format!(
        "{PINNED}
pub fn twice(a: Int) -> Int
  intent \"double an integer again\"
  version v2
  effects pure
  impl
    a * 2
"
    );
    let (program, diagnostics) = parsed(&source);
    let (summary, text) =
        set_version(program, diagnostics, "math.serow", "@core.math.twice.v1", "v2");
    assert!(text.is_none());
    let d = summary.diagnostics.last().unwrap();
    assert_eq!(d.code, "PatchConflict");
    assert_eq!(d.message, "Public symbol `@core.math.twice.v2` already exists.");
    assert_eq!(data(d, "symbol"), "@core.math.twice.v2");
}

#[test]
fn qualify_call_rewrites_bare_calls() {
    let (program, diagnostics) = parsed(BARE);
    let (summary, text) = qualify_call(program, diagnostics, "math.serow", "twice", "add", "add");
    assert!(summary.ok());
    assert_eq!(summary.changed, 1);
    let program = reparse(&text.expect("new source"));
    let twice = program.functions.iter().find(|f| f.name == "twice").unwrap();
    assert_eq!(twice.implementation.as_deref(), Some("@core.math.add.v1(a, a)"));
    assert_eq!(twice.examples, vec!["twice(2) == 4".to_string()]);
}

#[test]
fn qualify_call_refuses_when_there_is_nothing_to_qualify() {
    let (program, diagnostics) = parsed(PINNED);
    let (summary, text) = qualify_call(program, diagnostics, "math.serow", "twice", "add", "add");
    assert!(text.is_none());
    let d = summary.diagnostics.last().unwrap();
    assert_eq!(d.code, "PatchConflict");
    assert_eq!(d.message, "Function `twice` has no bare `add(...)` calls to qualify.");
}

#[test]
fn qualify_call_refuses_a_callee_with_another_name() {
    let (program, diagnostics) = parsed(BARE);
    let (summary, text) = qualify_call(program, diagnostics, "math.serow", "twice", "sub", "add");
    assert!(text.is_none());
    let d = summary.diagnostics.last().unwrap();
    assert_eq!(d.code, "PatchConflict");
    assert_eq!(
        d.message,
        "Callee `@core.math.add.v1` does not match bare call name `sub`."
    );
    assert_eq!(data(d, "callee_name"), "add");
}

#[test]
fn qualify_call_refuses_an_invalid_call_name() {
    let (program, diagnostics) = parsed(BARE);
    let (summary, text) = qualify_call(program, diagnostics, "math.serow", "twice", "1x", "add");
    assert!(text.is_none());
    assert_eq!(summary.diagnostics.len(), 1);
    assert_eq!(summary.diagnostics[0].message, "Invalid bare call name `1x`.");
}

#[test]
fn qualify_call_leaves_string_literals_alone() {
    let source = BARE.replace("    add(a, a)", "    if \"add(a)\" == \"x\" then add(a, a) else 0");
    let (program, diagnostics) = parsed(&source);
    let (summary, text) = qualify_call(program, diagnostics, "math.serow", "twice", "add", "add");
    assert_eq!(summary.changed, 1);
    let program = reparse(&text.expect("new source"));
    let twice = program.functions.iter().find(|f| f.name == "twice").unwrap();
    assert_eq!(
        twice.implementation.as_deref(),
        Some("if \"add(a)\" == \"x\" then @core.math.add.v1(a, a) else 0")
    );
}
