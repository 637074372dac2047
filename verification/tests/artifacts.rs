use serow::artifacts::{
    binary_entrypoint_json, generated_test_metadata_json, markdown_inline_code,
    render_generated_cargo_toml, render_generated_metadata_json, render_generated_readme_md,
    resolve_binary_entrypoint, source_bytes_fingerprint, source_inputs_fingerprint,
    validate_binary_entrypoint_shape, validate_rust_crate_name, BinaryEntrypoint,
    BinaryEntrypointShape, GeneratedRustItem, GeneratedRustProgram, GeneratedRustTest,
    SourceInput,
};
use serow::diagnostic::has_errors;
use serow::parser::parse_source;

fn item(symbol: &str, rust_name: &str, line: usize) -> GeneratedRustItem {
    GeneratedRustItem {
        symbol: symbol.to_string(),
        rust_name: rust_name.to_string(),
        source_path: "a.serow".to_string(),
        line,
    }
}

fn program() -> GeneratedRustProgram {
    GeneratedRustProgram {
        backend: "rust".to_string(),
        ir_version: "serow.ir.v0".to_string(),
        source_fingerprint: "fnv1a64:0000000000000001".to_string(),
        source: String::new(),
        types: vec![item("@m.Point", "Point", 3)],
        functions: vec![item("@m.f.v1", "m_f_v1", 7)],
        tests: vec![GeneratedRustTest {
            symbol: "@m.f.v1".to_string(),
            kind: "example".to_string(),
            rust_name: "m_f_v1_example_0".to_string(),
            source_path: "a.serow".to_string(),
            line: 9,
            example_index: Some(0),
            property_index: None,
            sample_index: None,
        }],
    }
}

fn inputs() -> Vec<SourceInput> {
    vec![SourceInput {
        path: "a.serow".to_string(),
        fingerprint: "fnv1a64:def".to_string(),
        bytes: 42,
    }]
}

fn entrypoint() -> BinaryEntrypoint {
    BinaryEntrypoint {
        symbol: "@m.main.v1".to_string(),
        rust_name: "m_main_v1".to_string(),
        return_type: "Int".to_string(),
        source_path: "a.serow".to_string(),
        line: 12,
    }
}

#[test]
fn cargo_toml_lists_package_metadata_and_items() {
    let text = render_generated_cargo_toml(
        "demo",
        &program(),
        Some("fnv1a64:abc"),
        &inputs(),
        None,
        None,
    );
    let expected = "# Generated by `serow compile rust --out-dir`.
# The .serow source remains the source of truth.

[package]
name = \"demo\"
version = \"0.1.0\"
edition = \"2021\"
publish = false
autobins = false
autoexamples = false
autotests = false
autobenches = false

[lib]
path = \"src/lib.rs\"

[package.metadata.serow]
backend = \"rust\"
ir_version = \"serow.ir.v0\"
project_version = \"unknown\"
input_fingerprint = \"fnv1a64:abc\"
source_fingerprint = \"fnv1a64:0000000000000001\"
generated_types = 1
generated_functions = 1
generated_tests = 1

[[package.metadata.serow.inputs]]
path = \"a.serow\"
fingerprint = \"fnv1a64:def\"
bytes = 42

[[package.metadata.serow.types]]
symbol = \"@m.Point\"
rust_name = \"Point\"
source_path = \"a.serow\"
line = 3

[[package.metadata.serow.functions]]
symbol = \"@m.f.v1\"
rust_name = \"m_f_v1\"
source_path = \"a.serow\"
line = 7

[[package.metadata.serow.tests]]
symbol = \"@m.f.v1\"
kind = \"example\"
rust_name = \"m_f_v1_example_0\"
source_path = \"a.serow\"
line = 9
example_index = 0
";
    assert_eq!(text, expected);
}

#[test]
fn cargo_toml_declares_the_binary_when_there_is_an_entrypoint() {
    let rust = GeneratedRustProgram { types: vec![], functions: vec![], tests: vec![], ..program() };
    let text = render_generated_cargo_toml("demo", &rust, None, &[], Some("0.3.0"), Some(&entrypoint()));
    assert!(text.contains("\n[[bin]]\nname = \"demo\"\npath = \"src/main.rs\"\n"));
    assert!(text.contains("project_version = \"0.3.0\"\ninput_fingerprint = \"unknown\"\n"));
    assert!(text.ends_with(
        "binary_entrypoint_symbol = \"@m.main.v1\"
binary_entrypoint_rust_name = \"m_main_v1\"
binary_entrypoint_return_type = \"Int\"
binary_entrypoint_source_path = \"a.serow\"
binary_entrypoint_line = 12
"
    ));
}

#[test]
fn readme_reports_provenance_counts_and_inputs() {
    let text = render_generated_readme_md("demo", &program(), None, &inputs(), Some("1.2.0"), None);
    let expected = "# demo

Generated by `serow compile rust --out-dir` from checked Serow sources.
The `.serow` files remain the source of truth; regenerate this crate instead of editing generated artifacts directly.

## Provenance

- Backend: `rust`
- IR version: `serow.ir.v0`
- Serow project version: `1.2.0`
- Input fingerprint: `unknown`
- Generated source fingerprint: `fnv1a64:0000000000000001`

## Generated Counts

- Types: 1
- Functions: 1
- Evidence tests: 1

## Source Inputs

- `a.serow`: 42 bytes, `fnv1a64:def`

## Artifacts

- `Cargo.toml` records machine-readable Cargo package metadata and disables Cargo automatic target discovery.
- `serow-metadata.json` mirrors backend metadata for tools that should not parse TOML.
- `src/lib.rs` contains the generated Rust implementation and pure evidence tests.
";
    assert_eq!(text, expected);
}

#[test]
fn readme_without_inputs_says_unknown_and_lists_the_entrypoint() {
    let text = render_generated_readme_md("demo", &program(), None, &[], None, Some(&entrypoint()));
    assert!(text.contains("\n## Source Inputs\n\n- Unknown\n"));
    assert!(text.contains(
        "## Binary Entrypoint\n\n- Serow symbol: `@m.main.v1`\n- Rust function: `m_main_v1`\n- Return type: `Int`\n- Source: `a.serow` line 12\n"
    ));
    assert!(text.ends_with("- `src/main.rs` contains the generated binary entrypoint.\n"));
}

#[test]
fn metadata_json_mirrors_the_manifest() {
    let text = render_generated_metadata_json("demo", &program(), Some("fnv1a64:abc"), &inputs(), None, None);
    let expected = "{
  \"backend\": \"rust\",
  \"binary_entrypoint\": null,
  \"crate_name\": \"demo\",
  \"generated_counts\": {\"functions\": 1, \"tests\": 1, \"types\": 1},
  \"input_fingerprint\": \"fnv1a64:abc\",
  \"inputs\": [
    {\"bytes\": 42, \"fingerprint\": \"fnv1a64:def\", \"path\": \"a.serow\"}
  ],
  \"ir_version\": \"serow.ir.v0\",
  \"project_version\": \"unknown\",
  \"schema\": \"serow.rust.metadata.v0\",
  \"source_fingerprint\": \"fnv1a64:0000000000000001\",
  \"types\": [
    {\"line\": 3, \"rust_name\": \"Point\", \"source_path\": \"a.serow\", \"symbol\": \"@m.Point\"}
  ],
  \"functions\": [
    {\"line\": 7, \"rust_name\": \"m_f_v1\", \"source_path\": \"a.serow\", \"symbol\": \"@m.f.v1\"}
  ],
  \"tests\": [
    {\"kind\": \"example\", \"line\": 9, \"rust_name\": \"m_f_v1_example_0\", \"source_path\": \"a.serow\", \"symbol\": \"@m.f.v1\", \"example_index\": 0}
  ]
}
";
    assert_eq!(text, expected);
}

#[test]
fn entrypoint_and_test_metadata_json() {
    assert_eq!(
        binary_entrypoint_json(&entrypoint()),
        "{\"line\": 12, \"return_type\": \"Int\", \"rust_name\": \"m_main_v1\", \"source_path\": \"a.serow\", \"symbol\": \"@m.main.v1\"}"
    );
    let test = GeneratedRustTest {
        symbol: "@m.f.v1".to_string(),
        kind: "property".to_string(),
        rust_name: "p".to_string(),
        source_path: "a.serow".to_string(),
        line: 4,
        example_index: None,
        property_index: Some(1),
        sample_index: Some(2),
    };
    assert_eq!(
        generated_test_metadata_json(&test),
        "    {\"kind\": \"property\", \"line\": 4, \"rust_name\": \"p\", \"source_path\": \"a.serow\", \"symbol\": \"@m.f.v1\", \"property_index\": 1, \"sample_index\": 2}"
    );
}

#[test]
fn inline_code_fences_past_the_longest_backtick_run() {
    assert_eq!(markdown_inline_code("abc"), "`abc`");
    assert_eq!(markdown_inline_code("a`b"), "``a`b``");
    assert_eq!(markdown_inline_code("a``b"), "```a``b```");
    assert_eq!(markdown_inline_code("`x"), "`` `x ``");
    assert_eq!(markdown_inline_code(""), "``");
}

#[test]
fn fingerprints_are_fnv1a_64() {
    assert_eq!(source_bytes_fingerprint(&vec![]), "fnv1a64:cbf29ce484222325");
    assert_eq!(source_bytes_fingerprint(&b"a".to_vec()), "fnv1a64:af63dc4c8601ec8c");
    assert_eq!(source_bytes_fingerprint(&b"foobar".to_vec()), "fnv1a64:85944171f73967e8");
    let files = vec![
        (b"a.serow".to_vec(), b"pub fn x".to_vec()),
        (b"b.serow".to_vec(), vec![]),
    ];
    assert_eq!(source_inputs_fingerprint(&files), "fnv1a64:ccfb36ce7d7bcc07");
}

const MAIN: &str = "module app

pub fn main() -> Int
  intent \"start the program\"
  effects pure
  impl
    1
";

#[test]
fn a_single_public_main_is_a_valid_entrypoint() {
    let (program, diagnostics) = parse_source("app.serow", MAIN);
    assert!(!has_errors(&diagnostics), "{diagnostics:?}");
    let shape = validate_binary_entrypoint_shape(&program).ok().expect("valid entrypoint");
    assert_eq!(shape.symbol, "@app.main.v1");
    assert_eq!(shape.return_type, "Int");
}

#[test]
fn entrypoint_problems_are_reported() {
    let (program, _) = parse_source("app.serow", "module app\n");
    let errors = validate_binary_entrypoint_shape(&program).err().expect("missing entrypoint");
    assert_eq!(errors.len(), 1);
    assert_eq!(errors[0].code, "RustBinaryMissingEntrypoint");
    assert!(errors[0].target.is_none());

    let source = MAIN.replace("main() -> Int", "main(a: Int) -> Widget");
    let (program, _) = parse_source("app.serow", &source);
    let errors = validate_binary_entrypoint_shape(&program).err().expect("bad entrypoint");
    assert_eq!(errors.len(), 2);
    assert_eq!(errors[0].code, "RustBinaryEntrypointArity");
    assert_eq!(
        errors[0].message,
        "Rust binary entrypoint `@app.main.v1` must take no arguments, but it declares 1."
    );
    assert_eq!(errors[1].code, "RustBinaryUnsupportedEntrypointReturn");

    let two = format!("{MAIN}\npub fn main() -> Int\n  intent \"start again\"\n  version v2\n  effects pure\n  impl\n    2\n");
    let (program, _) = parse_source("app.serow", &two);
    let errors = validate_binary_entrypoint_shape(&program).err().expect("ambiguous entrypoint");
    assert_eq!(errors[0].code, "RustBinaryAmbiguousEntrypoint");
}

#[test]
fn entrypoint_resolution_finds_the_generated_function() {
    let shape = BinaryEntrypointShape { symbol: "@m.f.v1".to_string(), return_type: "Int".to_string() };
    let entry = resolve_binary_entrypoint(&shape, &program()).ok().expect("generated");
    assert_eq!(entry.rust_name, "m_f_v1");
    assert_eq!(entry.line, 7);
    let missing = BinaryEntrypointShape { symbol: "@m.g.v1".to_string(), return_type: "Int".to_string() };
    let error = resolve_binary_entrypoint(&missing, &program()).err().expect("not generated");
    assert_eq!(error.code, "RustBinaryEntrypointNotGenerated");
}

#[test]
fn crate_names_are_checked() {
    assert!(validate_rust_crate_name("demo_crate-2").is_ok());
    assert_eq!(validate_rust_crate_name("").unwrap_err(), "`--crate-name` cannot be empty.");
    assert_eq!(
        validate_rust_crate_name("Demo").unwrap_err(),
        "`--crate-name` must start with a lowercase ASCII letter."
    );
    assert_eq!(
        validate_rust_crate_name("demo!").unwrap_err(),
        "`--crate-name` may only contain lowercase ASCII letters, digits, `_`, or `-`."
    );
}
