use serow::project::{parse_architecture, parse_cargo_manifest_version, parse_project_version};

const PROJECT: &str = r#"{
  "version": "0.4.1",
  "architecture": {
    "modules": {
      "app.main": {"may_depend_on": ["core.math", "core.text"]},
      "core.math": {"may_depend_on": []},
      "core.text": {"notes": "leaf", "may_depend_on": ["core.math"]}
    }
  }
}"#;

#[test]
fn parse_architecture_reads_module_policies() {
    let architecture = parse_architecture(PROJECT);
    assert_eq!(architecture.modules.len(), 3);
    assert_eq!(architecture.modules[0].module, "app.main");
    assert_eq!(
        architecture.modules[0].may_depend_on,
        vec!["core.math".to_string(), "core.text".to_string()]
    );
    assert!(architecture.modules[1].may_depend_on.is_empty());
    assert_eq!(architecture.modules[2].may_depend_on, vec!["core.math".to_string()]);
    assert!(architecture.policy_for("core.text").is_some());
    assert!(architecture.policy_for("core.other").is_none());
}

#[test]
fn parse_architecture_without_a_root_object_is_empty() {
    assert!(parse_architecture("not json").modules.is_empty());
    assert!(parse_architecture("{\"version\": \"1\"}").modules.is_empty());
    assert!(parse_architecture("{} trailing").modules.is_empty());
}

#[test]
fn parse_architecture_decodes_escapes_in_names() {
    let source = r#"{"architecture": {"modules": {"a\u0062c": {"may_depend_on": ["x\"y"]}}}}"#;
    let architecture = parse_architecture(source);
    assert_eq!(architecture.modules.len(), 1);
    assert_eq!(architecture.modules[0].module, "abc");
    assert_eq!(architecture.modules[0].may_depend_on, vec!["x\"y".to_string()]);
}

#[test]
fn parse_project_version_reads_the_top_level_string() {
    assert_eq!(parse_project_version(PROJECT).as_deref(), Some("0.4.1"));
    assert_eq!(parse_project_version("{\"version\": 3}"), None);
    assert_eq!(parse_project_version("{\"name\": \"x\"}"), None);
    assert_eq!(parse_project_version("{\"version\": \"\\ud83d\\ude00\"}").as_deref(), Some("\u{1F600}"));
    assert_eq!(parse_project_version("{\"version\": \"\\udc00\"}"), None);
}

#[test]
fn parse_cargo_manifest_version_reads_the_package_table() {
    let manifest = "[dependencies]\nversion = \"9.9.9\"\n\n[package]\nname = \"demo\"\nversion = \"1.2.3\" # released\n";
    assert_eq!(parse_cargo_manifest_version(manifest).as_deref(), Some("1.2.3"));
}

#[test]
fn parse_cargo_manifest_version_handles_literal_strings_and_escapes() {
    assert_eq!(
        parse_cargo_manifest_version("[package]\nversion = '0.1.0'\n").as_deref(),
        Some("0.1.0")
    );
    assert_eq!(
        parse_cargo_manifest_version("[package]\nversion = \"1.\\u0030\"\n").as_deref(),
        Some("1.0")
    );
    assert_eq!(parse_cargo_manifest_version("[package]\nversion = 1\n"), None);
    assert_eq!(parse_cargo_manifest_version("[package]\nversion = \"1\" trailing\n"), None);
    assert_eq!(parse_cargo_manifest_version("[[package]]\nversion = \"1\"\n"), None);
    assert_eq!(parse_cargo_manifest_version("name = \"x\"\n"), None);
}
