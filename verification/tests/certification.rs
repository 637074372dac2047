use serow::checker::{enforce_certification_repair_action_contracts, CheckSummary};
use serow::diagnostic::Diagnostic;

#[test]
fn certification_repair_action_contracts_append_diagnostics() {
    let mut summary = CheckSummary {
        diagnostics: vec![Diagnostic::warning(
            "SyntheticBrokenRepair",
            "Synthetic diagnostic with a malformed repair action.",
            Some("test.target".to_string()),
        )
        .with_command_repair(
            "Broken repair",
            vec!["serow".to_string(), "patch".to_string()],
        )],
        ..CheckSummary::default()
    };

    enforce_certification_repair_action_contracts(&mut summary);

    assert!(summary.diagnostics.iter().any(|diagnostic| {
        diagnostic.code == "RepairActionContractViolation"
            && diagnostic
                .data
                .iter()
                .any(|(key, value)| key == "diagnostic_code" && value == "SyntheticBrokenRepair")
    }));
}
