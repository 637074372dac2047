use serow::diagnostic::Diagnostic;
use serow::ir::{IrBinaryOp, IrExpr};
use serow::json::{diagnostics_array_json, ir_expr_json, json_string};

#[test]
fn json_string_escapes_quotes_controls_and_backslashes() {
    assert_eq!(json_string("a\"b\\c\nd\u{1}"), "\"a\\\"b\\\\c\\nd\\u0001\"");
    assert_eq!(json_string("plain é"), "\"plain é\"");
}

#[test]
fn ir_expr_json_writes_keys_in_order() {
    let expr = IrExpr::Binary {
        op: IrBinaryOp::Add,
        left: Box::new(IrExpr::Var("a".to_string())),
        right: Box::new(IrExpr::Int(-2)),
    };
    assert_eq!(
        ir_expr_json(&expr),
        "{\"kind\": \"binary\", \"left\": {\"kind\": \"var\", \"name\": \"a\"}, \"op\": \"add\", \"right\": {\"kind\": \"int\", \"value\": -2}}"
    );
}

#[test]
fn ir_expr_json_writes_calls_with_their_arguments() {
    let expr = IrExpr::Call {
        reference: "len".to_string(),
        target: "@std.len.v1".to_string(),
        args: vec![IrExpr::Bool(true), IrExpr::Unit],
    };
    assert_eq!(
        ir_expr_json(&expr),
        "{\"args\": [{\"kind\": \"bool\", \"value\": true}, {\"kind\": \"unit\"}], \"kind\": \"call\", \"reference\": \"len\", \"target\": \"@std.len.v1\"}"
    );
}

#[test]
fn diagnostics_array_json_omits_empty_parts() {
    assert_eq!(diagnostics_array_json(&Vec::new()), "[]");
    let d = Diagnostic::error("Code", "Message.", None).with_data("k", "v");
    assert_eq!(
        diagnostics_array_json(&vec![d]),
        "[{\"severity\": \"error\", \"code\": \"Code\", \"message\": \"Message.\", \"data\": {\"k\": \"v\"}}]"
    );
}
