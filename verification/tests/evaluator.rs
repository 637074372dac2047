use serow::checker::check_program;
use serow::diagnostic::has_errors;
use serow::project::Architecture;
use serow::eval::{CallResult, Evaluator, Value};
use serow::parser::parse_source;

const SOURCE: &str = "module app

type Point = { x: Int, y: Int }
type Color = Red | Green

pub fn add(a: Int, b: Int) -> Int
  intent \"add two numbers\"
  contract
    requires a >= 0
    ensures result == a + b
  effects pure
  impl
    a + b

pub fn double(n: Int) -> Int
  intent \"double a number\"
  effects pure
  impl
    add(n, n)
";

fn evaluator() -> Evaluator {
    let (program, diagnostics) = parse_source("app.serow", SOURCE);
    assert!(!has_errors(&diagnostics), "{diagnostics:?}");
    Evaluator::new(&program.functions, &program.types)
}

fn eval(text: &str) -> Result<Value, String> {
    evaluator().eval(text, &Vec::new())
}

#[test]
fn arithmetic_follows_precedence() {
    assert_eq!(eval("1 + 2 * 3"), Ok(Value::Int(7)));
    assert_eq!(eval("(1 + 2) * 3"), Ok(Value::Int(9)));
    assert_eq!(eval("7 // 2"), Ok(Value::Int(3)));
    assert_eq!(eval("-7 // 2"), Ok(Value::Int(-3)));
    assert_eq!(eval("-7 % 2"), Ok(Value::Int(-1)));
    assert_eq!(eval("1 // 0"), Err("Integer division by zero.".to_string()));
    assert_eq!(eval("1 % 0"), Err("Modulo by zero.".to_string()));
}

#[test]
fn text_and_comparisons() {
    assert_eq!(eval("\"ab\" + \"cd\""), Ok(Value::Text("abcd".to_string())));
    assert_eq!(eval("\"a\" < \"b\""), Ok(Value::Bool(true)));
    assert_eq!(eval("2 >= 3"), Ok(Value::Bool(false)));
    assert_eq!(eval("1 == 1 and not false"), Ok(Value::Bool(true)));
    assert_eq!(eval("true or 1"), Ok(Value::Bool(true)));
    assert_eq!(
        eval("1 < \"a\""),
        Err("Ordered comparisons require matching Int or Text values.".to_string())
    );
    assert_eq!(eval("1 + true"), Err("`+` requires Int+Int or Text+Text.".to_string()));
}

#[test]
fn let_set_while_and_if() {
    assert_eq!(eval("let x = 0; while x < 3 do (set x = x + 1); x"), Ok(Value::Int(3)));
    assert_eq!(eval("if 1 < 2 then \"yes\" else \"no\""), Ok(Value::Text("yes".to_string())));
    assert_eq!(
        eval("set x = 1; x"),
        Err("`set` can only update an existing local `let` binding, got `x`.".to_string())
    );
    assert_eq!(eval("let x = 1; set x = true; x"), Err("`set x` expected Int, got Bool.".to_string()));
    assert_eq!(eval("1; 2"), Err("Sequence left expression must be Unit, got 1.".to_string()));
    assert_eq!(eval("while true do (unit)"), Err("While evaluation limit exceeded after 10000 iterations.".to_string()));
}

#[test]
fn records_enums_and_lists() {
    assert_eq!(eval("Point { x: 1, y: 2 }.y"), Ok(Value::Int(2)));
    assert_eq!(eval("(Point { y: 2, x: 1 } with { x: 5 }).x"), Ok(Value::Int(5)));
    assert_eq!(
        eval("Point { x: 1 }"),
        Err("Record `Point` is missing field `y`.".to_string())
    );
    assert_eq!(
        eval("match Green { Red -> 1, Green -> 2 }"),
        Ok(Value::Int(2))
    );
    assert_eq!(
        eval("match Green { Red -> 1 }"),
        Err("match on enum `Color` did not cover variant `Green` across 1 branches.".to_string())
    );
    assert_eq!(eval("len([1, 2, 3])"), Ok(Value::Int(3)));
    assert_eq!(eval("contains([1, 2], 2)"), Ok(Value::Bool(true)));
    assert_eq!(eval("[1] == [1]"), Ok(Value::Bool(true)));
    assert_eq!(
        eval("[1, true]"),
        Err("List literal elements must have one type, got Int and Bool.".to_string())
    );
    let shown = eval("push([1], 2)").unwrap().to_text();
    assert_eq!(shown, "[1, 2]");
}

#[test]
fn calls_check_preconditions_and_bind_arguments() {
    let mut ev = evaluator();
    let r: CallResult = ev.call("add", vec![Value::Int(1), Value::Int(2)]).unwrap();
    assert_eq!(r.value, Value::Int(3));
    assert_eq!(r.args, vec![("a".to_string(), Value::Int(1)), ("b".to_string(), Value::Int(2))]);
    assert_eq!(
        ev.call("add", vec![Value::Int(-1), Value::Int(2)]).err(),
        Some("Precondition failed for `add`: `a >= 0`.".to_string())
    );
    assert_eq!(
        ev.call("add", vec![Value::Int(1)]).err(),
        Some("Function `add` expected 2 arguments, got 1.".to_string())
    );
    assert_eq!(eval("double(4)"), Ok(Value::Int(8)));
    assert_eq!(eval("missing(1)"), Err("Unknown function `missing`.".to_string()));
    assert_eq!(eval("y"), Err("Unknown variable `y`.".to_string()));
}

#[test]
fn evaluation_reports_parse_problems() {
    assert_eq!(eval("1 +"), Err("Unexpected end of expression.".to_string()));
    assert_eq!(eval("1 2"), Err("Unexpected trailing token Int(2).".to_string()));
    assert_eq!(eval("(1"), Err("Expected token RParen.".to_string()));
    assert_eq!(eval("9223372036854775807 + 1"), Err("Integer overflow.".to_string()));
}

const INC: &str = "module app

pub fn inc(n: Int) -> Int
  intent \"increment a number\"
  contract
    requires n >= 0
    ensures result == n + 1
  examples
    inc(1) == 3
    inc(-1) == 0
    inc(2) == 3
  effects pure
  impl
    n + 1
";

#[test]
fn check_program_evaluates_examples_preconditions_and_contracts() {
    let (program, diagnostics) = parse_source("app.serow", INC);
    assert!(!has_errors(&diagnostics), "{diagnostics:?}");
    let near = vec![None; program.functions.len()];
    let summary = check_program(&program, diagnostics, &Architecture::default(), near);
    let failed: Vec<_> = summary.diagnostics.iter().filter(|d| d.code == "ExampleFailed").collect();
    assert_eq!(failed.len(), 1);
    assert_eq!(failed[0].message, "Executable example evaluated to false.");
    assert_eq!(failed[0].data[0], ("example".to_string(), "inc(1) == 3".to_string()));
    assert_eq!(failed[0].data[1], ("actual".to_string(), "false".to_string()));
    let pre: Vec<_> = summary.diagnostics.iter().filter(|d| d.code == "PreconditionFailed").collect();
    assert_eq!(pre.len(), 1);
    assert_eq!(pre[0].data[0], ("requires".to_string(), "n >= 0".to_string()));
    assert_eq!(pre[0].data[1], ("evidence".to_string(), "inc(-1) == 0".to_string()));
    assert_eq!(summary.contracts, 4);
}

const PROPS: &str = "module app

pub fn neg(n: Int) -> Int
  intent \"negate a number\"
  examples
    neg(1) == -1
  properties
    forall x: Int:
      neg(x) < 0
    forall p: Point:
      true
  effects pure
  impl
    0 - n
";

#[test]
fn check_program_samples_properties() {
    let (program, diagnostics) = parse_source("app.serow", PROPS);
    assert!(!has_errors(&diagnostics), "{diagnostics:?}");
    let near = vec![None; program.functions.len()];
    let summary = check_program(&program, diagnostics, &Architecture::default(), near);
    let failed: Vec<_> = summary.diagnostics.iter().filter(|d| d.code == "PropertyFailed").collect();
    assert_eq!(failed.len(), 1);
    assert_eq!(failed[0].data[0], ("property".to_string(), "neg(x) < 0".to_string()));
    assert_eq!(failed[0].data[1], ("property_index".to_string(), "1".to_string()));
    assert_eq!(failed[0].data[2], ("sample_index".to_string(), "1".to_string()));
    assert_eq!(failed[0].data[3], ("sample_seed".to_string(), "@app.neg.v1#property:1#sample:1".to_string()));
    assert_eq!(failed[0].data[4], ("bindings".to_string(), "x=-2".to_string()));
    assert_eq!(failed[0].data[5], ("actual".to_string(), "false".to_string()));
    let skipped: Vec<_> = summary.diagnostics.iter().filter(|d| d.code == "PropertyNotExecutable").collect();
    assert_eq!(skipped.len(), 1);
    assert_eq!(summary.properties, 2);
}
