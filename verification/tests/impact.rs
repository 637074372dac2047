use serow::impact::query_impact;
use serow::parser::parse_source;

const SOURCE: &str = "module core.math

pub fn add(a: Int, b: Int) -> Int
  intent \"add two integers\"
  version v1
  effects pure
  impl
    a + b

pub fn twice(a: Int) -> Int
  intent \"double an integer\"
  version v1
  effects pure
  impl
    add(a, a)

pub fn quad(a: Int) -> Int
  intent \"quadruple an integer\"
  version v1
  effects pure
  impl
    twice(twice(a))

pub fn other(a: Int) -> Int
  intent \"mix the operations\"
  version v1
  effects pure
  impl
    add(a, 1) + quad(a)
";

#[test]
fn impact_is_found_breadth_first_and_sorted() {
    let (program, _) = parse_source("math.serow", SOURCE);
    let impact = query_impact(&program, "add");
    let rows: Vec<(String, usize, Vec<String>)> = impact
        .iter()
        .map(|d| (d.function.symbol(), d.depth, d.path.iter().map(|f| f.symbol()).collect()))
        .collect();
    assert_eq!(
        rows,
        vec![
            (
                "@core.math.other.v1".to_string(),
                1,
                vec!["@core.math.other.v1".to_string(), "@core.math.add.v1".to_string()]
            ),
            (
                "@core.math.twice.v1".to_string(),
                1,
                vec!["@core.math.twice.v1".to_string(), "@core.math.add.v1".to_string()]
            ),
            (
                "@core.math.quad.v1".to_string(),
                2,
                vec![
                    "@core.math.quad.v1".to_string(),
                    "@core.math.twice.v1".to_string(),
                    "@core.math.add.v1".to_string()
                ]
            ),
        ]
    );
    assert!(impact.iter().all(|d| d.target.symbol() == "@core.math.add.v1"));
    assert_eq!(impact[0].call_sites.len(), 1);
    assert_eq!(impact[0].call_sites[0].context, "impl");
    assert_eq!(impact[0].call_sites[0].expression, "add(a, 1) + quad(a)");
}

#[test]
fn impact_of_an_unknown_or_uncalled_function_is_empty() {
    let (program, _) = parse_source("math.serow", SOURCE);
    assert!(query_impact(&program, "missing").is_empty());
    assert!(query_impact(&program, "@core.math.other.v1").is_empty());
}

#[test]
fn impact_by_symbol_names_the_same_target() {
    let (program, _) = parse_source("math.serow", SOURCE);
    let by_name = query_impact(&program, "twice");
    let by_symbol = query_impact(&program, "@core.math.twice.v1");
    assert_eq!(by_name.len(), 2);
    assert_eq!(by_name.len(), by_symbol.len());
    assert_eq!(by_name[0].function.symbol(), "@core.math.quad.v1");
    assert_eq!(by_name[1].function.symbol(), "@core.math.other.v1");
    assert_eq!(by_name[1].depth, 2);
}
