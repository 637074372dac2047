//! The executable evidence of a function: each example is evaluated, a direct call's
//! arguments are held to the preconditions, and its result to the contracts.
use vstd::prelude::*;

use crate::checks::{finding_of, target_of, Finding};
use crate::diagnostic::{no_repairs, Diagnostic, Repairs, Severity};
use crate::evaluator::{
    ev_call, eval_spec, var_put, vars_view, CallResult, Env, Evaluator,
};
use crate::model::{symbol_text, Function, Param};
use crate::patch::prose;
use crate::text::{owned, trim, trim_start};
use crate::values::{show, value_view, Val, Value};

verus! {

// ---------------------------------------------------------------------------
// Direct calls in examples
// ---------------------------------------------------------------------------
/// The reference names the function: by its name, its symbol, `module.name`, or
/// `module.name.version`.
pub open spec fn targets(r: Seq<char>, f: Function) -> bool {
    r == f.name@ || r == symbol_text(f) || r == f.module@ + "."@ + f.name@ || r == f.module@ + "."@ + f.name@ + "."@
        + f.version@
}

/// The position of the parenthesis that closes the one before `i`, outside string
/// literals.
pub open spec fn close_from(s: Seq<char>, i: int, depth: int, in_str: bool) -> Option<int>
    decreases s.len() - i,
{
    if i < 0 || i >= s.len() {
        None
    } else if s[i] == '"' {
        close_from(s, i + 1, depth, !in_str)
    } else if !in_str && s[i] == '(' {
        close_from(s, i + 1, depth + 1, in_str)
    } else if !in_str && s[i] == ')' {
        if depth - 1 == 0 {
            Some(i)
        } else {
            close_from(s, i + 1, depth - 1, in_str)
        }
    } else {
        close_from(s, i + 1, depth, in_str)
    }
}

/// The argument text of an example `f(args) == ..` that calls the function directly.
pub open spec fn call_args_text(f: Function, example: Seq<char>) -> Option<Seq<char>> {
    let t = trim(example);
    let open = crate::text::find_from(t, '(', 0);
    if open >= t.len() {
        None
    } else if !targets(trim(t.take(open)), f) {
        None
    } else {
        match close_from(t, open, 0, false) {
            None => None,
            Some(close) => {
                let after = trim_start(t.skip(close + 1));
                if after.len() >= 2 && after[0] == '=' && after[1] == '=' {
                    Some(t.subrange(open + 1, close))
                } else {
                    None
                }
            },
        }
    }
}

/// The argument texts split at top-level commas, each trimmed.
pub open spec fn split_from(s: Seq<char>, i: int, depth: int, in_str: bool, cur: Seq<char>, parts: Seq<Seq<char>>) -> Seq<Seq<char>>
    decreases s.len() - i,
{
    if i < 0 || i >= s.len() {
        if trim(cur).len() > 0 {
            parts.push(trim(cur))
        } else {
            parts
        }
    } else if s[i] == '"' {
        split_from(s, i + 1, depth, !in_str, cur.push(s[i]), parts)
    } else if !in_str && s[i] == '(' {
        split_from(s, i + 1, depth + 1, in_str, cur.push(s[i]), parts)
    } else if !in_str && s[i] == ')' {
        split_from(s, i + 1, depth - 1, in_str, cur.push(s[i]), parts)
    } else if !in_str && s[i] == ',' && depth == 0 {
        split_from(s, i + 1, depth, in_str, seq![], parts.push(trim(cur)))
    } else {
        split_from(s, i + 1, depth, in_str, cur.push(s[i]), parts)
    }
}

/// The values of the argument texts from the `i`th on, each evaluated without variables.
pub open spec fn eval_parts(e: Env, parts: Seq<Seq<char>>, i: int, acc: Seq<Val>) -> Result<Seq<Val>, Seq<char>>
    decreases parts.len() - i,
{
    if i < 0 || i >= parts.len() {
        Ok(acc)
    } else {
        match eval_spec(e, parts[i], seq![]) {
            Err(m) => Err(m),
            Ok(v) => eval_parts(e, parts, i + 1, acc.push(v)),
        }
    }
}

pub open spec fn eval_arg_list(e: Env, text: Seq<char>) -> Result<Seq<Val>, Seq<char>> {
    if trim(text).len() == 0 {
        Ok(seq![])
    } else {
        eval_parts(e, split_from(text, 0, 0, false, seq![], seq![]), 0, seq![])
    }
}

/// The parameters bound to the arguments, as far as both go.
pub open spec fn zip_bindings(ps: Seq<Param>, args: Seq<Val>, i: int, vars: Seq<(Seq<char>, Val)>) -> Seq<(Seq<char>, Val)>
    decreases ps.len() - i,
{
    if i < 0 || i >= ps.len() || i >= args.len() {
        vars
    } else {
        zip_bindings(ps, args, i + 1, var_put(vars, ps[i].name@, args[i]))
    }
}

// ---------------------------------------------------------------------------
// What the evidence reports
// ---------------------------------------------------------------------------
pub open spec fn error_finding(code: Seq<char>, message: Seq<char>, target: Seq<char>, data: Seq<(Seq<char>, Seq<char>)>, r: Repairs) -> Finding {
    (Severity::Error, code, message, target, data, r)
}

/// The preconditions from the `i`th on, held to the arguments of a direct call.
pub open spec fn requires_findings(e: Env, f: Function, b: Seq<(Seq<char>, Val)>, ex: Seq<char>, i: int) -> Seq<Finding>
    decreases f.requires@.len() - i,
{
    if i < 0 || i >= f.requires@.len() {
        seq![]
    } else {
        let r = f.requires@[i]@;
        let rest = requires_findings(e, f, b, ex, i + 1);
        match eval_spec(e, r, b) {
            Ok(Val::Bool(true)) => rest,
            Ok(Val::Bool(false)) => seq![
                error_finding(
                    "PreconditionFailed"@,
                    "Precondition failed during example evaluation."@,
                    target_of(f),
                    seq![("requires"@, r), ("evidence"@, ex)],
                    prose("Change the evidence so it satisfies the function preconditions."@),
                ),
            ] + rest,
            Ok(v) => seq![
                error_finding(
                    "ContractEvaluationError"@,
                    "Precondition did not evaluate to Bool."@,
                    target_of(f),
                    seq![("requires"@, r), ("evidence"@, ex), ("actual"@, show(v))],
                    no_repairs(),
                ),
            ] + rest,
            Err(m) => seq![
                error_finding("ContractEvaluationError"@, m, target_of(f), seq![("requires"@, r), ("evidence"@, ex)], no_repairs()),
            ] + rest,
        }
    }
}

/// The contracts from the `i`th on, held to the arguments and the result of a call.
pub open spec fn contract_findings(e: Env, f: Function, b: Seq<(Seq<char>, Val)>, result: Val, ex: Seq<char>, i: int) -> Seq<Finding>
    decreases f.contracts@.len() - i,
{
    if i < 0 || i >= f.contracts@.len() {
        seq![]
    } else {
        let c = f.contracts@[i]@;
        let rest = contract_findings(e, f, b, result, ex, i + 1);
        match eval_spec(e, c, var_put(b, "result"@, result)) {
            Ok(Val::Bool(true)) => rest,
            Ok(v) => seq![
                error_finding(
                    "ContractFailed"@,
                    "Contract failed during example evaluation."@,
                    target_of(f),
                    seq![("contract"@, c), ("evidence"@, ex), ("actual"@, show(v))],
                    prose("Fix the implementation or contract so executable evidence agrees."@),
                ),
            ] + rest,
            Err(m) => seq![
                error_finding("ContractEvaluationError"@, m, target_of(f), seq![("contract"@, c), ("evidence"@, ex)], no_repairs()),
            ] + rest,
        }
    }
}

/// An example evaluated, then, for a direct call, the call's contracts: what it reports
/// and how many contracts were evaluated.
pub open spec fn example_value_findings(e: Env, f: Function, ex: Seq<char>, args: Option<Seq<Val>>) -> (Seq<Finding>, nat) {
    match eval_spec(e, ex, seq![]) {
        Ok(Val::Bool(true)) => match args {
            None => (seq![], 0),
            Some(a) => match ev_call(e, symbol_text(f), a, u64::MAX as nat) {
                Ok((v, b)) => (contract_findings(e, f, b, v, ex, 0), f.contracts@.len()),
                Err(m) => (
                    seq![error_finding("ContractEvaluationError"@, m, target_of(f), seq![("example"@, ex)], no_repairs())],
                    0,
                ),
            },
        },
        Ok(actual) => (
            seq![
                error_finding(
                    "ExampleFailed"@,
                    "Executable example evaluated to false."@,
                    target_of(f),
                    seq![("example"@, ex), ("actual"@, show(actual))],
                    prose("Fix the implementation or adjust the example if the stated behavior is wrong."@),
                ),
            ],
            0,
        ),
        Err(m) => (seq![error_finding("ExampleError"@, m, target_of(f), seq![("example"@, ex)], no_repairs())], 0),
    }
}

/// What one example reports, and how many preconditions and contracts it evaluated.
pub open spec fn example_findings(e: Env, f: Function, ex: Seq<char>) -> (Seq<Finding>, nat) {
    match call_args_text(f, ex) {
        None => example_value_findings(e, f, ex, None),
        Some(text) => match eval_arg_list(e, text) {
            Err(m) => (seq![error_finding("ContractEvaluationError"@, m, target_of(f), seq![("example"@, ex)], no_repairs())], 0),
            Ok(args) => {
                let rf = requires_findings(e, f, zip_bindings(f.params@, args, 0, seq![]), ex, 0);
                if rf.len() > 0 {
                    (rf, f.requires@.len())
                } else {
                    let (xf, xc) = example_value_findings(e, f, ex, Some(args));
                    (xf, f.requires@.len() + xc)
                }
            },
        },
    }
}

/// What the first `n` examples of `f` report, and how many preconditions and contracts
/// they evaluated.
pub open spec fn examples_findings(e: Env, f: Function, n: int) -> (Seq<Finding>, nat)
    decreases n,
{
    if n <= 0 || n > f.examples@.len() {
        (seq![], 0)
    } else {
        let (a, c) = examples_findings(e, f, n - 1);
        let (b, d) = example_findings(e, f, f.examples@[n - 1]@);
        (a + b, c + d)
    }
}

/// What the evidence of the first `n` functions reports, and how many preconditions and
/// contracts it evaluated.
pub open spec fn evidence_findings(e: Env, fs: Seq<Function>, n: int) -> (Seq<Finding>, nat)
    decreases n,
{
    if n <= 0 || n > fs.len() {
        (seq![], 0)
    } else {
        let (a, c) = evidence_findings(e, fs, n - 1);
        let (b, d) = examples_findings(e, fs[n - 1], fs[n - 1].examples@.len() as int);
        let q = properties_findings(
            e,
            fs[n - 1],
            crate::patch::block_ranges(crate::patch::texts(fs[n - 1].properties@), 0).len() as int,
        );
        (a + b + q, c + d)
    }
}


// ---------------------------------------------------------------------------
// Sampled properties
// ---------------------------------------------------------------------------
/// The typed variables `name: Type` of a property header, from the `i`th part on; a part
/// without `:` is left out.
pub open spec fn header_parts(parts: Seq<Seq<char>>, i: int, acc: Seq<(Seq<char>, Seq<char>)>) -> Seq<(Seq<char>, Seq<char>)>
    decreases parts.len() - i,
{
    if i < 0 || i >= parts.len() {
        acc
    } else {
        let raw = parts[i];
        let c = crate::text::find_from(raw, ':', 0);
        if c < raw.len() {
            header_parts(parts, i + 1, acc.push((trim(raw.take(c)), trim(raw.skip(c + 1)))))
        } else {
            header_parts(parts, i + 1, acc)
        }
    }
}

/// The variables of a `forall ...:` header line.
pub open spec fn header_vars(header: Seq<char>) -> Seq<(Seq<char>, Seq<char>)> {
    let t = trim(header);
    header_parts(crate::text::split_spec(t.subrange(7, t.len() - 1), ','), 0, seq![])
}

/// The bootstrap samples of a type, when it has them.
pub open spec fn samples_of(t: Seq<char>) -> Option<Seq<Val>> {
    if t == "Int"@ {
        Some(seq![Val::Int(-2), Val::Int(-1), Val::Int(0), Val::Int(1), Val::Int(2)])
    } else if t == "Bool"@ {
        Some(seq![Val::Bool(false), Val::Bool(true)])
    } else if t == "Text"@ {
        Some(seq![Val::Text(seq![]), Val::Text("a"@), Val::Text("Serow"@)])
    } else {
        None
    }
}

/// Every variable's type has samples.
pub open spec fn all_sampled(vars: Seq<(Seq<char>, Seq<char>)>) -> bool {
    forall|k: int| 0 <= k < vars.len() ==> (#[trigger] samples_of(vars[k].1)) is Some
}

pub open spec fn sample_sets(vars: Seq<(Seq<char>, Seq<char>)>) -> Seq<Seq<Val>> {
    vars.map_values(|v: (Seq<char>, Seq<char>)| samples_of(v.1)->0)
}

/// Each prefix from the `i`th on, extended by each sample in turn.
pub open spec fn extend_all(prefixes: Seq<Seq<Val>>, s: Seq<Val>, i: int) -> Seq<Seq<Val>>
    decreases prefixes.len() - i,
{
    if i < 0 || i >= prefixes.len() {
        seq![]
    } else {
        s.map_values(|v: Val| prefixes[i].push(v)) + extend_all(prefixes, s, i + 1)
    }
}

/// Every combination of one sample from each set, the first set varying slowest.
pub open spec fn combos(sets: Seq<Seq<Val>>) -> Seq<Seq<Val>>
    decreases sets.len(),
{
    if sets.len() == 0 {
        seq![seq![]]
    } else {
        extend_all(combos(sets.drop_last()), sets.last(), 0)
    }
}

/// The variables bound to the values of one combination.
pub open spec fn bind_sample(vars: Seq<(Seq<char>, Seq<char>)>, vals: Seq<Val>, i: int, b: Seq<(Seq<char>, Val)>) -> Seq<(Seq<char>, Val)>
    decreases vars.len() - i,
{
    if i < 0 || i >= vars.len() || i >= vals.len() {
        b
    } else {
        bind_sample(vars, vals, i + 1, var_put(b, vars[i].0, vals[i]))
    }
}

pub open spec fn value_text_or_empty(o: Option<Val>) -> Seq<char> {
    match o {
        Some(v) => show(v),
        None => seq![],
    }
}

/// `name=value` for each variable, joined by `, `.
pub open spec fn bindings_text(vars: Seq<(Seq<char>, Seq<char>)>, b: Seq<(Seq<char>, Val)>) -> Seq<char> {
    crate::text::join_spec(
        vars.map_values(|v: (Seq<char>, Seq<char>)| v.0 + "="@ + value_text_or_empty(crate::evaluator::var_get(b, v.0))),
        ", "@,
    )
}

pub open spec fn sample_seed(f: Function, index: nat, sample: nat) -> Seq<char> {
    symbol_text(f) + "#property:"@ + crate::text::decimal(index) + "#sample:"@ + crate::text::decimal(sample)
}

/// The first combination, from the `k`th on, on which the property does not hold.
pub open spec fn first_failure(
    e: Env,
    f: Function,
    index: nat,
    vars: Seq<(Seq<char>, Seq<char>)>,
    expr: Seq<char>,
    cs: Seq<Seq<Val>>,
    k: int,
) -> Seq<Finding>
    decreases cs.len() - k,
{
    if k < 0 || k >= cs.len() {
        seq![]
    } else {
        let b = bind_sample(vars, cs[k], 0, seq![]);
        let n = (k + 1) as nat;
        let data = seq![
            ("property"@, expr),
            ("property_index"@, crate::text::decimal(index)),
            ("sample_index"@, crate::text::decimal(n)),
            ("sample_seed"@, sample_seed(f, index, n)),
            ("bindings"@, bindings_text(vars, b)),
        ];
        match eval_spec(e, expr, b) {
            Ok(Val::Bool(true)) => first_failure(e, f, index, vars, expr, cs, k + 1),
            Ok(actual) => seq![
                error_finding(
                    "PropertyFailed"@,
                    "Sampled property evaluated to false."@,
                    target_of(f),
                    data.push(("actual"@, show(actual))),
                    prose("Fix implementation or narrow the property."@),
                ),
            ],
            Err(m) => seq![error_finding("PropertyEvaluationError"@, m, target_of(f), data, no_repairs())],
        }
    }
}

/// What the property at the header line `h` and expression line `x` reports.
pub open spec fn property_findings(e: Env, f: Function, index: nat, h: Seq<char>, x: Seq<char>) -> Seq<Finding> {
    let vars = header_vars(h);
    let expr = trim(x);
    if !all_sampled(vars) {
        seq![
            (
                Severity::Warning,
                "PropertyNotExecutable"@,
                "Property contains a type without bootstrap samples."@,
                target_of(f),
                seq![("property"@, expr)],
                no_repairs(),
            ),
        ]
    } else {
        first_failure(e, f, index, vars, expr, combos(sample_sets(vars)), 0)
    }
}

/// What the first `n` properties of `f` report.
pub open spec fn properties_findings(e: Env, f: Function, n: int) -> Seq<Finding>
    decreases n,
{
    let lines = crate::patch::texts(f.properties@);
    let rs = crate::patch::block_ranges(lines, 0);
    if n <= 0 || n > rs.len() {
        seq![]
    } else {
        properties_findings(e, f, n - 1) + property_findings(e, f, n as nat, lines[rs[n - 1].0], lines[rs[n - 1].1])
    }
}

// ---------------------------------------------------------------------------
// Executable evidence in executable code
// ---------------------------------------------------------------------------
pub open spec fn pair_views(v: Seq<(String, String)>) -> Seq<(Seq<char>, Seq<char>)> {
    v.map_values(|kv: (String, String)| (kv.0@, kv.1@))
}

/// An error about `f` with the given data and at most one prose repair.
fn error_report(code: &str, message: &str, f: &Function, data: Vec<(String, String)>, repair: Option<&str>) -> (d: Diagnostic)
    ensures
        d.target is Some,
        finding_of(d) == error_finding(
            code@,
            message@,
            target_of(*f),
            pair_views(data@),
            match repair {
                Some(r) => prose(r@),
                None => no_repairs(),
            },
        ),
{
    let mut d = Diagnostic::error(code, message, Some(f.target()));
    assert(crate::patch::data_texts(d) =~= Seq::<(Seq<char>, Seq<char>)>::empty());
    let mut i: usize = 0;
    while i < data.len()
        invariant
            i <= data@.len(),
            d.severity == Severity::Error,
            d.code@ == code@,
            d.message@ == message@,
            d.target is Some,
            d.target->0@ == target_of(*f),
            crate::patch::data_texts(d) == pair_views(data@.take(i as int)),
            crate::diagnostic::repairs_of(d) == no_repairs(),
        decreases data@.len() - i,
    {
        let ghost before = d;
        d = d.with_data(data[i].0.as_str(), data[i].1.as_str());
        proof {
            assert(crate::patch::data_texts(d) =~= crate::patch::data_texts(before).push((data@[i as int].0@, data@[i as int].1@)));
            assert(pair_views(data@.take(i + 1)) =~= pair_views(data@.take(i as int)).push((data@[i as int].0@, data@[i as int].1@)));
        }
        i += 1;
    }
    assert(data@.take(data@.len() as int) =~= data@);
    match repair {
        Some(r) => d.with_repair(r),
        None => d,
    }
}

fn pair(k: &str, v: &str) -> (res: (String, String))
    ensures
        res.0@ == k@,
        res.1@ == v@,
{
    (owned(k), owned(v))
}

fn close_position(t: &Vec<char>, open: usize) -> (res: Option<usize>)
    requires
        open <= t@.len(),
    ensures
        match close_from(t@, open as int, 0, false) {
            Some(i) => res is Some && res->0 as int == i && open < i < t@.len(),
            None => res is None,
        },
{
    let mut i: usize = open;
    let mut depth: i128 = 0;
    let mut in_str = false;
    while i < t.len()
        invariant
            open <= i <= t@.len(),
            -(i as int) <= depth <= i as int,
            depth > 0 ==> i > open,
            close_from(t@, i as int, depth as int, in_str) == close_from(t@, open as int, 0, false),
        decreases t@.len() - i,
    {
        let c = t[i];
        if c == '"' {
            in_str = !in_str;
        } else if !in_str && c == '(' {
            depth = depth + 1;
        } else if !in_str && c == ')' {
            if depth - 1 == 0 {
                return Some(i);
            }
            depth = depth - 1;
        }
        i += 1;
    }
    None
}

fn targets_function(r: &Vec<char>, f: &Function) -> (res: bool)
    ensures
        res == targets(r@, *f),
{
    let s = crate::text::string_of(r.as_slice());
    let sym = f.symbol();
    let mut mn = f.module.clone();
    mn.append(".");
    mn.append(f.name.as_str());
    let mut mnv = mn.clone();
    mnv.append(".");
    mnv.append(f.version.as_str());
    crate::text::str_eq(s.as_str(), f.name.as_str()) || crate::text::str_eq(s.as_str(), sym.as_str())
        || crate::text::str_eq(s.as_str(), mn.as_str()) || crate::text::str_eq(s.as_str(), mnv.as_str())
}

fn direct_call_args(f: &Function, ex: &str) -> (res: Option<Vec<char>>)
    ensures
        match call_args_text(*f, ex@) {
            Some(a) => res is Some && res->0@ == a,
            None => res is None,
        },
{
    let cs = crate::text::chars_of(ex);
    let t = crate::text::trim_chars(cs.as_slice());
    let open = crate::text::find_char(t.as_slice(), '(', 0);
    if open >= t.len() {
        return None;
    }
    let head = crate::text::slice_chars(t.as_slice(), 0, open);
    let r = crate::text::trim_chars(head.as_slice());
    proof {
        assert(head@ =~= t@.take(open as int));
    }
    if !targets_function(&r, f) {
        return None;
    }
    let close = match close_position(&t, open) {
        Some(c) => c,
        None => return None,
    };
    let tail = crate::text::slice_chars(t.as_slice(), close + 1, t.len());
    let after = crate::text::trim_start_chars(tail.as_slice());
    proof {
        assert(tail@ =~= t@.skip(close + 1));
    }
    if after.len() >= 2 && after[0] == '=' && after[1] == '=' {
        let a = crate::text::slice_chars(t.as_slice(), open + 1, close);
        proof {
            assert(a@ =~= t@.subrange(open + 1, close as int));
        }
        Some(a)
    } else {
        None
    }
}

fn split_arguments(s: &Vec<char>) -> (res: Vec<String>)
    ensures
        crate::diagnostic::strs(res@) == split_from(s@, 0, 0, false, seq![], seq![]),
{
    let mut parts: Vec<String> = Vec::new();
    let mut cur: Vec<char> = Vec::new();
    let mut depth: i128 = 0;
    let mut in_str = false;
    let mut i: usize = 0;
    assert(crate::diagnostic::strs(parts@) =~= Seq::<Seq<char>>::empty());
    while i < s.len()
        invariant
            i <= s@.len(),
            -(i as int) <= depth <= i as int,
            split_from(s@, i as int, depth as int, in_str, cur@, crate::diagnostic::strs(parts@)) == split_from(
                s@,
                0,
                0,
                false,
                seq![],
                seq![],
            ),
        decreases s@.len() - i,
    {
        let c = s[i];
        if c == '"' {
            in_str = !in_str;
            cur.push(c);
        } else if !in_str && c == '(' {
            depth = depth + 1;
            cur.push(c);
        } else if !in_str && c == ')' {
            depth = depth - 1;
            cur.push(c);
        } else if !in_str && c == ',' && depth == 0 {
            let tc = crate::text::trim_chars(cur.as_slice());
            let ghost before = parts@;
            parts.push(crate::text::string_of(tc.as_slice()));
            proof {
                assert(crate::diagnostic::strs(parts@) =~= crate::diagnostic::strs(before).push(trim(cur@)));
            }
            cur = Vec::new();
        } else {
            cur.push(c);
        }
        i += 1;
    }
    let tc = crate::text::trim_chars(cur.as_slice());
    if tc.len() > 0 {
        let ghost before = parts@;
        parts.push(crate::text::string_of(tc.as_slice()));
        proof {
            assert(crate::diagnostic::strs(parts@) =~= crate::diagnostic::strs(before).push(trim(cur@)));
        }
    }
    parts
}

fn evaluate_arguments(ev: &mut Evaluator, text: &Vec<char>) -> (res: Result<Vec<Value>, String>)
    ensures
        final(ev)@ == old(ev)@,
        match eval_arg_list(old(ev)@, text@) {
            Ok(vs) => res is Ok && crate::evaluator::vals_of(res->Ok_0@) == vs,
            Err(m) => res is Err && res->Err_0@ == m,
        },
{
    let t = crate::text::trim_chars(text.as_slice());
    let mut out: Vec<Value> = Vec::new();
    assert(crate::evaluator::vals_of(out@) =~= Seq::<Val>::empty());
    if t.len() == 0 {
        return Ok(out);
    }
    let parts = split_arguments(text);
    let ghost ps = split_from(text@, 0, 0, false, seq![], seq![]);
    let ghost e0 = ev@;
    let empty: Vec<(String, Value)> = Vec::new();
    assert(vars_view(empty@) =~= Seq::<(Seq<char>, Val)>::empty());
    let mut i: usize = 0;
    while i < parts.len()
        invariant
            i <= parts@.len(),
            ps == crate::diagnostic::strs(parts@),
            ps.len() == parts@.len(),
            ev@ == e0,
            e0 == old(ev)@,
            trim(text@).len() > 0,
            ps == split_from(text@, 0, 0, false, seq![], seq![]),
            vars_view(empty@) == Seq::<(Seq<char>, Val)>::empty(),
            eval_parts(e0, ps, i as int, crate::evaluator::vals_of(out@)) == eval_parts(e0, ps, 0, seq![]),
        decreases parts@.len() - i,
    {
        assert(ps[i as int] == parts@[i as int]@);
        let v = match ev.eval(parts[i].as_str(), &empty) {
            Ok(v) => v,
            Err(m) => return Err(m),
        };
        let ghost before = out@;
        out.push(v);
        proof {
            assert(crate::evaluator::vals_of(out@) =~= crate::evaluator::vals_of(before).push(value_view(out@.last())));
        }
        i += 1;
    }
    Ok(out)
}

fn zip_arguments(ps: &Vec<Param>, args: &Vec<Value>) -> (res: Vec<(String, Value)>)
    ensures
        vars_view(res@) == zip_bindings(ps@, crate::evaluator::vals_of(args@), 0, seq![]),
{
    let mut out: Vec<(String, Value)> = Vec::new();
    assert(vars_view(out@) =~= Seq::<(Seq<char>, Val)>::empty());
    let mut i: usize = 0;
    while i < ps.len() && i < args.len()
        invariant
            i <= ps@.len(),
            zip_bindings(ps@, crate::evaluator::vals_of(args@), i as int, vars_view(out@)) == zip_bindings(
                ps@,
                crate::evaluator::vals_of(args@),
                0,
                seq![],
            ),
        decreases ps@.len() - i,
    {
        crate::evaluator::var_store_pub(&mut out, ps[i].name.clone(), args[i].copy());
        i += 1;
    }
    out
}


fn push_report(diags: &mut Vec<Diagnostic>, d: Diagnostic, fd: Ghost<Finding>)
    requires
        d.target is Some,
        finding_of(d) == fd@,
    ensures
        crate::checks::appended(final(diags)@, old(diags)@, seq![fd@]),
{
    let ghost before = diags@;
    diags.push(d);
    proof {
        assert(diags@.take(before.len() as int) =~= before);
        assert(diags@.skip(before.len() as int) =~= seq![d]);
    }
}

proof fn lemma_appended_nothing(ds: Seq<Diagnostic>)
    ensures
        crate::checks::appended(ds, ds, seq![]),
{
    assert(ds.take(ds.len() as int) =~= ds);
    assert(ds.skip(ds.len() as int) =~= Seq::<Diagnostic>::empty());
}

fn requires_run(
    ev: &mut Evaluator,
    f: &Function,
    b: &Vec<(String, Value)>,
    ex: &str,
    i: usize,
    diags: &mut Vec<Diagnostic>,
) -> (n: usize)
    requires
        i <= f.requires@.len(),
    ensures
        final(ev)@ == old(ev)@,
        crate::checks::appended(final(diags)@, old(diags)@, requires_findings(old(ev)@, *f, vars_view(b@), ex@, i as int)),
        n as int == requires_findings(old(ev)@, *f, vars_view(b@), ex@, i as int).len(),
        n <= f.requires@.len() - i,
    decreases f.requires@.len() - i,
{
    if i >= f.requires.len() {
        proof {
            lemma_appended_nothing(diags@);
        }
        return 0;
    }
    let r = &f.requires[i];
    let ghost e = ev@;
    let ghost d0 = diags@;
    let v = ev.eval(r.as_str(), b);
    let mut k: usize = 0;
    let ghost mut cur: Seq<Finding> = seq![];
    match v {
        Ok(Value::Bool(true)) => {},
        Ok(Value::Bool(false)) => {
            let mut data: Vec<(String, String)> = Vec::new();
            data.push(pair("requires", r.as_str()));
            data.push(pair("evidence", ex));
            let d = error_report(
                "PreconditionFailed",
                "Precondition failed during example evaluation.",
                f,
                data,
                Some("Change the evidence so it satisfies the function preconditions."),
            );
            proof {
                assert(pair_views(data@) =~= seq![("requires"@, r@), ("evidence"@, ex@)]);
            }
            push_report(diags, d, Ghost(finding_of(d)));
            proof {
                cur = seq![finding_of(d)];
            }
            k = 1;
        },
        Ok(actual) => {
            let mut data: Vec<(String, String)> = Vec::new();
            data.push(pair("requires", r.as_str()));
            data.push(pair("evidence", ex));
            let t = actual.to_text();
            data.push(pair("actual", t.as_str()));
            let d = error_report("ContractEvaluationError", "Precondition did not evaluate to Bool.", f, data, None);
            proof {
                assert(pair_views(data@) =~= seq![("requires"@, r@), ("evidence"@, ex@), ("actual"@, t@)]);
            }
            push_report(diags, d, Ghost(finding_of(d)));
            proof {
                cur = seq![finding_of(d)];
            }
            k = 1;
        },
        Err(m) => {
            let mut data: Vec<(String, String)> = Vec::new();
            data.push(pair("requires", r.as_str()));
            data.push(pair("evidence", ex));
            let d = error_report("ContractEvaluationError", m.as_str(), f, data, None);
            proof {
                assert(pair_views(data@) =~= seq![("requires"@, r@), ("evidence"@, ex@)]);
            }
            push_report(diags, d, Ghost(finding_of(d)));
            proof {
                cur = seq![finding_of(d)];
            }
            k = 1;
        },
    }
    let ghost d1 = diags@;
    proof {
        if k == 0 {
            lemma_appended_nothing(diags@);
        }
    }
    let n = requires_run(ev, f, b, ex, i + 1, diags);
    proof {
        crate::checks::lemma_appended_trans(d1, diags@, d0, cur, requires_findings(e, *f, vars_view(b@), ex@, i + 1));
        assert(requires_findings(e, *f, vars_view(b@), ex@, i as int) =~= cur + requires_findings(e, *f, vars_view(b@), ex@, i + 1));
    }
    n + k
}


fn contracts_run(
    ev: &mut Evaluator,
    f: &Function,
    vars: &Vec<(String, Value)>,
    b: Ghost<Seq<(Seq<char>, Val)>>,
    result: Ghost<Val>,
    ex: &str,
    i: usize,
    diags: &mut Vec<Diagnostic>,
)
    requires
        i <= f.contracts@.len(),
        vars_view(vars@) == var_put(b@, "result"@, result@),
    ensures
        final(ev)@ == old(ev)@,
        crate::checks::appended(final(diags)@, old(diags)@, contract_findings(old(ev)@, *f, b@, result@, ex@, i as int)),
    decreases f.contracts@.len() - i,
{
    if i >= f.contracts.len() {
        proof {
            lemma_appended_nothing(diags@);
        }
        return;
    }
    let c = &f.contracts[i];
    let ghost e = ev@;
    let ghost d0 = diags@;
    let v = ev.eval(c.as_str(), vars);
    let ghost mut cur: Seq<Finding> = seq![];
    match v {
        Ok(Value::Bool(true)) => {
            proof {
                lemma_appended_nothing(diags@);
            }
        },
        Ok(actual) => {
            let mut data: Vec<(String, String)> = Vec::new();
            data.push(pair("contract", c.as_str()));
            data.push(pair("evidence", ex));
            let t = actual.to_text();
            data.push(pair("actual", t.as_str()));
            let d = error_report(
                "ContractFailed",
                "Contract failed during example evaluation.",
                f,
                data,
                Some("Fix the implementation or contract so executable evidence agrees."),
            );
            proof {
                assert(pair_views(data@) =~= seq![("contract"@, c@), ("evidence"@, ex@), ("actual"@, t@)]);
            }
            push_report(diags, d, Ghost(finding_of(d)));
            proof {
                cur = seq![finding_of(d)];
            }
        },
        Err(m) => {
            let mut data: Vec<(String, String)> = Vec::new();
            data.push(pair("contract", c.as_str()));
            data.push(pair("evidence", ex));
            let d = error_report("ContractEvaluationError", m.as_str(), f, data, None);
            proof {
                assert(pair_views(data@) =~= seq![("contract"@, c@), ("evidence"@, ex@)]);
            }
            push_report(diags, d, Ghost(finding_of(d)));
            proof {
                cur = seq![finding_of(d)];
            }
        },
    }
    let ghost d1 = diags@;
    contracts_run(ev, f, vars, b, result, ex, i + 1, diags);
    proof {
        crate::checks::lemma_appended_trans(d1, diags@, d0, cur, contract_findings(e, *f, b@, result@, ex@, i + 1));
        assert(contract_findings(e, *f, b@, result@, ex@, i as int) =~= cur + contract_findings(e, *f, b@, result@, ex@, i + 1));
    }
}

/// `a + b`, held at the largest `usize`.
pub open spec fn capped(a: int) -> int {
    if a > usize::MAX {
        usize::MAX as int
    } else {
        a
    }
}

fn example_error(f: &Function, code: &str, m: &str, ex: &str, diags: &mut Vec<Diagnostic>)
    ensures
        crate::checks::appended(
            final(diags)@,
            old(diags)@,
            seq![error_finding(code@, m@, target_of(*f), seq![("example"@, ex@)], no_repairs())],
        ),
{
    let mut data: Vec<(String, String)> = Vec::new();
    data.push(pair("example", ex));
    let d = error_report(code, m, f, data, None);
    proof {
        assert(pair_views(data@) =~= seq![("example"@, ex@)]);
    }
    push_report(diags, d, Ghost(finding_of(d)));
}

fn example_value_run(
    ev: &mut Evaluator,
    f: &Function,
    ex: &str,
    args: Option<Vec<Value>>,
    diags: &mut Vec<Diagnostic>,
) -> (n: usize)
    ensures
        final(ev)@ == old(ev)@,
        crate::checks::appended(
            final(diags)@,
            old(diags)@,
            example_value_findings(
                old(ev)@,
                *f,
                ex@,
                match args {
                    Some(a) => Some(crate::evaluator::vals_of(a@)),
                    None => None,
                },
            ).0,
        ),
        n as int == example_value_findings(
            old(ev)@,
            *f,
            ex@,
            match args {
                Some(a) => Some(crate::evaluator::vals_of(a@)),
                None => None,
            },
        ).1,
{
    let empty: Vec<(String, Value)> = Vec::new();
    assert(vars_view(empty@) =~= Seq::<(Seq<char>, Val)>::empty());
    let v = ev.eval(ex, &empty);
    match v {
        Ok(Value::Bool(true)) => match args {
            None => {
                proof {
                    lemma_appended_nothing(diags@);
                }
                0
            },
            Some(a) => {
                let sym = f.symbol();
                match ev.call(sym.as_str(), a) {
                    Ok(r) => {
                        let mut vars = crate::evaluator::copy_vars_pub(&r.args);
                        crate::evaluator::var_store_pub(&mut vars, owned("result"), r.value.copy());
                        contracts_run(ev, f, &vars, Ghost(vars_view(r.args@)), Ghost(value_view(r.value)), ex, 0, diags);
                        f.contracts.len()
                    },
                    Err(m) => {
                        example_error(f, "ContractEvaluationError", m.as_str(), ex, diags);
                        0
                    },
                }
            },
        },
        Ok(actual) => {
            let mut data: Vec<(String, String)> = Vec::new();
            data.push(pair("example", ex));
            let t = actual.to_text();
            data.push(pair("actual", t.as_str()));
            let d = error_report(
                "ExampleFailed",
                "Executable example evaluated to false.",
                f,
                data,
                Some("Fix the implementation or adjust the example if the stated behavior is wrong."),
            );
            proof {
                assert(pair_views(data@) =~= seq![("example"@, ex@), ("actual"@, t@)]);
            }
            push_report(diags, d, Ghost(finding_of(d)));
            0
        },
        Err(m) => {
            example_error(f, "ExampleError", m.as_str(), ex, diags);
            0
        },
    }
}

fn example_run(ev: &mut Evaluator, f: &Function, ex: &str, diags: &mut Vec<Diagnostic>) -> (n: usize)
    ensures
        final(ev)@ == old(ev)@,
        crate::checks::appended(final(diags)@, old(diags)@, example_findings(old(ev)@, *f, ex@).0),
        n as int == capped(example_findings(old(ev)@, *f, ex@).1 as int),
{
    match direct_call_args(f, ex) {
        None => {
            let n = example_value_run(ev, f, ex, None, diags);
            n
        },
        Some(t) => match evaluate_arguments(ev, &t) {
            Err(m) => {
                example_error(f, "ContractEvaluationError", m.as_str(), ex, diags);
                0
            },
            Ok(args) => {
                let b = zip_arguments(&f.params, &args);
                let ghost d0 = diags@;
                let ghost e = ev@;
                let k = requires_run(ev, f, &b, ex, 0, diags);
                let r = f.requires.len();
                if k > 0 {
                    return r;
                }
                let ghost d1 = diags@;
                let ghost av = crate::evaluator::vals_of(args@);
                let x = example_value_run(ev, f, ex, Some(args), diags);
                proof {
                    assert(requires_findings(e, *f, vars_view(b@), ex@, 0).len() == 0);
                    crate::checks::lemma_appended_trans(
                        d1,
                        diags@,
                        d0,
                        requires_findings(e, *f, vars_view(b@), ex@, 0),
                        example_value_findings(e, *f, ex@, Some(av)).0,
                    );
                    assert(requires_findings(e, *f, vars_view(b@), ex@, 0) + example_value_findings(e, *f, ex@, Some(av)).0
                        =~= example_value_findings(e, *f, ex@, Some(av)).0);
                }
                r.saturating_add(x)
            },
        },
    }
}


/// `e` is the evaluator made for the program: copies of its functions and types, the
/// intrinsics, and no call in progress.
pub open spec fn evaluator_for(e: Env, p: crate::model::Program) -> bool {
    &&& crate::edits::same_functions(e.fs, p.functions@)
    &&& e.types.len() == p.types@.len()
    &&& forall|k: int| 0 <= k < p.types@.len() ==> crate::model::same_type(#[trigger] e.types[k], p.types@[k])
    &&& crate::intrinsics::is_intrinsic_list(e.ins)
    &&& e.depth == 0
}

fn examples_run(ev: &mut Evaluator, f: &Function, diags: &mut Vec<Diagnostic>) -> (n: usize)
    ensures
        final(ev)@ == old(ev)@,
        crate::checks::appended(final(diags)@, old(diags)@, examples_findings(old(ev)@, *f, f.examples@.len() as int).0),
        n as int == capped(examples_findings(old(ev)@, *f, f.examples@.len() as int).1 as int),
{
    let ghost e = ev@;
    let ghost d0 = diags@;
    let mut n: usize = 0;
    let mut j: usize = 0;
    proof {
        lemma_appended_nothing(diags@);
    }
    while j < f.examples.len()
        invariant
            j <= f.examples@.len(),
            ev@ == e,
            crate::checks::appended(diags@, d0, examples_findings(e, *f, j as int).0),
            n as int == capped(examples_findings(e, *f, j as int).1 as int),
        decreases f.examples@.len() - j,
    {
        let ghost d1 = diags@;
        let k = example_run(ev, f, f.examples[j].as_str(), diags);
        proof {
            crate::checks::lemma_appended_trans(d1, diags@, d0, examples_findings(e, *f, j as int).0, example_findings(e, *f, f.examples@[j as int]@).0);
        }
        n = n.saturating_add(k);
        j += 1;
    }
    n
}

/// Evaluates the examples of every function of the program, in order, with the
/// preconditions and contracts of their direct calls, then samples its properties; returns how many preconditions and
/// contracts were evaluated, held at the largest `usize`.
pub fn check_evidence(program: &crate::model::Program, diags: &mut Vec<Diagnostic>) -> (n: usize)
    ensures
        exists|e: Env|
            {
                &&& evaluator_for(e, *program)
                &&& crate::checks::appended(
                    final(diags)@,
                    old(diags)@,
                    evidence_findings(e, program.functions@, program.functions@.len() as int).0,
                )
                &&& n as int == capped(evidence_findings(e, program.functions@, program.functions@.len() as int).1 as int)
            },
{
    let mut ev = Evaluator::new(program.functions.as_slice(), program.types.as_slice());
    let ghost e = ev@;
    let ghost d0 = diags@;
    let ghost fs = program.functions@;
    let mut n: usize = 0;
    let mut i: usize = 0;
    proof {
        lemma_appended_nothing(diags@);
    }
    while i < program.functions.len()
        invariant
            i <= fs.len(),
            fs == program.functions@,
            ev@ == e,
            crate::checks::appended(diags@, d0, evidence_findings(e, fs, i as int).0),
            n as int == capped(evidence_findings(e, fs, i as int).1 as int),
        decreases fs.len() - i,
    {
        let ghost d1 = diags@;
        let k = examples_run(&mut ev, &program.functions[i], diags);
        proof {
            crate::checks::lemma_appended_trans(
                d1,
                diags@,
                d0,
                evidence_findings(e, fs, i as int).0,
                examples_findings(e, fs[i as int], fs[i as int].examples@.len() as int).0,
            );
        }
        let ghost d2 = diags@;
        properties_run(&mut ev, &program.functions[i], diags);
        proof {
            crate::checks::lemma_appended_trans(
                d2,
                diags@,
                d0,
                evidence_findings(e, fs, i as int).0 + examples_findings(e, fs[i as int], fs[i as int].examples@.len() as int).0,
                properties_findings(
                    e,
                    fs[i as int],
                    crate::patch::block_ranges(crate::patch::texts(fs[i as int].properties@), 0).len() as int,
                ),
            );
        }
        n = n.saturating_add(k);
        i += 1;
    }
    assert(evaluator_for(e, *program));
    n
}


// ---------------------------------------------------------------------------
// Sampled properties in executable code
// ---------------------------------------------------------------------------
pub open spec fn pair_texts(v: Seq<(String, String)>) -> Seq<(Seq<char>, Seq<char>)> {
    v.map_values(|kv: (String, String)| (kv.0@, kv.1@))
}

fn header_variables(h: &String) -> (res: Vec<(String, String)>)
    requires
        crate::patch::is_header(h@),
    ensures
        pair_texts(res@) == header_vars(h@),
{
    let cs = crate::text::chars_of(h.as_str());
    let t = crate::text::trim_chars(cs.as_slice());
    proof {
        reveal_strlit("forall ");
        reveal_strlit(":");
        assert(t@.len() >= 7);
        assert(t@.take(7) == "forall "@);
        assert(t@.take(7)[6] == t@[6]);
        assert(t@[6] == ' ');
        assert(t@.skip(t@.len() - 1) == ":"@);
        assert(t@.skip(t@.len() - 1)[0] == t@.last());
        if t@.len() == 7 {
            assert(t@.last() == ':');
        }
    }
    let inner = crate::text::slice_chars(t.as_slice(), 7, t.len() - 1);
    let parts = crate::text::split_chars(inner.as_slice(), ',');
    let ghost ps = crate::text::split_spec(inner@, ',');
    proof {
        crate::text::lemma_views_index(parts@);
        assert(inner@ =~= t@.subrange(7, t@.len() - 1));
    }
    let mut out: Vec<(String, String)> = Vec::new();
    assert(pair_texts(out@) =~= Seq::<(Seq<char>, Seq<char>)>::empty());
    let mut i: usize = 0;
    while i < parts.len()
        invariant
            i <= parts@.len(),
            ps == crate::text::views(parts@),
            ps.len() == parts@.len(),
            forall|k: int| 0 <= k < parts@.len() ==> #[trigger] ps[k] == parts@[k]@,
            header_parts(ps, i as int, pair_texts(out@)) == header_parts(ps, 0, seq![]),
        decreases parts@.len() - i,
    {
        let raw = &parts[i];
        let c = crate::text::find_char(raw.as_slice(), ':', 0);
        if c < raw.len() {
            let a = crate::text::slice_chars(raw.as_slice(), 0, c);
            let b = crate::text::slice_chars(raw.as_slice(), c + 1, raw.len());
            let na = crate::text::trim_chars(a.as_slice());
            let nb = crate::text::trim_chars(b.as_slice());
            let ghost before = out@;
            out.push((crate::text::string_of(na.as_slice()), crate::text::string_of(nb.as_slice())));
            proof {
                assert(a@ =~= raw@.take(c as int));
                assert(b@ =~= raw@.skip(c + 1));
                assert(pair_texts(out@) =~= pair_texts(before).push((trim(raw@.take(c as int)), trim(raw@.skip(c + 1)))));
            }
        }
        i += 1;
    }
    out
}

/// The bootstrap samples of a type: five integers, both booleans, three texts; other
/// types have none.
pub fn samples_for_type(t: &str) -> (res: Option<Vec<Value>>)
    ensures
        match samples_of(t@) {
            Some(s) => res is Some && crate::evaluator::vals_of(res->0@) == s,
            None => res is None,
        },
{
    if crate::text::str_eq(t, "Int") {
        let v = vec![Value::Int(-2), Value::Int(-1), Value::Int(0), Value::Int(1), Value::Int(2)];
        assert(crate::evaluator::vals_of(v@) =~= seq![Val::Int(-2), Val::Int(-1), Val::Int(0), Val::Int(1), Val::Int(2)]);
        Some(v)
    } else if crate::text::str_eq(t, "Bool") {
        let v = vec![Value::Bool(false), Value::Bool(true)];
        assert(crate::evaluator::vals_of(v@) =~= seq![Val::Bool(false), Val::Bool(true)]);
        Some(v)
    } else if crate::text::str_eq(t, "Text") {
        let v = vec![Value::Text(String::new()), Value::Text(owned("a")), Value::Text(owned("Serow"))];
        proof {
            reveal_strlit("");
        }
        assert(crate::evaluator::vals_of(v@) =~= seq![Val::Text(seq![]), Val::Text("a"@), Val::Text("Serow"@)]);
        Some(v)
    } else {
        None
    }
}

pub open spec fn combo_views(cs: Seq<Vec<Value>>) -> Seq<Seq<Val>> {
    cs.map_values(|c: Vec<Value>| crate::evaluator::vals_of(c@))
}

fn copy_values(v: &Vec<Value>) -> (res: Vec<Value>)
    ensures
        crate::evaluator::vals_of(res@) == crate::evaluator::vals_of(v@),
{
    let mut out: Vec<Value> = Vec::new();
    let mut i: usize = 0;
    while i < v.len()
        invariant
            i <= v@.len(),
            out@.len() == i,
            forall|k: int| 0 <= k < i ==> value_view(#[trigger] out@[k]) == value_view(v@[k]),
        decreases v@.len() - i,
    {
        out.push(v[i].copy());
        i += 1;
    }
    assert(crate::evaluator::vals_of(out@) =~= crate::evaluator::vals_of(v@));
    out
}

fn extend_prefixes(prefixes: &Vec<Vec<Value>>, s: &Vec<Value>, i: usize) -> (res: Vec<Vec<Value>>)
    requires
        i <= prefixes@.len(),
    ensures
        combo_views(res@) == extend_all(combo_views(prefixes@), crate::evaluator::vals_of(s@), i as int),
    decreases prefixes@.len() - i,
{
    if i >= prefixes.len() {
        let out: Vec<Vec<Value>> = Vec::new();
        assert(combo_views(out@) =~= Seq::<Seq<Val>>::empty());
        return out;
    }
    let ghost p = crate::evaluator::vals_of(prefixes@[i as int]@);
    let ghost sv = crate::evaluator::vals_of(s@);
    let mut out: Vec<Vec<Value>> = Vec::new();
    let mut j: usize = 0;
    while j < s.len()
        invariant
            j <= s@.len(),
            i < prefixes@.len(),
            p == crate::evaluator::vals_of(prefixes@[i as int]@),
            sv == crate::evaluator::vals_of(s@),
            combo_views(out@) == sv.take(j as int).map_values(|v: Val| p.push(v)),
        decreases s@.len() - j,
    {
        let mut c = copy_values(&prefixes[i]);
        let ghost before = out@;
        let ghost cv = crate::evaluator::vals_of(c@);
        c.push(s[j].copy());
        proof {
            assert(crate::evaluator::vals_of(c@) =~= cv.push(sv[j as int]));
        }
        out.push(c);
        proof {
            assert(sv.take(j + 1) =~= sv.take(j as int).push(sv[j as int]));
            assert(combo_views(out@) =~= combo_views(before).push(p.push(sv[j as int])));
            assert(sv.take(j + 1).map_values(|v: Val| p.push(v)) =~= sv.take(j as int).map_values(|v: Val| p.push(v)).push(p.push(sv[j as int])));
        }
        j += 1;
    }
    proof {
        assert(sv.take(s@.len() as int) =~= sv);
    }
    let rest = extend_prefixes(prefixes, s, i + 1);
    let ghost a = out@;
    let mut out = out;
    let mut rest = rest;
    let ghost r = rest@;
    out.append(&mut rest);
    proof {
        assert(combo_views(out@) =~= combo_views(a) + combo_views(r));
        assert(combo_views(prefixes@)[i as int] == p);
    }
    out
}

/// Every combination of one value from each set, the first set varying slowest.
pub fn cartesian_product(sets: &Vec<Vec<Value>>) -> (res: Vec<Vec<Value>>)
    ensures
        combo_views(res@) == combos(combo_views(sets@)),
{
    let mut cur: Vec<Vec<Value>> = Vec::new();
    let first: Vec<Value> = Vec::new();
    assert(crate::evaluator::vals_of(first@) =~= Seq::<Val>::empty());
    cur.push(first);
    proof {
        assert(combo_views(cur@) =~= seq![Seq::<Val>::empty()]);
        assert(combo_views(sets@).take(0) =~= Seq::<Seq<Val>>::empty());
        assert(combo_views(cur@) =~= combos(combo_views(sets@).take(0)));
    }
    let mut j: usize = 0;
    while j < sets.len()
        invariant
            j <= sets@.len(),
            combo_views(cur@) == combos(combo_views(sets@).take(j as int)),
        decreases sets@.len() - j,
    {
        let next = extend_prefixes(&cur, &sets[j], 0);
        proof {
            let t = combo_views(sets@).take(j + 1);
            assert(t.drop_last() =~= combo_views(sets@).take(j as int));
            assert(t.last() == crate::evaluator::vals_of(sets@[j as int]@));
        }
        cur = next;
        j += 1;
    }
    proof {
        assert(combo_views(sets@).take(sets@.len() as int) =~= combo_views(sets@));
    }
    cur
}

fn bind_values(vars: &Vec<(String, String)>, vals: &Vec<Value>) -> (res: Vec<(String, Value)>)
    ensures
        vars_view(res@) == bind_sample(pair_texts(vars@), crate::evaluator::vals_of(vals@), 0, seq![]),
{
    let mut out: Vec<(String, Value)> = Vec::new();
    assert(vars_view(out@) =~= Seq::<(Seq<char>, Val)>::empty());
    let mut i: usize = 0;
    while i < vars.len() && i < vals.len()
        invariant
            i <= vars@.len(),
            bind_sample(pair_texts(vars@), crate::evaluator::vals_of(vals@), i as int, vars_view(out@)) == bind_sample(
                pair_texts(vars@),
                crate::evaluator::vals_of(vals@),
                0,
                seq![],
            ),
        decreases vars@.len() - i,
    {
        crate::evaluator::var_store_pub(&mut out, vars[i].0.clone(), vals[i].copy());
        i += 1;
    }
    out
}

fn bindings_line(vars: &Vec<(String, String)>, b: &Vec<(String, Value)>) -> (res: String)
    ensures
        res@ == bindings_text(pair_texts(vars@), vars_view(b@)),
{
    let mut parts: Vec<String> = Vec::new();
    let ghost pv = pair_texts(vars@);
    let ghost bv = vars_view(b@);
    let mut i: usize = 0;
    while i < vars.len()
        invariant
            i <= vars@.len(),
            pv == pair_texts(vars@),
            bv == vars_view(b@),
            parts@.len() == i,
            forall|k: int| 0 <= k < i ==> #[trigger] parts@[k]@ == pv[k].0 + "="@ + value_text_or_empty(crate::evaluator::var_get(bv, pv[k].0)),
        decreases vars@.len() - i,
    {
        let mut s = vars[i].0.clone();
        s.append("=");
        match crate::evaluator::var_lookup_pub(b, vars[i].0.as_str()) {
            Some(x) => {
                let t = x.to_text();
                s.append(t.as_str());
            },
            None => {},
        }
        parts.push(s);
        i += 1;
    }
    let j = crate::text::join_strings(parts.as_slice(), ", ");
    proof {
        assert(parts@.map_values(|p: String| p@) =~= pv.map_values(
            |v: (Seq<char>, Seq<char>)| v.0 + "="@ + value_text_or_empty(crate::evaluator::var_get(bv, v.0)),
        ));
    }
    j
}

fn sample_seed_text(f: &Function, index: usize, n: usize) -> (res: String)
    ensures
        res@ == sample_seed(*f, index as nat, n as nat),
{
    let mut s = f.symbol();
    s.append("#property:");
    let a = crate::text::usize_text(index);
    s.append(a.as_str());
    s.append("#sample:");
    let b = crate::text::usize_text(n);
    s.append(b.as_str());
    s
}

#[verifier::loop_isolation(false)]
fn property_run(
    ev: &mut Evaluator,
    f: &Function,
    index: usize,
    h: &String,
    x: &String,
    diags: &mut Vec<Diagnostic>,
)
    requires
        crate::patch::is_header(h@),
    ensures
        final(ev)@ == old(ev)@,
        crate::checks::appended(final(diags)@, old(diags)@, property_findings(old(ev)@, *f, index as nat, h@, x@)),
{
    let vars = header_variables(h);
    let expr = crate::text::trim_str(x.as_str());
    let ghost pv = pair_texts(vars@);
    let mut sets: Vec<Vec<Value>> = Vec::new();
    let mut k: usize = 0;
    while k < vars.len()
        invariant
            k <= vars@.len(),
            pv == pair_texts(vars@),
            sets@.len() == k,
            diags@ == old(diags)@,
            ev@ == old(ev)@,
            forall|j: int| 0 <= j < k ==> (#[trigger] samples_of(pv[j].1)) is Some,
            forall|j: int| 0 <= j < k ==> crate::evaluator::vals_of(#[trigger] sets@[j]@) == samples_of(pv[j].1)->0,
        decreases vars@.len() - k,
    {
        match samples_for_type(vars[k].1.as_str()) {
            Some(s) => {
                sets.push(s);
            },
            None => {
                let d = Diagnostic::warning("PropertyNotExecutable", "Property contains a type without bootstrap samples.", Some(f.target()))
                    .with_data("property", expr.as_str());
                proof {
                    assert(crate::patch::data_texts(d) =~= seq![("property"@, expr@)]);
                    assert(pv[k as int] == (vars@[k as int].0@, vars@[k as int].1@));
                    assert(samples_of(pv[k as int].1) is None);
                    assert(!all_sampled(pv));
                }
                push_report(diags, d, Ghost(finding_of(d)));
                return;
            },
        }
        k += 1;
    }
    proof {
        assert(combo_views(sets@) =~= sample_sets(pv));
    }
    let cs = cartesian_product(&sets);
    let ghost cv = combo_views(cs@);
    let ghost e = ev@;
    let mut i: usize = 0;
    while i < cs.len()
        invariant
            i <= cs@.len(),
            cv == combo_views(cs@),
            cv.len() == cs@.len(),
            pv == pair_texts(vars@),
            ev@ == e,
            e == old(ev)@,
            diags@ == old(diags)@,
            all_sampled(pv),
            cv == combos(sample_sets(pv)),
            first_failure(e, *f, index as nat, pv, expr@, cv, i as int) == first_failure(e, *f, index as nat, pv, expr@, cv, 0),
        decreases cs@.len() - i,
    {
        let b = bind_values(&vars, &cs[i]);
        let n = i + 1;
        let v = ev.eval(expr.as_str(), &b);
        match v {
            Ok(Value::Bool(true)) => {},
            Ok(actual) => {
                let mut data: Vec<(String, String)> = Vec::new();
                data.push(pair("property", expr.as_str()));
                let pi = crate::text::usize_text(index);
                data.push(pair("property_index", pi.as_str()));
                let si = crate::text::usize_text(n);
                data.push(pair("sample_index", si.as_str()));
                let seed = sample_seed_text(f, index, n);
                data.push(pair("sample_seed", seed.as_str()));
                let bt = bindings_line(&vars, &b);
                data.push(pair("bindings", bt.as_str()));
                let t = actual.to_text();
                data.push(pair("actual", t.as_str()));
                let d = error_report(
                    "PropertyFailed",
                    "Sampled property evaluated to false.",
                    f,
                    data,
                    Some("Fix implementation or narrow the property."),
                );
                proof {
                    assert(pair_views(data@) =~= seq![
                        ("property"@, expr@),
                        ("property_index"@, crate::text::decimal(index as nat)),
                        ("sample_index"@, crate::text::decimal(n as nat)),
                        ("sample_seed"@, sample_seed(*f, index as nat, n as nat)),
                        ("bindings"@, bindings_text(pv, vars_view(b@))),
                    ].push(("actual"@, t@)));
                }
                push_report(diags, d, Ghost(finding_of(d)));
                return;
            },
            Err(m) => {
                let mut data: Vec<(String, String)> = Vec::new();
                data.push(pair("property", expr.as_str()));
                let pi = crate::text::usize_text(index);
                data.push(pair("property_index", pi.as_str()));
                let si = crate::text::usize_text(n);
                data.push(pair("sample_index", si.as_str()));
                let seed = sample_seed_text(f, index, n);
                data.push(pair("sample_seed", seed.as_str()));
                let bt = bindings_line(&vars, &b);
                data.push(pair("bindings", bt.as_str()));
                let d = error_report("PropertyEvaluationError", m.as_str(), f, data, None);
                proof {
                    assert(pair_views(data@) =~= seq![
                        ("property"@, expr@),
                        ("property_index"@, crate::text::decimal(index as nat)),
                        ("sample_index"@, crate::text::decimal(n as nat)),
                        ("sample_seed"@, sample_seed(*f, index as nat, n as nat)),
                        ("bindings"@, bindings_text(pv, vars_view(b@))),
                    ]);
                }
                push_report(diags, d, Ghost(finding_of(d)));
                return;
            },
        }
        i += 1;
    }
    proof {
        lemma_appended_nothing(diags@);
    }
}

proof fn lemma_block_ranges(lines: Seq<Seq<char>>, i: int)
    requires
        0 <= i,
    ensures
        forall|k: int|
            0 <= k < crate::patch::block_ranges(lines, i).len() ==> {
                let r = #[trigger] crate::patch::block_ranges(lines, i)[k];
                &&& i <= r.0
                &&& r.1 == r.0 + 1
                &&& r.1 < lines.len()
                &&& crate::patch::is_header(lines[r.0])
            },
    decreases lines.len() - i,
{
    if i < lines.len() {
        let br = crate::patch::block_ranges(lines, i);
        if crate::patch::is_header(lines[i]) {
            if i + 1 < lines.len() {
                lemma_block_ranges(lines, i + 2);
                let rest = crate::patch::block_ranges(lines, i + 2);
                assert(br == seq![(i, i + 1)] + rest);
                assert forall|k: int| 0 <= k < br.len() implies {
                    let r = #[trigger] br[k];
                    &&& i <= r.0
                    &&& r.1 == r.0 + 1
                    &&& r.1 < lines.len()
                    &&& crate::patch::is_header(lines[r.0])
                } by {
                    if k > 0 {
                        assert(br[k] == rest[k - 1]);
                    }
                }
            } else {
                assert(br.len() == 0);
            }
        } else {
            lemma_block_ranges(lines, i + 1);
            assert(br == crate::patch::block_ranges(lines, i + 1));
        }
    }
}

fn properties_run(ev: &mut Evaluator, f: &Function, diags: &mut Vec<Diagnostic>)
    ensures
        final(ev)@ == old(ev)@,
        crate::checks::appended(
            final(diags)@,
            old(diags)@,
            properties_findings(
                old(ev)@,
                *f,
                crate::patch::block_ranges(crate::patch::texts(f.properties@), 0).len() as int,
            ),
        ),
{
    let rs = crate::patch::property_block_ranges(&f.properties);
    let ghost lines = crate::patch::texts(f.properties@);
    let ghost br = crate::patch::block_ranges(lines, 0);
    proof {
        lemma_block_ranges(lines, 0);
        lemma_appended_nothing(diags@);
    }
    let ghost e = ev@;
    let ghost d0 = diags@;
    let mut n: usize = 0;
    while n < rs.len()
        invariant
            n <= rs@.len(),
            rs@.len() == br.len(),
            lines == crate::patch::texts(f.properties@),
            lines.len() == f.properties@.len(),
            br == crate::patch::block_ranges(lines, 0),
            forall|k: int| 0 <= k < rs@.len() ==> (#[trigger] rs@[k]).0 as int == br[k].0 && rs@[k].1 as int == br[k].1,
            forall|k: int|
                0 <= k < br.len() ==> {
                    let r = #[trigger] br[k];
                    &&& 0 <= r.0
                    &&& r.1 == r.0 + 1
                    &&& r.1 < lines.len()
                    &&& crate::patch::is_header(lines[r.0])
                },
            ev@ == e,
            e == old(ev)@,
            crate::checks::appended(diags@, d0, properties_findings(e, *f, n as int)),
            d0 == old(diags)@,
        decreases rs@.len() - n,
    {
        let (a, b) = rs[n];
        assert(br[n as int].0 == a && br[n as int].1 == b);
        assert(lines[a as int] == f.properties@[a as int]@);
        assert(lines[b as int] == f.properties@[b as int]@);
        let ghost d1 = diags@;
        property_run(ev, f, n + 1, &f.properties[a], &f.properties[b], diags);
        proof {
            crate::checks::lemma_appended_trans(
                d1,
                diags@,
                d0,
                properties_findings(e, *f, n as int),
                property_findings(e, *f, (n + 1) as nat, lines[a as int], lines[b as int]),
            );
        }
        n += 1;
    }
}


/// Samples the `index`th property (counted from one) of `function`: its variables take
/// every combination of their types' bootstrap samples, in order, until one makes the
/// property evaluate to anything but `true`; that one is reported. A property over a type
/// without samples is reported as not executable.
pub fn check_property(function: &Function, program: &crate::model::Program, index: usize) -> (res: Vec<Diagnostic>)
    requires
        1 <= index <= crate::patch::block_ranges(crate::patch::texts(function.properties@), 0).len(),
    ensures
        exists|e: Env|
            {
                let lines = crate::patch::texts(function.properties@);
                let r = crate::patch::block_ranges(lines, 0)[index - 1];
                &&& #[trigger] evaluator_for(e, *program)
                &&& crate::checks::reports_findings(res@, property_findings(e, *function, index as nat, lines[r.0], lines[r.1]))
            },
{
    let mut ev = Evaluator::new(program.functions.as_slice(), program.types.as_slice());
    let ghost e = ev@;
    let rs = crate::patch::property_block_ranges(&function.properties);
    let ghost lines = crate::patch::texts(function.properties@);
    proof {
        lemma_block_ranges(lines, 0);
    }
    let (a, b) = rs[index - 1];
    let ghost r = crate::patch::block_ranges(lines, 0)[index - 1];
    assert(r.0 == a && r.1 == b);
    assert(lines[a as int] == function.properties@[a as int]@);
    assert(lines[b as int] == function.properties@[b as int]@);
    let mut out: Vec<Diagnostic> = Vec::new();
    property_run(&mut ev, function, index, &function.properties[a], &function.properties[b], &mut out);
    proof {
        assert(out@.skip(0) =~= out@);
        assert(evaluator_for(e, *program));
    }
    out
}
} // verus!
