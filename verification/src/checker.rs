//! Checks over a parsed program: shape, duplicates, dependencies, effects and evidence.
use vstd::prelude::*;
use vstd::string::*;

use crate::diagnostic::{
    add_command, add_prose, all_action_issues, any_error, no_repairs, push_arg, repairs_of, reports_issues, strs,
    validate_repair_actions, Diagnostic, Severity,
};
use crate::checks::{
    ambiguity_findings, appended, check_ambiguous_unqualified_calls, check_duplicate_intents,
    check_duplicate_symbols, check_effects, check_function_shape, check_module_dependencies,
    check_repeated_evidence, declared_findings, duplicate_symbol_findings, effects_scan, has_hole,
    inferred_findings, intent_items, lemma_appended_trans, near_warnings_ok, repeated_evidence_findings,
    reports_findings, reports_items, shape_findings, Finding,
};
use crate::evaluator::Env;
use crate::evidence::{capped, evaluator_for, evidence_findings};
use crate::intrinsics::is_intrinsic_list;
use crate::model::{symbol_text, target_text, Function, Program};
use crate::patch::{block_ranges, property_block_ranges, texts};
use crate::project::Architecture;
use crate::text::{owned, trim};

verus! {

#[derive(Clone, Debug)]
pub struct CheckSummary {
    pub functions: usize,
    pub examples: usize,
    pub properties: usize,
    pub contracts: usize,
    pub holes: usize,
    pub diagnostics: Vec<Diagnostic>,
}

impl Default for CheckSummary {
    fn default() -> (res: Self)
        ensures
            res.functions == 0,
            res.examples == 0,
            res.properties == 0,
            res.contracts == 0,
            res.holes == 0,
            res.diagnostics@.len() == 0,
    {
        CheckSummary {
            functions: 0,
            examples: 0,
            properties: 0,
            contracts: 0,
            holes: 0,
            diagnostics: Vec::new(),
        }
    }
}

impl CheckSummary {
    /// A check passes when no diagnostic is an error.
    pub fn ok(&self) -> (res: bool)
        ensures
            res == !any_error(self.diagnostics@),
    {
        !crate::diagnostic::has_errors(&self.diagnostics)
    }
}

/// Appends one error per structured repair action that breaks the repair-action contract.
pub fn enforce_certification_repair_action_contracts(summary: &mut CheckSummary)
    ensures
        final(summary).diagnostics@.len() >= old(summary).diagnostics@.len(),
        final(summary).diagnostics@.take(old(summary).diagnostics@.len() as int)
            == old(summary).diagnostics@,
        reports_issues(
            final(summary).diagnostics@.skip(old(summary).diagnostics@.len() as int),
            old(summary).diagnostics@,
            all_action_issues(old(summary).diagnostics@),
        ),
        final(summary).functions == old(summary).functions,
        final(summary).examples == old(summary).examples,
        final(summary).properties == old(summary).properties,
        final(summary).contracts == old(summary).contracts,
        final(summary).holes == old(summary).holes,
{
    let mut extra = validate_repair_actions(&summary.diagnostics);
    let ghost before = summary.diagnostics@;
    let ghost added = extra@;
    summary.diagnostics.append(&mut extra);
    assert(summary.diagnostics@.take(before.len() as int) =~= before);
    assert(summary.diagnostics@.skip(before.len() as int) =~= added);
}

/// The public functions whose version was defaulted, in order.
pub open spec fn unversioned(fs: Seq<Function>) -> Seq<Function>
    decreases fs.len(),
{
    if fs.len() == 0 {
        seq![]
    } else if fs.last().public && !fs.last().version_explicit {
        unversioned(fs.drop_last()).push(fs.last())
    } else {
        unversioned(fs.drop_last())
    }
}

/// `d` asks function `f` to declare its version explicitly.
pub open spec fn missing_version_report(d: Diagnostic, f: Function) -> bool {
    &&& d.severity == Severity::Error
    &&& d.code@ == "MissingExplicitVersion"@
    &&& d.message@ == "Public function `"@ + f.name@
        + "` must declare an explicit version for unattended certification."@
    &&& d.target is Some
    &&& d.target->0@ == target_text(f.source_path@, f.line as nat, f.name@)
    &&& d.data@.len() == 2
    &&& d.data@[0].0@ == "symbol"@
    &&& d.data@[0].1@ == symbol_text(f)
    &&& d.data@[1].0@ == "defaulted_version"@
    &&& d.data@[1].1@ == f.version@
    &&& repairs_of(d) == add_prose(
        add_command(
            no_repairs(),
            "Make the defaulted public version explicit"@,
            seq!["bin/serow"@, "patch"@, "set-version"@, f.source_path@, symbol_text(f), f.version@],
        ),
        "Add a `version vN` section to make public symbol identity explicit."@,
    )
}

/// Unattended certification: every public function must declare its version.
pub fn enforce_unattended_profile(program: &Program, summary: &mut CheckSummary)
    ensures
        final(summary).diagnostics@.len() == old(summary).diagnostics@.len() + unversioned(
            program.functions@,
        ).len(),
        final(summary).diagnostics@.take(old(summary).diagnostics@.len() as int)
            == old(summary).diagnostics@,
        forall|k: int|
            0 <= k < unversioned(program.functions@).len() ==> missing_version_report(
                #[trigger] final(summary).diagnostics@[old(summary).diagnostics@.len() + k],
                unversioned(program.functions@)[k],
            ),
        final(summary).functions == old(summary).functions,
        final(summary).examples == old(summary).examples,
        final(summary).properties == old(summary).properties,
        final(summary).contracts == old(summary).contracts,
        final(summary).holes == old(summary).holes,
{
    let ghost base = summary.diagnostics@;
    let fs = &program.functions;
    let mut i: usize = 0;
    while i < fs.len()
        invariant
            i <= fs@.len(),
            *fs == program.functions,
            summary.diagnostics@.len() == base.len() + unversioned(fs@.take(i as int)).len(),
            summary.diagnostics@.take(base.len() as int) == base,
            forall|k: int|
                0 <= k < unversioned(fs@.take(i as int)).len() ==> missing_version_report(
                    #[trigger] summary.diagnostics@[base.len() + k],
                    unversioned(fs@.take(i as int))[k],
                ),
            summary.functions == old(summary).functions,
            summary.examples == old(summary).examples,
            summary.properties == old(summary).properties,
            summary.contracts == old(summary).contracts,
            summary.holes == old(summary).holes,
            base == old(summary).diagnostics@,
        decreases fs@.len() - i,
    {
        let f = &fs[i];
        proof {
            assert(fs@.take(i + 1).drop_last() =~= fs@.take(i as int));
            assert(fs@.take(i + 1).last() == fs@[i as int]);
        }
        if f.public && !f.version_explicit {
            let mut message = owned("Public function `");
            message.append(f.name.as_str());
            message.append("` must declare an explicit version for unattended certification.");
            let symbol = f.symbol();
            let mut command: Vec<String> = Vec::new();
            push_arg(&mut command, owned("bin/serow"));
            push_arg(&mut command, owned("patch"));
            push_arg(&mut command, owned("set-version"));
            push_arg(&mut command, f.source_path.clone());
            push_arg(&mut command, f.symbol());
            push_arg(&mut command, owned(f.version()));
            assert(strs(command@) =~= seq!["bin/serow"@, "patch"@, "set-version"@, f.source_path@, symbol_text(*f), f.version@]);
            let d = Diagnostic::error("MissingExplicitVersion", message.as_str(), Some(f.target()))
                .with_data("symbol", symbol.as_str())
                .with_data("defaulted_version", f.version())
                .with_command_repair("Make the defaulted public version explicit", command)
                .with_repair("Add a `version vN` section to make public symbol identity explicit.");
            proof {
                assert(d.data@[0] == d.data@.take(1)[0]);
            }
            let ghost before = summary.diagnostics@;
            summary.diagnostics.push(d);
            proof {
                assert(summary.diagnostics@.take(base.len() as int) =~= before.take(base.len() as int));
                assert forall|k: int| 0 <= k < unversioned(fs@.take(i + 1)).len() implies missing_version_report(
                    #[trigger] summary.diagnostics@[base.len() + k],
                    unversioned(fs@.take(i + 1))[k],
                ) by {
                    if k < unversioned(fs@.take(i as int)).len() {
                        assert(summary.diagnostics@[base.len() + k] == before[base.len() + k]);
                    }
                }
            }
        }
        i += 1;
    }
    assert(fs@.take(fs@.len() as int) =~= fs@);
}


/// The shape and repeated-evidence findings of the first `n` functions, function by
/// function.
pub open spec fn function_findings(fs: Seq<Function>, n: int) -> Seq<Finding>
    decreases n,
{
    if n <= 0 || n > fs.len() {
        seq![]
    } else {
        function_findings(fs, n - 1) + shape_findings(fs[n - 1]) + repeated_evidence_findings(fs[n - 1])
    }
}

/// The number of functions among the first `n` whose implementation holds a typed hole.
pub open spec fn hole_count(fs: Seq<Function>, n: int) -> int
    decreases n,
{
    if n <= 0 || n > fs.len() {
        0
    } else {
        hole_count(fs, n - 1) + if has_hole(fs[n - 1]) { 1int } else { 0int }
    }
}

/// The number of examples of the first `n` functions.
pub open spec fn example_count(fs: Seq<Function>, n: int) -> int
    decreases n,
{
    if n <= 0 || n > fs.len() {
        0
    } else {
        example_count(fs, n - 1) + fs[n - 1].examples@.len()
    }
}

/// The number of property blocks of the first `n` functions.
pub open spec fn property_count(fs: Seq<Function>, n: int) -> int
    decreases n,
{
    if n <= 0 || n > fs.len() {
        0
    } else {
        property_count(fs, n - 1) + block_ranges(texts(fs[n - 1].properties@), 0).len()
    }
}

pub open spec fn joined6(
    a: Seq<Diagnostic>,
    b: Seq<Diagnostic>,
    c: Seq<Diagnostic>,
    d: Seq<Diagnostic>,
    e: Seq<Diagnostic>,
    f: Seq<Diagnostic>,
    g: Seq<Diagnostic>,
) -> Seq<Diagnostic> {
    a + b + c + d + e + f + g
}

/// What the structural check of a program reports after the parse diagnostics: forbidden
/// and undeclared module dependencies, duplicate symbols, ambiguous calls, duplicate
/// intents, each function's shape and repeated evidence, and effect problems.
pub open spec fn structural(
    ds: Seq<Diagnostic>,
    p: Program,
    parse: Seq<Diagnostic>,
    a: Architecture,
    near: Seq<Option<Diagnostic>>,
) -> bool {
    exists|ins: Seq<Function>, ins2: Seq<Function>, d1: Seq<Diagnostic>, d2: Seq<Diagnostic>, d3: Seq<Diagnostic>, d4: Seq<Diagnostic>, d5: Seq<Diagnostic>, d6: Seq<Diagnostic>|
        #![trigger is_intrinsic_list(ins), is_intrinsic_list(ins2), joined6(parse, d1, d2, d3, d4, d5, d6)]
        {
            let fs = p.functions@;
            &&& is_intrinsic_list(ins)
            &&& is_intrinsic_list(ins2)
            &&& ds == joined6(parse, d1, d2, d3, d4, d5, d6)
            &&& reports_findings(d1, declared_findings(a, p.modules@, p.modules@.len() as int) + inferred_findings(a, p, ins, fs.len() as int).0)
            &&& reports_findings(d2, duplicate_symbol_findings(fs, fs.len() as int))
            &&& reports_findings(d3, ambiguity_findings(fs, fs.len() as int).0)
            &&& reports_items(d4, intent_items(fs, near, fs.len() as int), near)
            &&& reports_findings(d5, function_findings(fs, fs.len() as int))
            &&& reports_findings(d6, effects_scan(fs, ins2, fs.len() as int).0)
        }
}

/// What the check of a program reports: the structural findings, then what the examples
/// of each function report when they are evaluated, with the preconditions and contracts
/// of their direct calls; and how many preconditions and contracts were evaluated.
pub open spec fn checked(
    res: CheckSummary,
    p: Program,
    parse: Seq<Diagnostic>,
    a: Architecture,
    near: Seq<Option<Diagnostic>>,
) -> bool {
    exists|e: Env, k: int|
        #![trigger evaluator_for(e, p), structural(res.diagnostics@.take(k), p, parse, a, near)]
        {
            &&& evaluator_for(e, p)
            &&& 0 <= k <= res.diagnostics@.len()
            &&& structural(res.diagnostics@.take(k), p, parse, a, near)
            &&& evidence_reported(res.diagnostics@.skip(k), res.contracts, e, p)
        }
}

/// The diagnostics report what the examples of the program report, and `contracts` counts
/// the preconditions and contracts evaluated.
#[verifier::opaque]
pub open spec fn evidence_reported(ds: Seq<Diagnostic>, contracts: usize, e: Env, p: Program) -> bool {
    let ev = evidence_findings(e, p.functions@, p.functions@.len() as int);
    &&& reports_findings(ds, ev.0)
    &&& contracts == capped(ev.1 as int)
}

proof fn lemma_counts_monotonic(fs: Seq<Function>, i: int, n: int)
    requires
        0 <= i <= n <= fs.len(),
    ensures
        example_count(fs, i) <= example_count(fs, n),
        property_count(fs, i) <= property_count(fs, n),
    decreases n - i,
{
    if i < n {
        lemma_counts_monotonic(fs, i, n - 1);
    }
}

proof fn lemma_split(ds: Seq<Diagnostic>, base: Seq<Diagnostic>) -> (rest: Seq<Diagnostic>)
    requires
        ds.len() >= base.len(),
        ds.take(base.len() as int) == base,
    ensures
        ds == base + rest,
        rest == ds.skip(base.len() as int),
{
    assert(ds =~= base + ds.skip(base.len() as int));
    ds.skip(base.len() as int)
}

/// Runs the checks of a program, after the parse diagnostics, with the project's
/// architecture and the near-duplicate intent warnings found for each function (those rest
/// on floating-point scores): the structural checks, then, for each function, the
/// evaluation of every example with the preconditions and contracts of its direct call, and
/// every property sampled over the cartesian product of its variables' bootstrap samples
/// (`check_property`). The static type checks are not among them.
pub fn check_program(
    program: &Program,
    parse_diagnostics: Vec<Diagnostic>,
    architecture: &Architecture,
    near_duplicates: Vec<Option<Diagnostic>>,
) -> (res: CheckSummary)
    requires
        near_warnings_ok(program.functions@, near_duplicates@),
        program.functions@.len() < usize::MAX,
        example_count(program.functions@, program.functions@.len() as int) <= usize::MAX,
        property_count(program.functions@, program.functions@.len() as int) <= usize::MAX,
    ensures
        checked(res, *program, parse_diagnostics@, *architecture, near_duplicates@),
        res.functions == program.functions@.len(),
        res.holes == hole_count(program.functions@, program.functions@.len() as int),
        res.examples == example_count(program.functions@, program.functions@.len() as int),
        res.properties == property_count(program.functions@, program.functions@.len() as int),
{
    let ghost parse = parse_diagnostics@;
    let ghost near = near_duplicates@;
    let ghost fs = program.functions@;
    let mut diagnostics = parse_diagnostics;
    check_module_dependencies(program, architecture, &mut diagnostics);
    let ghost s1 = diagnostics@;
    check_duplicate_symbols(program, &mut diagnostics);
    let ghost s2 = diagnostics@;
    check_ambiguous_unqualified_calls(program, &mut diagnostics);
    let ghost s3 = diagnostics@;
    check_duplicate_intents(program, near_duplicates, &mut diagnostics);
    let ghost s4 = diagnostics@;
    let mut holes: usize = 0;
    let mut examples: usize = 0;
    let mut properties: usize = 0;
    let mut i: usize = 0;
    assert(diagnostics@.skip(s4.len() as int) =~= Seq::<Diagnostic>::empty());
    assert(diagnostics@.take(s4.len() as int) =~= s4);
    while i < program.functions.len()
        invariant
            i <= fs.len(),
            fs == program.functions@,
            fs.len() < usize::MAX,
            holes == hole_count(fs, i as int),
            holes <= i,
            examples == example_count(fs, i as int),
            properties == property_count(fs, i as int),
            example_count(fs, fs.len() as int) <= usize::MAX,
            property_count(fs, fs.len() as int) <= usize::MAX,
            appended(diagnostics@, s4, function_findings(fs, i as int)),
        decreases fs.len() - i,
    {
        let f = &program.functions[i];
        let ghost before = diagnostics@;
        check_function_shape(f, &mut diagnostics, &mut holes);
        let ghost mid = diagnostics@;
        check_repeated_evidence(f, &mut diagnostics);
        proof {
            lemma_appended_trans(before, mid, s4, function_findings(fs, i as int), shape_findings(fs[i as int]));
            lemma_appended_trans(mid, diagnostics@, s4, function_findings(fs, i as int) + shape_findings(fs[i as int]), repeated_evidence_findings(fs[i as int]));
        }
        proof {
            lemma_counts_monotonic(fs, i + 1, fs.len() as int);
        }
        examples = examples + f.examples.len();
        let ranges = property_block_ranges(&f.properties);
        properties = properties + ranges.len();
        i += 1;
    }
    let ghost s5 = diagnostics@;
    check_effects(program, &mut diagnostics);
    proof {
        let d1 = lemma_split(s1, parse);
        let d2 = lemma_split(s2, s1);
        let d3 = lemma_split(s3, s2);
        let d4 = lemma_split(s4, s3);
        let d5 = lemma_split(s5, s4);
        let d6 = lemma_split(diagnostics@, s5);
        let ins = choose|ins: Seq<Function>|
            is_intrinsic_list(ins) && #[trigger] appended(
                s1,
                parse,
                declared_findings(*architecture, program.modules@, program.modules@.len() as int)
                    + inferred_findings(*architecture, *program, ins, program.functions@.len() as int).0,
            );
        let ins2 = choose|ins: Seq<Function>|
            is_intrinsic_list(ins) && #[trigger] appended(
                diagnostics@,
                s5,
                effects_scan(program.functions@, ins, program.functions@.len() as int).0,
            );
        assert(diagnostics@ == joined6(parse, d1, d2, d3, d4, d5, d6));
        assert(reports_findings(d1, declared_findings(*architecture, program.modules@, program.modules@.len() as int) + inferred_findings(*architecture, *program, ins, fs.len() as int).0));
        assert(reports_findings(d6, effects_scan(fs, ins2, fs.len() as int).0));
        assert(structural(diagnostics@, *program, parse, *architecture, near));
    }
    let ghost s6 = diagnostics@;
    let contracts = crate::evidence::check_evidence(program, &mut diagnostics);
    let res = CheckSummary { functions: program.functions.len(), examples, properties, contracts, holes, diagnostics };
    proof {
        let e = choose|e: Env|
            {
                &&& evaluator_for(e, *program)
                &&& crate::checks::appended(
                    res.diagnostics@,
                    s6,
                    evidence_findings(e, program.functions@, program.functions@.len() as int).0,
                )
                &&& contracts as int == capped(evidence_findings(e, program.functions@, program.functions@.len() as int).1 as int)
            };
        let k = s6.len() as int;
        assert(res.diagnostics@.take(k) == s6);
        assert(evidence_reported(res.diagnostics@.skip(k), res.contracts, e, *program)) by {
            reveal(evidence_reported);
        }
        assert(structural(res.diagnostics@.take(k), *program, parse, *architecture, near));
        assert(evaluator_for(e, *program));
    }
    res
}


#[verifier::spinoff_prover]
#[verifier::rlimit(40)]
proof fn lemma_structural_first(
    ds: Seq<Diagnostic>,
    p: Program,
    parse: Seq<Diagnostic>,
    a: Architecture,
    near: Seq<Option<Diagnostic>>,
)
    requires
        structural(ds, p, parse, a, near),
    ensures
        ds.len() >= parse.len(),
        ds.take(parse.len() as int) == parse,
{
    let (ins, ins2, d1, d2, d3, d4, d5, d6) = choose|ins: Seq<Function>, ins2: Seq<Function>, d1: Seq<Diagnostic>, d2: Seq<Diagnostic>, d3: Seq<Diagnostic>, d4: Seq<Diagnostic>, d5: Seq<Diagnostic>, d6: Seq<Diagnostic>|
        #![trigger is_intrinsic_list(ins), is_intrinsic_list(ins2), joined6(parse, d1, d2, d3, d4, d5, d6)]
        {
            let fs = p.functions@;
            &&& is_intrinsic_list(ins)
            &&& is_intrinsic_list(ins2)
            &&& ds == joined6(parse, d1, d2, d3, d4, d5, d6)
            &&& reports_findings(d1, declared_findings(a, p.modules@, p.modules@.len() as int) + inferred_findings(a, p, ins, fs.len() as int).0)
            &&& reports_findings(d2, duplicate_symbol_findings(fs, fs.len() as int))
            &&& reports_findings(d3, ambiguity_findings(fs, fs.len() as int).0)
            &&& reports_items(d4, intent_items(fs, near, fs.len() as int), near)
            &&& reports_findings(d5, function_findings(fs, fs.len() as int))
            &&& reports_findings(d6, effects_scan(fs, ins2, fs.len() as int).0)
        };
    assert(ds == parse + (d1 + d2 + d3 + d4 + d5 + d6)) by {
        assert(joined6(parse, d1, d2, d3, d4, d5, d6) =~= parse + (d1 + d2 + d3 + d4 + d5 + d6));
    }
    assert(ds.take(parse.len() as int) =~= parse);
}

/// The check reports the parse diagnostics first, unchanged, and adds its own after them.
pub proof fn law_parse_diagnostics_first(
    res: CheckSummary,
    p: Program,
    parse: Seq<Diagnostic>,
    a: Architecture,
    near: Seq<Option<Diagnostic>>,
)
    requires
        checked(res, p, parse, a, near),
    ensures
        res.diagnostics@.len() >= parse.len(),
        res.diagnostics@.take(parse.len() as int) == parse,
{
    let (e, k) = choose|e: Env, k: int|
        #![trigger evaluator_for(e, p), structural(res.diagnostics@.take(k), p, parse, a, near)]
        {
            &&& evaluator_for(e, p)
            &&& 0 <= k <= res.diagnostics@.len()
            &&& structural(res.diagnostics@.take(k), p, parse, a, near)
            &&& evidence_reported(res.diagnostics@.skip(k), res.contracts, e, p)
        };
    let ds = res.diagnostics@.take(k);
    lemma_structural_first(ds, p, parse, a, near);
    assert(res.diagnostics@.take(parse.len() as int) =~= ds.take(parse.len() as int));
}


proof fn lemma_not_blank(s: Seq<char>, j: int)
    requires
        0 <= j < s.len(),
        !crate::text::is_ws(s[j]),
    ensures
        trim(s).len() > 0,
{
    crate::text::lemma_trim_empty_iff(s);
}

proof fn lemma_missing_in_findings(fs: Seq<Function>, n: int, i: int)
    requires
        0 <= i < n <= fs.len(),
        crate::checks::missing_findings(fs[i]).len() == 1,
    ensures
        exists|off: int|
            0 <= off < function_findings(fs, n).len() && #[trigger] function_findings(fs, n)[off]
                == crate::checks::missing_findings(fs[i])[0],
    decreases n,
{
    if n == i + 1 {
        let pre = function_findings(fs, i);
        let f = fs[i];
        let off: int = (pre.len() + crate::checks::hole_findings(f).len()) as int;
        assert(shape_findings(f) == crate::checks::hole_findings(f) + crate::checks::missing_findings(f)
            + crate::checks::unknown_param_findings(f, f.params@.len() as int) + crate::checks::return_findings(f));
        assert(function_findings(fs, n) == pre + shape_findings(f) + repeated_evidence_findings(f));
        assert(function_findings(fs, n)[off] == crate::checks::missing_findings(f)[0]);
    } else {
        lemma_missing_in_findings(fs, n - 1, i);
        let off = choose|off: int|
            0 <= off < function_findings(fs, n - 1).len() && #[trigger] function_findings(fs, n - 1)[off]
                == crate::checks::missing_findings(fs[i])[0];
        assert(function_findings(fs, n) == function_findings(fs, n - 1) + shape_findings(fs[n - 1])
            + repeated_evidence_findings(fs[n - 1]));
        assert(function_findings(fs, n)[off] == function_findings(fs, n - 1)[off]);
    }
}

/// Each finding of the functions' shape and evidence is among the diagnostics of a check.
#[verifier::spinoff_prover]
#[verifier::rlimit(40)]
proof fn lemma_function_finding_reported(
    res: CheckSummary,
    p: Program,
    parse: Seq<Diagnostic>,
    a: Architecture,
    near: Seq<Option<Diagnostic>>,
    off: int,
)
    requires
        checked(res, p, parse, a, near),
        0 <= off < function_findings(p.functions@, p.functions@.len() as int).len(),
    ensures
        exists|k: int|
            0 <= k < res.diagnostics@.len() && (#[trigger] res.diagnostics@[k]).target is Some
                && crate::checks::finding_of(res.diagnostics@[k]) == function_findings(p.functions@, p.functions@.len() as int)[off],
{
    let fs = p.functions@;
    let (e, k0) = choose|e: Env, k: int|
        #![trigger evaluator_for(e, p), structural(res.diagnostics@.take(k), p, parse, a, near)]
        {
            &&& evaluator_for(e, p)
            &&& 0 <= k <= res.diagnostics@.len()
            &&& structural(res.diagnostics@.take(k), p, parse, a, near)
            &&& evidence_reported(res.diagnostics@.skip(k), res.contracts, e, p)
        };
    let ds = res.diagnostics@.take(k0);
    let (ins, ins2, d1, d2, d3, d4, d5, d6) = choose|ins: Seq<Function>, ins2: Seq<Function>, d1: Seq<Diagnostic>, d2: Seq<Diagnostic>, d3: Seq<Diagnostic>, d4: Seq<Diagnostic>, d5: Seq<Diagnostic>, d6: Seq<Diagnostic>|
        #![trigger is_intrinsic_list(ins), is_intrinsic_list(ins2), joined6(parse, d1, d2, d3, d4, d5, d6)]
        {
            &&& is_intrinsic_list(ins)
            &&& is_intrinsic_list(ins2)
            &&& ds == joined6(parse, d1, d2, d3, d4, d5, d6)
            &&& reports_findings(d1, declared_findings(a, p.modules@, p.modules@.len() as int) + inferred_findings(a, p, ins, fs.len() as int).0)
            &&& reports_findings(d2, duplicate_symbol_findings(fs, fs.len() as int))
            &&& reports_findings(d3, ambiguity_findings(fs, fs.len() as int).0)
            &&& reports_items(d4, intent_items(fs, near, fs.len() as int), near)
            &&& reports_findings(d5, function_findings(fs, fs.len() as int))
            &&& reports_findings(d6, effects_scan(fs, ins2, fs.len() as int).0)
        };
    let base: int = (parse.len() + d1.len() + d2.len() + d3.len() + d4.len()) as int;
    let kk = base + off;
    assert(d5.len() == function_findings(fs, fs.len() as int).len());
    assert(ds.len() == base + d5.len() + d6.len());
    assert(ds.len() == k0);
    assert(kk < k0);
    assert(ds[kk] == d5[off]);
    assert(res.diagnostics@[kk] == ds[kk]);
    assert(res.diagnostics@[kk].target is Some);
}

proof fn lemma_examples_missing(f: Function)
    requires
        f.examples@.len() == 0,
    ensures
        crate::checks::missing_sections(f).contains("examples"@),
{
    let ms = crate::checks::missing_sections(f);
    let pre = (if f.intent is None { seq!["intent"@] } else { seq![] }) + (if f.requires@.len() == 0
        && f.contracts@.len() == 0 {
        seq!["contract"@]
    } else {
        seq![]
    });
    assert(ms[pre.len() as int] == "examples"@);
}

/// The sections that a function is reported missing are exactly those it lacks: its
/// intent, a contract (no precondition and no postcondition), its examples, properties,
/// effects and implementation.
#[verifier::spinoff_prover]
#[verifier::rlimit(40)]
pub proof fn law_missing_sections_exact(f: Function)
    ensures
        crate::checks::missing_sections(f).contains("intent"@) <==> f.intent is None,
        crate::checks::missing_sections(f).contains("contract"@) <==> (f.requires@.len() == 0 && f.contracts@.len() == 0),
        crate::checks::missing_sections(f).contains("examples"@) <==> f.examples@.len() == 0,
        crate::checks::missing_sections(f).contains("properties"@) <==> f.properties@.len() == 0,
        crate::checks::missing_sections(f).contains("effects"@) <==> f.effects@.len() == 0,
        crate::checks::missing_sections(f).contains("impl"@) <==> f.implementation is None,
        crate::checks::missing_findings(f).len() > 0 <==> (f.public && crate::checks::missing_sections(f).len() > 0),
{
    reveal_strlit("intent");
    reveal_strlit("contract");
    reveal_strlit("examples");
    reveal_strlit("properties");
    reveal_strlit("effects");
    reveal_strlit("impl");
    let s1 = slot(f.intent is None, "intent"@);
    let s2 = slot(f.requires@.len() == 0 && f.contracts@.len() == 0, "contract"@);
    let s3 = slot(f.examples@.len() == 0, "examples"@);
    let s4 = slot(f.properties@.len() == 0, "properties"@);
    let s5 = slot(f.effects@.len() == 0, "effects"@);
    let s6 = slot(f.implementation is None, "impl"@);
    assert(crate::checks::missing_sections(f) == s1 + s2 + s3 + s4 + s5 + s6);
    let ms = crate::checks::missing_sections(f);
    assert forall|x: Seq<char>| #![trigger ms.contains(x)] ms.contains(x) <==> (
        s1.contains(x) || s2.contains(x) || s3.contains(x) || s4.contains(x) || s5.contains(x) || s6.contains(x)
    ) by {
        lemma_contains_concat(s1, s2, x);
        lemma_contains_concat(s1 + s2, s3, x);
        lemma_contains_concat(s1 + s2 + s3, s4, x);
        lemma_contains_concat(s1 + s2 + s3 + s4, s5, x);
        lemma_contains_concat(s1 + s2 + s3 + s4 + s5, s6, x);
    }
    let n1 = "intent"@;
    let n2 = "contract"@;
    let n3 = "examples"@;
    let n4 = "properties"@;
    let n5 = "effects"@;
    let n6 = "impl"@;
    assert(n1 != n2 && n1 != n3 && n1 != n4 && n1 != n5 && n1 != n6) by {
        assert(n1[0] != n2[0] && n1[0] != n3[0] && n1[0] != n4[0] && n1[0] != n5[0] && n1[2] != n6[2]);
    }
    assert(n2 != n3 && n2 != n4 && n2 != n5 && n2 != n6) by {
        assert(n2[0] != n3[0] && n2[0] != n4[0] && n2[0] != n5[0] && n2[0] != n6[0]);
    }
    assert(n3 != n4 && n3 != n5 && n3 != n6) by {
        assert(n3[0] != n4[0] && n3[1] != n5[1] && n3[0] != n6[0]);
    }
    assert(n4 != n5 && n4 != n6 && n5 != n6) by {
        assert(n4[0] != n5[0] && n4[0] != n6[0] && n5[0] != n6[0]);
    }
    let xs = seq![n1, n2, n3, n4, n5, n6];
    assert forall|k: int| 0 <= k < 6 implies {
        let x = #[trigger] xs[k];
        &&& (s1.contains(x) <==> (f.intent is None && n1 == x))
        &&& (s2.contains(x) <==> (f.requires@.len() == 0 && f.contracts@.len() == 0 && n2 == x))
        &&& (s3.contains(x) <==> (f.examples@.len() == 0 && n3 == x))
        &&& (s4.contains(x) <==> (f.properties@.len() == 0 && n4 == x))
        &&& (s5.contains(x) <==> (f.effects@.len() == 0 && n5 == x))
        &&& (s6.contains(x) <==> (f.implementation is None && n6 == x))
    } by {
        let x = xs[k];
        lemma_slot(f.intent is None, n1, x);
        lemma_slot(f.requires@.len() == 0 && f.contracts@.len() == 0, n2, x);
        lemma_slot(f.examples@.len() == 0, n3, x);
        lemma_slot(f.properties@.len() == 0, n4, x);
        lemma_slot(f.effects@.len() == 0, n5, x);
        lemma_slot(f.implementation is None, n6, x);
    }
    assert(xs[0] == n1 && xs[1] == n2 && xs[2] == n3 && xs[3] == n4 && xs[4] == n5 && xs[5] == n6);
}

proof fn lemma_slot(c: bool, name: Seq<char>, x: Seq<char>)
    ensures
        slot(c, name).contains(x) <==> (c && name == x),
{
    if c && name == x {
        assert(slot(c, name)[0] == x);
    }
}

/// One section name when `missing`, none otherwise.
pub open spec fn slot(missing: bool, name: Seq<char>) -> Seq<Seq<char>> {
    if missing {
        seq![name]
    } else {
        seq![]
    }
}

proof fn lemma_contains_concat(a: Seq<Seq<char>>, b: Seq<Seq<char>>, x: Seq<char>)
    ensures
        (a + b).contains(x) <==> (a.contains(x) || b.contains(x)),
{
    if (a + b).contains(x) {
        let j = choose|j: int| 0 <= j < (a + b).len() && (a + b)[j] == x;
        if j < a.len() {
            assert(a[j] == x);
        } else {
            assert(b[j - a.len()] == x);
        }
    }
    if a.contains(x) {
        let j = choose|j: int| 0 <= j < a.len() && a[j] == x;
        assert((a + b)[j] == x);
    }
    if b.contains(x) {
        let j = choose|j: int| 0 <= j < b.len() && b[j] == x;
        assert((a + b)[a.len() + j] == x);
    }
}

/// A public function without examples never checks clean: the check reports an error aimed
/// at it, coded `MissingRequiredSection`, whose first datum `missing` lists the missing
/// sections, `examples` among them, separated by commas.
/// The sections that a `missing` datum lists are exactly those a function lacks.
pub open spec fn lists_missing(parts: Seq<Seq<char>>, f: Function) -> bool {
    &&& (parts.contains("intent"@) <==> f.intent is None)
    &&& (parts.contains("contract"@) <==> (f.requires@.len() == 0 && f.contracts@.len() == 0))
    &&& (parts.contains("examples"@) <==> f.examples@.len() == 0)
    &&& (parts.contains("properties"@) <==> f.properties@.len() == 0)
    &&& (parts.contains("effects"@) <==> f.effects@.len() == 0)
    &&& (parts.contains("impl"@) <==> f.implementation is None)
}

/// A public function that lacks a required section never checks clean: the check reports
/// an error aimed at it, coded `MissingRequiredSection`, whose first datum `missing` lists,
/// separated by commas, exactly the sections it lacks.
#[verifier::spinoff_prover]
#[verifier::rlimit(40)]
pub proof fn law_missing_sections_reported(
    res: CheckSummary,
    p: Program,
    parse: Seq<Diagnostic>,
    a: Architecture,
    near: Seq<Option<Diagnostic>>,
    i: int,
)
    requires
        checked(res, p, parse, a, near),
        0 <= i < p.functions@.len(),
        p.functions@[i].public,
        crate::checks::missing_sections(p.functions@[i]).len() > 0,
    ensures
        exists|k: int|
            0 <= k < res.diagnostics@.len() && {
                let d = #[trigger] res.diagnostics@[k];
                &&& d.severity == Severity::Error
                &&& d.code@ == "MissingRequiredSection"@
                &&& d.target is Some
                &&& d.target->0@ == crate::checks::target_of(p.functions@[i])
                &&& crate::patch::data_texts(d).len() > 0
                &&& crate::patch::data_texts(d)[0].0 == "missing"@
                &&& exists|parts: Seq<Seq<char>>|
                    crate::text::join_spec(parts, ", "@) == crate::patch::data_texts(d)[0].1 && #[trigger] lists_missing(
                        parts,
                        p.functions@[i],
                    )
            },
{
    let fs = p.functions@;
    let f = fs[i];
    let ms = crate::checks::missing_sections(f);
    law_missing_sections_exact(f);
    assert(lists_missing(ms, f));
    assert(crate::checks::missing_findings(f).len() == 1);
    lemma_missing_in_findings(fs, fs.len() as int, i);
    let off = choose|off: int|
        0 <= off < function_findings(fs, fs.len() as int).len() && #[trigger] function_findings(fs, fs.len() as int)[off]
            == crate::checks::missing_findings(f)[0];
    lemma_function_finding_reported(res, p, parse, a, near, off);
    let k = choose|k: int|
        0 <= k < res.diagnostics@.len() && (#[trigger] res.diagnostics@[k]).target is Some
            && crate::checks::finding_of(res.diagnostics@[k]) == function_findings(fs, fs.len() as int)[off];
    let d = res.diagnostics@[k];
    assert(crate::patch::data_texts(d)[0] == ("missing"@, crate::text::join_spec(ms, ", "@)));
    assert(crate::text::join_spec(ms, ", "@) == crate::patch::data_texts(d)[0].1 && lists_missing(ms, f));
}

#[verifier::spinoff_prover]
#[verifier::rlimit(40)]
pub proof fn law_missing_examples_reported(
    res: CheckSummary,
    p: Program,
    parse: Seq<Diagnostic>,
    a: Architecture,
    near: Seq<Option<Diagnostic>>,
    i: int,
)
    requires
        checked(res, p, parse, a, near),
        0 <= i < p.functions@.len(),
        p.functions@[i].public,
        p.functions@[i].examples@.len() == 0,
    ensures
        exists|k: int|
            0 <= k < res.diagnostics@.len() && {
                let d = #[trigger] res.diagnostics@[k];
                &&& d.severity == Severity::Error
                &&& d.code@ == "MissingRequiredSection"@
                &&& d.target is Some
                &&& d.target->0@ == crate::checks::target_of(p.functions@[i])
                &&& crate::patch::data_texts(d).len() > 0
                &&& crate::patch::data_texts(d)[0].0 == "missing"@
                &&& exists|parts: Seq<Seq<char>>|
                    crate::text::join_spec(parts, ", "@) == crate::patch::data_texts(d)[0].1 && #[trigger] parts.contains(
                        "examples"@,
                    )
            },
{
    let fs = p.functions@;
    let f = fs[i];
    let ms = crate::checks::missing_sections(f);
    lemma_examples_missing(f);
    assert(ms.len() > 0);
    assert(crate::checks::missing_findings(f).len() == 1);
    lemma_missing_in_findings(fs, fs.len() as int, i);
    let off = choose|off: int|
        0 <= off < function_findings(fs, fs.len() as int).len() && #[trigger] function_findings(fs, fs.len() as int)[off]
            == crate::checks::missing_findings(f)[0];
    lemma_function_finding_reported(res, p, parse, a, near, off);
    let k = choose|k: int|
        0 <= k < res.diagnostics@.len() && (#[trigger] res.diagnostics@[k]).target is Some
            && crate::checks::finding_of(res.diagnostics@[k]) == function_findings(fs, fs.len() as int)[off];
    let d = res.diagnostics@[k];
    assert(crate::patch::data_texts(d)[0] == ("missing"@, crate::text::join_spec(ms, ", "@)));
    assert(crate::text::join_spec(ms, ", "@) == crate::patch::data_texts(d)[0].1 && ms.contains("examples"@));
}

proof fn lemma_no_action_issues(d: int, actions: Seq<crate::diagnostic::RepairAction>)
    requires
        forall|k: int| 0 <= k < actions.len() ==> crate::diagnostic::repair_issue(#[trigger] actions[k]) is None,
    ensures
        crate::diagnostic::action_issues(d, actions).len() == 0,
    decreases actions.len(),
{
    if actions.len() > 0 {
        lemma_no_action_issues(d, actions.drop_last());
        assert(actions.last() == actions[actions.len() - 1]);
    }
}

/// Every repair action that the unattended profile adds, one report per function without
/// an explicit version, passes the repair-action check, when the source paths and versions
/// of those functions are not blank.
pub proof fn law_unattended_list_valid(added: Seq<Diagnostic>, fs: Seq<Function>)
    requires
        added.len() == unversioned(fs).len(),
        forall|k: int| 0 <= k < added.len() ==> missing_version_report(#[trigger] added[k], unversioned(fs)[k]),
        forall|k: int|
            0 <= k < unversioned(fs).len() ==> trim((#[trigger] unversioned(fs)[k]).source_path@).len() > 0
                && trim(unversioned(fs)[k].version@).len() > 0,
    ensures
        crate::diagnostic::all_action_issues(added).len() == 0,
{
    lemma_reports_valid(added, unversioned(fs));
}

proof fn lemma_reports_valid(added: Seq<Diagnostic>, us: Seq<Function>)
    requires
        added.len() == us.len(),
        forall|k: int| 0 <= k < added.len() ==> missing_version_report(#[trigger] added[k], us[k]),
        forall|k: int| 0 <= k < us.len() ==> trim((#[trigger] us[k]).source_path@).len() > 0 && trim(us[k].version@).len() > 0,
    ensures
        crate::diagnostic::all_action_issues(added).len() == 0,
    decreases added.len(),
{
    if added.len() > 0 {
        let n = added.len() - 1;
        lemma_reports_valid(added.drop_last(), us.drop_last());
        assert(missing_version_report(added[n], us[n]));
        assert(trim(us[n].source_path@).len() > 0 && trim(us[n].version@).len() > 0);
        law_unattended_repairs_valid(added[n], us[n]);
        lemma_no_action_issues(n, added[n].repair_actions@);
        assert(added.last() == added[n]);
    }
}

/// The repair action that the unattended profile attaches to a function without an
/// explicit version passes the repair-action check, when the function's source path and
/// version are not blank.
pub proof fn law_unattended_repairs_valid(d: Diagnostic, f: Function)
    requires
        missing_version_report(d, f),
        trim(f.source_path@).len() > 0,
        trim(f.version@).len() > 0,
    ensures
        forall|k: int| 0 <= k < d.repair_actions@.len() ==> crate::diagnostic::repair_issue(#[trigger] d.repair_actions@[k]) is None,
        crate::diagnostic::all_action_issues(seq![d]).len() == 0,
{
    reveal_strlit("bin/serow");
    reveal_strlit("patch");
    reveal_strlit("set-version");
    reveal_strlit("command");
    reveal_strlit("@");
    reveal_strlit("Make the defaulted public version explicit");
    let cmd = seq!["bin/serow"@, "patch"@, "set-version"@, f.source_path@, symbol_text(f), f.version@];
    assert(d.repair_actions@.len() == 1) by {
        assert(repairs_of(d).1.len() == d.repair_actions@.len());
    }
    let a = d.repair_actions@[0];
    assert(repairs_of(d).1[0] == crate::diagnostic::action_view(a));
    assert(a.kind@ == "command"@);
    assert(strs(a.command@) == cmd);
    let c = a.command@;
    assert(c.len() == 6);
    assert forall|k: int| 0 <= k < c.len() implies trim(#[trigger] c[k]@).len() > 0 by {
        assert(c[k]@ == cmd[k]);
        if k == 0 {
            lemma_not_blank(cmd[0], 0);
        } else if k == 1 {
            lemma_not_blank(cmd[1], 0);
        } else if k == 2 {
            lemma_not_blank(cmd[2], 0);
        } else if k == 4 {
            assert(symbol_text(f)[0] == '@');
            lemma_not_blank(cmd[4], 0);
        }
    }
    lemma_not_blank("Make the defaulted public version explicit"@, 0);
    assert(a.label@ == "Make the defaulted public version explicit"@);
    assert(c[0]@ == "bin/serow"@);
    assert(c[1]@ == "patch"@);
    assert(c[2]@ == "set-version"@);
    assert(crate::diagnostic::patch_subcommands().contains("set-version"@));
    let i = choose|i: int| 0 <= i < crate::diagnostic::patch_subcommands().len() && crate::diagnostic::patch_subcommands()[i] == "set-version"@;
    assert(crate::diagnostic::listed(crate::diagnostic::patch_subcommands(), c[2]@));
    assert(crate::diagnostic::repair_issue(a) is None);
    assert(d.repair_actions@.drop_last().len() == 0);
    assert(crate::diagnostic::action_issues(0, d.repair_actions@).len() == 0) by {
        assert(d.repair_actions@.last() == a);
        assert(crate::diagnostic::action_issues(0, d.repair_actions@.drop_last()).len() == 0);
    }
    assert(seq![d].drop_last() =~= Seq::<Diagnostic>::empty());
    assert(seq![d].last() == d);
    assert(crate::diagnostic::all_action_issues(Seq::<Diagnostic>::empty()).len() == 0);
    assert(crate::diagnostic::all_action_issues(seq![d]) == crate::diagnostic::all_action_issues(seq![d].drop_last())
        + crate::diagnostic::action_issues(0, seq![d].last().repair_actions@));
}

} // verus!
