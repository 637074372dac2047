//! The structural checks of a program: duplicate symbols, the shape of each function,
//! repeated evidence, calls, module dependencies and effects.
use vstd::prelude::*;
use vstd::string::*;

use crate::diagnostic::{
    add_command, add_prose, no_repairs, push_arg, repairs_of, strs, Diagnostic, Repairs, Severity,
};
use crate::model::{join2, symbol_text, target_text, Function, Module, Program};
use crate::project::{dependency_allowed, may_depend, policy_of, Architecture, ModulePolicy};
use crate::calls::{call_is, calls_are, fn_calls, fn_exprs, function_expressions, pair_texts, resolved_calls, CallSpec};
use crate::eval::{call_names, called_functions, parsed_reference, reference_parts};
use crate::ledger::{intent_key, intent_terms, intent_words, normalized_words};
use crate::intrinsics::{intrinsic_functions, is_intrinsic_list};
use crate::patch::{block_ranges, data_texts, is_header, property_block_ranges, texts};
use crate::text::{
    chars_of, contains_seq, decimal, find_char, find_from, is_ws, join_spec, join_strings,
    lemma_find_from, owned, starts_with, slice_chars, split_chars, split_spec, str_eq, string_of, trim,
    trim_chars, trim_str, usize_text, whitespace, insert_sorted_unique, join_chars, lemma_sorted_of,
    sorted_of, strictly_sorted, views,
};

verus! {

/// A diagnostic as the checks report it: severity, code, message, target, data, and the
/// prose repairs with the runnable repair actions.
pub type Finding = (Severity, Seq<char>, Seq<char>, Seq<char>, Seq<(Seq<char>, Seq<char>)>, Repairs);

pub open spec fn finding_of(d: Diagnostic) -> Finding {
    (d.severity, d.code@, d.message@, d.target->0@, data_texts(d), repairs_of(d))
}

/// The diagnostics report the findings, one each, in order.
pub open spec fn reports_findings(ds: Seq<Diagnostic>, fs: Seq<Finding>) -> bool {
    &&& ds.len() == fs.len()
    &&& forall|k: int| 0 <= k < ds.len() ==> (#[trigger] ds[k]).target is Some && finding_of(ds[k]) == fs[k]
}

pub open spec fn target_of(f: Function) -> Seq<char> {
    target_text(f.source_path@, f.line as nat, f.name@)
}

/// `ds` is `base` followed by diagnostics that report `fs`.
pub open spec fn appended(ds: Seq<Diagnostic>, base: Seq<Diagnostic>, fs: Seq<Finding>) -> bool {
    &&& ds.len() == base.len() + fs.len()
    &&& ds.take(base.len() as int) == base
    &&& reports_findings(ds.skip(base.len() as int), fs)
}

pub proof fn lemma_appended_push(ds: Seq<Diagnostic>, base: Seq<Diagnostic>, fs: Seq<Finding>, d: Diagnostic, f: Finding)
    requires
        appended(ds, base, fs),
        d.target is Some,
        finding_of(d) == f,
    ensures
        appended(ds.push(d), base, fs.push(f)),
{
    assert(ds.push(d).take(base.len() as int) =~= ds.take(base.len() as int));
    assert(ds.push(d).skip(base.len() as int) =~= ds.skip(base.len() as int).push(d));
}

pub proof fn lemma_appended_concat(ds: Seq<Diagnostic>, base: Seq<Diagnostic>, fs: Seq<Finding>, more: Seq<Diagnostic>, gs: Seq<Finding>)
    requires
        appended(ds, base, fs),
        reports_findings(more, gs),
    ensures
        appended(ds + more, base, fs + gs),
{
    assert((ds + more).take(base.len() as int) =~= ds.take(base.len() as int));
    assert((ds + more).skip(base.len() as int) =~= ds.skip(base.len() as int) + more);
    let all = (ds + more).skip(base.len() as int);
    assert forall|k: int| 0 <= k < all.len() implies (#[trigger] all[k]).target is Some && finding_of(all[k]) == (fs + gs)[k] by {
        if k < fs.len() {
            assert(all[k] == ds.skip(base.len() as int)[k]);
        } else {
            assert(all[k] == more[k - fs.len()]);
        }
    }
}

// ---------------------------------------------------------------------------
// Duplicate symbols
// ---------------------------------------------------------------------------
/// The index of the first function with symbol `sym`, or the length.
pub open spec fn first_symbol(fs: Seq<Function>, sym: Seq<char>, i: int) -> int
    decreases fs.len() - i,
{
    if i < 0 || i >= fs.len() {
        fs.len() as int
    } else if symbol_text(fs[i]) == sym {
        i
    } else {
        first_symbol(fs, sym, i + 1)
    }
}

/// One error for each function whose symbol an earlier function already has.
pub open spec fn duplicate_symbol_findings(fs: Seq<Function>, n: int) -> Seq<Finding>
    decreases n,
{
    if n <= 0 || n > fs.len() {
        seq![]
    } else {
        let rest = duplicate_symbol_findings(fs, n - 1);
        let f = fs[n - 1];
        let first = first_symbol(fs, symbol_text(f), 0);
        if first < n - 1 {
            rest.push(
                (
                    Severity::Error,
                    "DuplicateSymbol"@,
                    "Duplicate public symbol `"@ + symbol_text(f) + "`."@,
                    target_of(f),
                    seq![("first"@, target_of(fs[first]))],
                    add_prose(no_repairs(), "Rename one function or move it to a different module."@),
                ),
            )
        } else {
            rest
        }
    }
}

proof fn lemma_first_symbol(fs: Seq<Function>, sym: Seq<char>, i: int)
    requires
        0 <= i <= fs.len(),
    ensures
        i <= first_symbol(fs, sym, i) <= fs.len(),
        first_symbol(fs, sym, i) < fs.len() ==> symbol_text(fs[first_symbol(fs, sym, i)]) == sym,
        forall|j: int| i <= j < first_symbol(fs, sym, i) ==> symbol_text(#[trigger] fs[j]) != sym,
    decreases fs.len() - i,
{
    if i < fs.len() && symbol_text(fs[i]) != sym {
        lemma_first_symbol(fs, sym, i + 1);
    }
}

/// Reports each function whose symbol repeats an earlier one.
pub fn check_duplicate_symbols(program: &Program, diagnostics: &mut Vec<Diagnostic>)
    ensures
        appended(final(diagnostics)@, old(diagnostics)@, duplicate_symbol_findings(program.functions@, program.functions@.len() as int)),
{
    let ghost base = diagnostics@;
    let fs = &program.functions;
    let mut i: usize = 0;
    assert(diagnostics@.skip(base.len() as int) =~= Seq::<Diagnostic>::empty());
    assert(diagnostics@.take(base.len() as int) =~= base);
    while i < fs.len()
        invariant
            i <= fs@.len(),
            appended(diagnostics@, base, duplicate_symbol_findings(fs@, i as int)),
        decreases fs@.len() - i,
    {
        let f = &fs[i];
        let sym = f.symbol();
        proof {
            lemma_first_symbol(fs@, sym@, 0);
        }
        let mut j: usize = 0;
        while j < i
            invariant
                j <= i < fs@.len(),
                sym@ == symbol_text(fs@[i as int]),
                forall|k: int| 0 <= k < j ==> symbol_text(#[trigger] fs@[k]) != sym@,
                first_symbol(fs@, sym@, j as int) == first_symbol(fs@, sym@, 0),
            ensures
                j <= i,
                first_symbol(fs@, sym@, j as int) == first_symbol(fs@, sym@, 0),
                j < i ==> symbol_text(fs@[j as int]) == sym@,
            decreases i - j,
        {
            let s = fs[j].symbol();
            if str_eq(s.as_str(), sym.as_str()) {
                break;
            }
            j += 1;
        }
        assert(first_symbol(fs@, sym@, j as int) == j);
        assert(duplicate_symbol_findings(fs@, i + 1) == if j < i {
            duplicate_symbol_findings(fs@, i as int).push(
                (
                    Severity::Error,
                    "DuplicateSymbol"@,
                    "Duplicate public symbol `"@ + sym@ + "`."@,
                    target_of(fs@[i as int]),
                    seq![("first"@, target_of(fs@[j as int]))],
                    add_prose(no_repairs(), "Rename one function or move it to a different module."@),
                ),
            )
        } else {
            duplicate_symbol_findings(fs@, i as int)
        });
        if j < i {
            let mut m = owned("Duplicate public symbol `");
            m.append(sym.as_str());
            m.append("`.");
            let first = fs[j].target();
            let d = Diagnostic::error("DuplicateSymbol", m.as_str(), Some(f.target()))
                .with_data("first", first.as_str())
                .with_repair("Rename one function or move it to a different module.");
            proof {
                assert(data_texts(d) =~= seq![("first"@, target_of(fs@[j as int]))]);
                lemma_appended_push(diagnostics@, base, duplicate_symbol_findings(fs@, i as int), d, finding_of(d));
            }
            diagnostics.push(d);
        }
        i += 1;
    }
}


// ---------------------------------------------------------------------------
// Function shape
// ---------------------------------------------------------------------------
pub open spec fn supported_type(t: Seq<char>) -> bool {
    t == "Int"@ || t == "Bool"@ || t == "Text"@
}

pub open spec fn has_hole(f: Function) -> bool {
    f.implementation is Some && contains_seq(f.implementation->0@, "HOLE("@)
}

/// The required sections a function lacks, in the order they are listed.
pub open spec fn missing_sections(f: Function) -> Seq<Seq<char>> {
    (if f.intent is None { seq!["intent"@] } else { seq![] }) + (if f.requires@.len() == 0
        && f.contracts@.len() == 0 {
        seq!["contract"@]
    } else {
        seq![]
    }) + (if f.examples@.len() == 0 { seq!["examples"@] } else { seq![] }) + (if f.properties@.len()
        == 0 {
        seq!["properties"@]
    } else {
        seq![]
    }) + (if f.effects@.len() == 0 { seq!["effects"@] } else { seq![] }) + (if f.implementation is None {
        seq!["impl"@]
    } else {
        seq![]
    })
}

pub open spec fn unknown_param_findings(f: Function, n: int) -> Seq<Finding>
    decreases n,
{
    if n <= 0 || n > f.params@.len() {
        seq![]
    } else {
        let rest = unknown_param_findings(f, n - 1);
        let t = f.params@[n - 1].type_text@;
        if supported_type(t) {
            rest
        } else {
            rest.push(
                (
                    Severity::Warning,
                    "UnknownType"@,
                    "Type `"@ + t + "` is not executable in the bootstrap checker."@,
                    target_of(f),
                    seq![],
                    no_repairs(),
                ),
            )
        }
    }
}

/// What the shape check reports for one function: a typed hole, missing required
/// sections of a public function, and parameter and return types the checker cannot run.
pub open spec fn shape_findings(f: Function) -> Seq<Finding> {
    let t = target_of(f);
    (if has_hole(f) {
        seq![
            (
                if f.public { Severity::Error } else { Severity::Warning },
                "TypedHole"@,
                "Implementation contains a typed hole."@,
                t,
                seq![],
                add_prose(no_repairs(), "Fill the hole or keep the function out of certification."@),
            ),
        ]
    } else {
        seq![]
    }) + (if f.public && missing_sections(f).len() > 0 {
        seq![
            (
                Severity::Error,
                "MissingRequiredSection"@,
                "Public function `"@ + f.name@ + "` is missing required sections."@,
                t,
                seq![
                    ("missing"@, join_spec(missing_sections(f), ", "@)),
                    ("required"@, "intent, contract, examples, properties, effects, impl"@),
                ],
                add_prose(no_repairs(), "Add all required sections before certification."@),
            ),
        ]
    } else {
        seq![]
    }) + unknown_param_findings(f, f.params@.len() as int) + (if supported_type(f.return_type@) {
        seq![]
    } else {
        seq![
            (
                Severity::Warning,
                "UnknownType"@,
                "Return type `"@ + f.return_type@ + "` is not executable in the bootstrap checker."@,
                t,
                seq![],
                no_repairs(),
            ),
        ]
    })
}

fn supported(t: &String) -> (res: bool)
    ensures
        res == supported_type(t@),
{
    proof {
        reveal_strlit("Int");
        reveal_strlit("Bool");
        reveal_strlit("Text");
    }
    str_eq(t.as_str(), "Int") || str_eq(t.as_str(), "Bool") || str_eq(t.as_str(), "Text")
}

fn push_word(v: &mut Vec<String>, w: &str)
    ensures
        texts(final(v)@) == texts(old(v)@).push(w@),
{
    let ghost before = texts(v@);
    v.push(owned(w));
    assert(texts(v@) =~= before.push(w@));
}

pub proof fn lemma_appended_trans(ds1: Seq<Diagnostic>, ds2: Seq<Diagnostic>, base: Seq<Diagnostic>, f1: Seq<Finding>, f2: Seq<Finding>)
    requires
        appended(ds1, base, f1),
        appended(ds2, ds1, f2),
    ensures
        appended(ds2, base, f1 + f2),
{
    let more = ds2.skip(ds1.len() as int);
    assert(ds2 =~= ds1 + more) by {
        assert(ds2.take(ds1.len() as int) == ds1);
    }
    lemma_appended_concat(ds1, base, f1, more, f2);
}

pub open spec fn hole_findings(f: Function) -> Seq<Finding> {
    if has_hole(f) {
        seq![
            (
                if f.public { Severity::Error } else { Severity::Warning },
                "TypedHole"@,
                "Implementation contains a typed hole."@,
                target_of(f),
                seq![],
                add_prose(no_repairs(), "Fill the hole or keep the function out of certification."@),
            ),
        ]
    } else {
        seq![]
    }
}

pub open spec fn missing_findings(f: Function) -> Seq<Finding> {
    if f.public && missing_sections(f).len() > 0 {
        seq![
            (
                Severity::Error,
                "MissingRequiredSection"@,
                "Public function `"@ + f.name@ + "` is missing required sections."@,
                target_of(f),
                seq![
                    ("missing"@, join_spec(missing_sections(f), ", "@)),
                    ("required"@, "intent, contract, examples, properties, effects, impl"@),
                ],
                add_prose(no_repairs(), "Add all required sections before certification."@),
            ),
        ]
    } else {
        seq![]
    }
}

pub open spec fn return_findings(f: Function) -> Seq<Finding> {
    if supported_type(f.return_type@) {
        seq![]
    } else {
        seq![
            (
                Severity::Warning,
                "UnknownType"@,
                "Return type `"@ + f.return_type@ + "` is not executable in the bootstrap checker."@,
                target_of(f),
                seq![],
                no_repairs(),
            ),
        ]
    }
}

proof fn lemma_shape_parts(f: Function)
    ensures
        shape_findings(f) == hole_findings(f) + missing_findings(f) + unknown_param_findings(f, f.params@.len() as int) + return_findings(f),
{
}

fn check_hole(f: &Function, diagnostics: &mut Vec<Diagnostic>, holes: &mut usize)
    requires
        *old(holes) < usize::MAX,
    ensures
        appended(final(diagnostics)@, old(diagnostics)@, hole_findings(*f)),
        *final(holes) == *old(holes) + (if has_hole(*f) { 1int } else { 0int }),
{
    let ghost base = diagnostics@;
    assert(diagnostics@.skip(base.len() as int) =~= Seq::<Diagnostic>::empty());
    assert(diagnostics@.take(base.len() as int) =~= base);
    let hole = match &f.implementation {
        Some(i) => {
            let cs = chars_of(i.as_str());
            crate::text::contains_str(&cs, "HOLE(")
        },
        None => false,
    };
    if hole {
        *holes = *holes + 1;
        let severity = if f.public { Severity::Error } else { Severity::Warning };
        let mut repairs: Vec<String> = Vec::new();
        repairs.push(owned("Fill the hole or keep the function out of certification."));
        let d = Diagnostic {
            severity,
            code: owned("TypedHole"),
            message: owned("Implementation contains a typed hole."),
            target: Some(f.target()),
            data: Vec::new(),
            repairs,
            repair_actions: Vec::new(),
        };
        proof {
            assert(data_texts(d) =~= seq![]);
            assert(strs(d.repairs@) =~= seq!["Fill the hole or keep the function out of certification."@]);
            assert(d.repair_actions@.map_values(|a: crate::diagnostic::RepairAction| crate::diagnostic::action_view(a)) =~= Seq::<crate::diagnostic::ActionView>::empty());
            assert(repairs_of(d) == add_prose(no_repairs(), "Fill the hole or keep the function out of certification."@));
            lemma_appended_push(diagnostics@, base, seq![], d, finding_of(d));
            assert(seq![].push(finding_of(d)) =~= hole_findings(*f));
        }
        diagnostics.push(d);
    }
}

#[verifier::rlimit(40)]
fn check_missing(f: &Function, diagnostics: &mut Vec<Diagnostic>)
    ensures
        appended(final(diagnostics)@, old(diagnostics)@, missing_findings(*f)),
{
    let ghost base = diagnostics@;
    assert(diagnostics@.skip(base.len() as int) =~= Seq::<Diagnostic>::empty());
    assert(diagnostics@.take(base.len() as int) =~= base);
    if !f.public {
        return;
    }
    let mut missing: Vec<String> = Vec::new();
    if f.intent.is_none() {
        push_word(&mut missing, "intent");
    }
    if f.requires.len() == 0 && f.contracts.len() == 0 {
        push_word(&mut missing, "contract");
    }
    if f.examples.len() == 0 {
        push_word(&mut missing, "examples");
    }
    if f.properties.len() == 0 {
        push_word(&mut missing, "properties");
    }
    if f.effects.len() == 0 {
        push_word(&mut missing, "effects");
    }
    if f.implementation.is_none() {
        push_word(&mut missing, "impl");
    }
    proof {
        reveal_strlit("intent");
        reveal_strlit("contract");
        reveal_strlit("examples");
        reveal_strlit("properties");
        reveal_strlit("effects");
        reveal_strlit("impl");
        assert(texts(missing@) =~= missing_sections(*f));
    }
    if missing.len() > 0 {
        let joined = join_strings(&missing, ", ");
        let mut m = owned("Public function `");
        m.append(f.name.as_str());
        m.append("` is missing required sections.");
        let d = Diagnostic::error("MissingRequiredSection", m.as_str(), Some(f.target()))
            .with_data("missing", joined.as_str())
            .with_data("required", "intent, contract, examples, properties, effects, impl")
            .with_repair("Add all required sections before certification.");
        proof {
            assert(data_texts(d) =~= seq![("missing"@, join_spec(missing_sections(*f), ", "@)), ("required"@, "intent, contract, examples, properties, effects, impl"@)]);
            lemma_appended_push(diagnostics@, base, seq![], d, finding_of(d));
            assert(seq![].push(finding_of(d)) =~= missing_findings(*f));
        }
        diagnostics.push(d);
    }
}

fn check_types(f: &Function, diagnostics: &mut Vec<Diagnostic>)
    ensures
        appended(final(diagnostics)@, old(diagnostics)@, unknown_param_findings(*f, f.params@.len() as int) + return_findings(*f)),
{
    let ghost base = diagnostics@;
    assert(diagnostics@.skip(base.len() as int) =~= Seq::<Diagnostic>::empty());
    assert(diagnostics@.take(base.len() as int) =~= base);
    let t = f.target();
    let mut k: usize = 0;
    while k < f.params.len()
        invariant
            k <= f.params@.len(),
            t@ == target_of(*f),
            appended(diagnostics@, base, unknown_param_findings(*f, k as int)),
        decreases f.params@.len() - k,
    {
        if !supported(&f.params[k].type_text) {
            let mut m = owned("Type `");
            m.append(f.params[k].type_text.as_str());
            m.append("` is not executable in the bootstrap checker.");
            let d = Diagnostic::warning("UnknownType", m.as_str(), Some(t.clone()));
            proof {
                assert(data_texts(d) =~= seq![]);
                lemma_appended_push(diagnostics@, base, unknown_param_findings(*f, k as int), d, finding_of(d));
            }
            diagnostics.push(d);
        }
        k += 1;
    }
    let ghost s3 = unknown_param_findings(*f, f.params@.len() as int);
    if !supported(&f.return_type) {
        let mut m = owned("Return type `");
        m.append(f.return_type.as_str());
        m.append("` is not executable in the bootstrap checker.");
        let d = Diagnostic::warning("UnknownType", m.as_str(), Some(t));
        proof {
            assert(data_texts(d) =~= seq![]);
            lemma_appended_push(diagnostics@, base, s3, d, finding_of(d));
            assert(s3.push(finding_of(d)) =~= s3 + return_findings(*f));
        }
        diagnostics.push(d);
    } else {
        assert(s3 =~= s3 + return_findings(*f));
    }
}

/// Checks one function's shape; counts a typed hole.
pub fn check_function_shape(f: &Function, diagnostics: &mut Vec<Diagnostic>, holes: &mut usize)
    requires
        *old(holes) < usize::MAX,
    ensures
        appended(final(diagnostics)@, old(diagnostics)@, shape_findings(*f)),
        *final(holes) == *old(holes) + (if has_hole(*f) { 1int } else { 0int }),
{
    let ghost d0 = diagnostics@;
    check_hole(f, diagnostics, holes);
    let ghost d1 = diagnostics@;
    check_missing(f, diagnostics);
    let ghost d2 = diagnostics@;
    check_types(f, diagnostics);
    proof {
        lemma_appended_trans(d1, d2, d0, hole_findings(*f), missing_findings(*f));
        lemma_appended_trans(d2, diagnostics@, d0, hole_findings(*f) + missing_findings(*f), unknown_param_findings(*f, f.params@.len() as int) + return_findings(*f));
        lemma_shape_parts(*f);
        assert(hole_findings(*f) + missing_findings(*f) + (unknown_param_findings(*f, f.params@.len() as int) + return_findings(*f)) =~= shape_findings(*f));
    }
}


// ---------------------------------------------------------------------------
// Repeated evidence
// ---------------------------------------------------------------------------
/// Whitespace runs collapsed to one space, none at either end.
pub open spec fn collapse(s: Seq<char>, i: int, gap: bool, acc: Seq<char>) -> Seq<char>
    decreases s.len() - i,
{
    if i < 0 || i >= s.len() {
        acc
    } else if is_ws(s[i]) {
        collapse(s, i + 1, acc.len() > 0, acc)
    } else {
        collapse(s, i + 1, false, (if gap { acc.push(' ') } else { acc }).push(s[i]))
    }
}

/// The words of a text joined by single spaces.
pub open spec fn normalized_evidence(s: Seq<char>) -> Seq<char> {
    collapse(s, 0, false, seq![])
}

fn normalize_evidence(text: &String) -> (res: Vec<char>)
    ensures
        res@ == normalized_evidence(text@),
{
    let cs = chars_of(text.as_str());
    let mut acc: Vec<char> = Vec::new();
    let mut gap = false;
    let mut i: usize = 0;
    while i < cs.len()
        invariant
            i <= cs@.len(),
            cs@ == text@,
            collapse(cs@, i as int, gap, acc@) == normalized_evidence(text@),
        decreases cs@.len() - i,
    {
        let c = cs[i];
        if whitespace(c) {
            gap = acc.len() > 0;
        } else {
            if gap {
                acc.push(' ');
            }
            acc.push(c);
            gap = false;
        }
        i += 1;
    }
    acc
}

pub open spec fn duplicate_code(kind: Seq<char>) -> Seq<char> {
    if kind == "example"@ {
        "DuplicateExample"@
    } else if kind == "property"@ {
        "DuplicateProperty"@
    } else {
        "DuplicateContractClause"@
    }
}

/// The index of the first line from `i` on whose normalized text is `norm`, or the length.
pub open spec fn first_normalized(lines: Seq<Seq<char>>, norm: Seq<char>, i: int) -> int
    decreases lines.len() - i,
{
    if i < 0 || i >= lines.len() {
        lines.len() as int
    } else if normalized_evidence(lines[i]) == norm {
        i
    } else {
        first_normalized(lines, norm, i + 1)
    }
}

/// One warning for each line that repeats, once normalized, an earlier non-blank line.
pub open spec fn repeat_findings(f: Function, kind: Seq<char>, lines: Seq<Seq<char>>, n: int) -> Seq<Finding>
    decreases n,
{
    if n <= 0 || n > lines.len() {
        seq![]
    } else {
        let rest = repeat_findings(f, kind, lines, n - 1);
        let line = lines[n - 1];
        let norm = normalized_evidence(line);
        let first = first_normalized(lines, norm, 0);
        if norm.len() > 0 && first < n - 1 {
            rest.push(
                (
                    Severity::Warning,
                    duplicate_code(kind),
                    "Public function `"@ + f.name@ + "` repeats the same "@ + kind + " evidence."@,
                    target_of(f),
                    seq![
                        ("function"@, symbol_text(f)),
                        ("kind"@, kind),
                        ("first_index"@, decimal((first + 1) as nat)),
                        ("duplicate_index"@, decimal(n as nat)),
                        ("first"@, lines[first]),
                        ("duplicate"@, line),
                    ],
                    add_prose(
                        no_repairs(),
                        "Remove repeated evidence or replace it with a distinct behavioral case."@,
                    ),
                ),
            )
        } else {
            rest
        }
    }
}

fn duplicate_code_str(kind: &str) -> (res: &'static str)
    ensures
        res@ == duplicate_code(kind@),
{
    proof {
        reveal_strlit("example");
        reveal_strlit("property");
        reveal_strlit("DuplicateExample");
        reveal_strlit("DuplicateProperty");
        reveal_strlit("DuplicateContractClause");
    }
    if str_eq(kind, "example") {
        "DuplicateExample"
    } else if str_eq(kind, "property") {
        "DuplicateProperty"
    } else {
        "DuplicateContractClause"
    }
}

proof fn lemma_first_normalized(lines: Seq<Seq<char>>, norm: Seq<char>, i: int)
    requires
        0 <= i <= lines.len(),
    ensures
        i <= first_normalized(lines, norm, i) <= lines.len(),
        first_normalized(lines, norm, i) < lines.len() ==> normalized_evidence(lines[first_normalized(lines, norm, i)]) == norm,
    decreases lines.len() - i,
{
    if i < lines.len() && normalized_evidence(lines[i]) != norm {
        lemma_first_normalized(lines, norm, i + 1);
    }
}

/// Reports each line of `lines` that repeats an earlier one.
fn report_repeated_lines(f: &Function, kind: &str, lines: &Vec<String>, diagnostics: &mut Vec<Diagnostic>)
    ensures
        appended(final(diagnostics)@, old(diagnostics)@, repeat_findings(*f, kind@, texts(lines@), lines@.len() as int)),
{
    let ghost base = diagnostics@;
    let ghost ls = texts(lines@);
    assert(diagnostics@.skip(base.len() as int) =~= Seq::<Diagnostic>::empty());
    assert(diagnostics@.take(base.len() as int) =~= base);
    let mut norms: Vec<Vec<char>> = Vec::new();
    let mut i: usize = 0;
    while i < lines.len()
        invariant
            i <= lines@.len(),
            ls == texts(lines@),
            norms@.len() == i,
            forall|k: int| 0 <= k < i ==> #[trigger] norms@[k]@ == normalized_evidence(ls[k]),
            appended(diagnostics@, base, repeat_findings(*f, kind@, ls, i as int)),
        decreases lines@.len() - i,
    {
        let norm = normalize_evidence(&lines[i]);
        assert(ls[i as int] == lines@[i as int]@);
        proof {
            lemma_first_normalized(ls, norm@, 0);
        }
        let mut j: usize = 0;
        while j < i
            invariant
                j <= i < lines@.len(),
                norms@.len() == i,
                forall|k: int| 0 <= k < i ==> #[trigger] norms@[k]@ == normalized_evidence(ls[k]),
                norm@ == normalized_evidence(ls[i as int]),
                first_normalized(ls, norm@, j as int) == first_normalized(ls, norm@, 0),
            ensures
                j <= i,
                first_normalized(ls, norm@, j as int) == first_normalized(ls, norm@, 0),
                j < i ==> normalized_evidence(ls[j as int]) == norm@,
            decreases i - j,
        {
            if crate::text::seq_eq(&norms[j], &norm) {
                break;
            }
            j += 1;
        }
        assert(first_normalized(ls, norm@, j as int) == j);
        if norm.len() > 0 && j < i {
            let mut m = owned("Public function `");
            m.append(f.name.as_str());
            m.append("` repeats the same ");
            m.append(kind);
            m.append(" evidence.");
            let sym = f.symbol();
            let fi = usize_text(j + 1);
            let di = usize_text(i + 1);
            let d = Diagnostic::warning(duplicate_code_str(kind), m.as_str(), Some(f.target()))
                .with_data("function", sym.as_str())
                .with_data("kind", kind)
                .with_data("first_index", fi.as_str())
                .with_data("duplicate_index", di.as_str())
                .with_data("first", lines[j].as_str())
                .with_data("duplicate", lines[i].as_str())
                .with_repair("Remove repeated evidence or replace it with a distinct behavioral case.");
            proof {
                assert(ls[j as int] == lines@[j as int]@);
                assert(data_texts(d) =~= seq![
                    ("function"@, symbol_text(*f)),
                    ("kind"@, kind@),
                    ("first_index"@, decimal((j + 1) as nat)),
                    ("duplicate_index"@, decimal((i + 1) as nat)),
                    ("first"@, ls[j as int]),
                    ("duplicate"@, ls[i as int]),
                ]);
                lemma_appended_push(diagnostics@, base, repeat_findings(*f, kind@, ls, i as int), d, finding_of(d));
            }
            diagnostics.push(d);
        }
        norms.push(norm);
        i += 1;
    }
}


/// `name: type` split at its first colon and trimmed.
pub open spec fn var_pair(raw: Seq<char>) -> Option<(Seq<char>, Seq<char>)> {
    let c = find_from(raw, ':', 0);
    if c >= raw.len() {
        None
    } else {
        Some((trim(raw.take(c)), trim(raw.skip(c + 1))))
    }
}

pub open spec fn var_pairs(parts: Seq<Seq<char>>) -> Seq<(Seq<char>, Seq<char>)>
    decreases parts.len(),
{
    if parts.len() == 0 {
        seq![]
    } else {
        match var_pair(parts.last()) {
            Some(p) => var_pairs(parts.drop_last()).push(p),
            None => var_pairs(parts.drop_last()),
        }
    }
}

/// The variables of a `forall ...:` header.
pub open spec fn header_vars(h: Seq<char>) -> Seq<(Seq<char>, Seq<char>)> {
    let t = trim(h);
    var_pairs(split_spec(t.subrange(7, t.len() - 1), ','))
}

/// A property written on one line: `forall x: T, y: U: expression`.
pub open spec fn property_line(h: Seq<char>, e: Seq<char>) -> Seq<char> {
    "forall "@ + join_spec(header_vars(h).map_values(|p: (Seq<char>, Seq<char>)| p.0 + ": "@ + p.1), ", "@)
        + ": "@ + trim(e)
}

/// The properties of a function, each on one line.
pub open spec fn property_texts(lines: Seq<Seq<char>>) -> Seq<Seq<char>> {
    block_ranges(lines, 0).map_values(|r: (int, int)| property_line(lines[r.0], lines[r.1]))
}

pub fn header_variables(h: &String) -> (res: Vec<(String, String)>)
    requires
        is_header(h@),
    ensures
        pair_texts(res@) == header_vars(h@),
{
    let t = trim_chars(&chars_of(h.as_str()));
    proof {
        reveal_strlit("forall ");
        reveal_strlit(":");
    }
    assert(t@.len() >= 8) by {
        assert(t@.take(7) == "forall "@);
        assert(t@.skip(t@.len() - 1) == ":"@);
        assert("forall "@[6] == ' ');
        assert(":"@[0] == ':');
        if t@.len() == 7 {
            assert(t@.take(7)[6] == t@[6]);
            assert(t@.skip(6)[0] == t@[6]);
        }
    }
    let inner = slice_chars(&t, 7, t.len() - 1);
    let parts = split_chars(&inner, ',');
    let ghost ps = split_spec(inner@, ',');
    let mut out: Vec<(String, String)> = Vec::new();
    let mut k: usize = 0;
    assert(ps.take(0) =~= Seq::<Seq<char>>::empty());
    assert(pair_texts(out@) =~= Seq::<(Seq<char>, Seq<char>)>::empty());
    while k < parts.len()
        invariant
            k <= parts@.len(),
            parts@.len() == ps.len(),
            forall|j: int| 0 <= j < parts@.len() ==> #[trigger] parts@[j]@ == ps[j],
            pair_texts(out@) == var_pairs(ps.take(k as int)),
        decreases parts@.len() - k,
    {
        proof {
            assert(ps.take(k + 1).drop_last() =~= ps.take(k as int));
            assert(ps.take(k + 1).last() == ps[k as int]);
        }
        let raw = &parts[k];
        proof {
            lemma_find_from(raw@, ':', 0);
        }
        let c = find_char(raw, ':', 0);
        if c < raw.len() {
            let n = trim_chars(&slice_chars(raw, 0, c));
            let ty = trim_chars(&slice_chars(raw, c + 1, raw.len()));
            assert(raw@.subrange(0, c as int) =~= raw@.take(c as int));
            assert(raw@.subrange(c + 1, raw@.len() as int) =~= raw@.skip(c + 1));
            let ghost before = pair_texts(out@);
            out.push((string_of(&n), string_of(&ty)));
            assert(pair_texts(out@) =~= before.push((n@, ty@)));
        }
        k += 1;
    }
    assert(ps.take(ps.len() as int) =~= ps);
    out
}

fn property_line_text(h: &String, e: &String) -> (res: String)
    requires
        is_header(h@),
    ensures
        res@ == property_line(h@, e@),
{
    let vars = header_variables(h);
    let mut parts: Vec<String> = Vec::new();
    let mut k: usize = 0;
    while k < vars.len()
        invariant
            k <= vars@.len(),
            parts@.len() == k,
            forall|j: int| 0 <= j < k ==> #[trigger] parts@[j]@ == vars@[j].0@ + ": "@ + vars@[j].1@,
        decreases vars@.len() - k,
    {
        let mut p = vars[k].0.clone();
        p.append(": ");
        p.append(vars[k].1.as_str());
        parts.push(p);
        k += 1;
    }
    let ghost hv = header_vars(h@);
    assert(texts(parts@) =~= hv.map_values(|p: (Seq<char>, Seq<char>)| p.0 + ": "@ + p.1));
    let joined = join_strings(&parts, ", ");
    let mut out = owned("forall ");
    out.append(joined.as_str());
    out.append(": ");
    let te = trim_str(e.as_str());
    out.append(te.as_str());
    out
}

fn property_lines_text(lines: &Vec<String>) -> (res: Vec<String>)
    ensures
        texts(res@) == property_texts(texts(lines@)),
{
    let ghost ls = texts(lines@);
    let ranges = property_block_ranges(lines);
    let mut out: Vec<String> = Vec::new();
    let mut k: usize = 0;
    while k < ranges.len()
        invariant
            k <= ranges@.len(),
            ls == texts(lines@),
            ranges@.len() == block_ranges(ls, 0).len(),
            forall|j: int|
                0 <= j < ranges@.len() ==> (#[trigger] ranges@[j]).0 as int == block_ranges(ls, 0)[j].0
                    && ranges@[j].1 as int == block_ranges(ls, 0)[j].1 && ranges@[j].1 < lines@.len()
                    && ranges@[j].1 == ranges@[j].0 + 1,
            out@.len() == k,
            forall|j: int| 0 <= j < k ==> #[trigger] out@[j]@ == property_texts(ls)[j],
        decreases ranges@.len() - k,
    {
        let (h, b) = ranges[k];
        proof {
            lemma_block_header(ls, 0, k as int);
            assert(ls[h as int] == lines@[h as int]@);
            assert(ls[b as int] == lines@[b as int]@);
        }
        let t = property_line_text(&lines[h], &lines[b]);
        out.push(t);
        k += 1;
    }
    assert(texts(out@) =~= property_texts(ls));
    out
}

/// Every range that the block scan finds starts at a header line.
pub proof fn lemma_block_header(lines: Seq<Seq<char>>, i: int, k: int)
    requires
        0 <= i,
        0 <= k < block_ranges(lines, i).len(),
    ensures
        is_header(lines[block_ranges(lines, i)[k].0]),
        0 <= block_ranges(lines, i)[k].0,
        block_ranges(lines, i)[k].1 == block_ranges(lines, i)[k].0 + 1,
        block_ranges(lines, i)[k].1 < lines.len(),
    decreases lines.len() - i,
{
    if i < lines.len() {
        if is_header(lines[i]) {
            if i + 1 < lines.len() {
                if k > 0 {
                    lemma_block_header(lines, i + 2, k - 1);
                }
            }
        } else {
            lemma_block_header(lines, i + 1, k);
        }
    }
}

/// What the repeated-evidence check reports for a function: repeats among its examples,
/// preconditions, postconditions and properties; nothing for a private function.
pub open spec fn repeated_evidence_findings(f: Function) -> Seq<Finding> {
    if !f.public {
        seq![]
    } else {
        repeat_findings(f, "example"@, texts(f.examples@), f.examples@.len() as int)
            + repeat_findings(f, "requires"@, texts(f.requires@), f.requires@.len() as int)
            + repeat_findings(f, "ensures"@, texts(f.contracts@), f.contracts@.len() as int)
            + repeat_findings(f, "property"@, property_texts(texts(f.properties@)), property_texts(texts(f.properties@)).len() as int)
    }
}

/// Reports repeated evidence of a public function.
pub fn check_repeated_evidence(f: &Function, diagnostics: &mut Vec<Diagnostic>)
    ensures
        appended(final(diagnostics)@, old(diagnostics)@, repeated_evidence_findings(*f)),
{
    let ghost d0 = diagnostics@;
    if !f.public {
        assert(diagnostics@.skip(d0.len() as int) =~= Seq::<Diagnostic>::empty());
        assert(diagnostics@.take(d0.len() as int) =~= d0);
        return;
    }
    proof {
        reveal_strlit("example");
        reveal_strlit("requires");
        reveal_strlit("ensures");
        reveal_strlit("property");
    }
    report_repeated_lines(f, "example", &f.examples, diagnostics);
    let ghost d1 = diagnostics@;
    report_repeated_lines(f, "requires", &f.requires, diagnostics);
    let ghost d2 = diagnostics@;
    report_repeated_lines(f, "ensures", &f.contracts, diagnostics);
    let ghost d3 = diagnostics@;
    let props = property_lines_text(&f.properties);
    report_repeated_lines(f, "property", &props, diagnostics);
    proof {
        let a = repeat_findings(*f, "example"@, texts(f.examples@), f.examples@.len() as int);
        let b = repeat_findings(*f, "requires"@, texts(f.requires@), f.requires@.len() as int);
        let c = repeat_findings(*f, "ensures"@, texts(f.contracts@), f.contracts@.len() as int);
        let d = repeat_findings(*f, "property"@, texts(props@), props@.len() as int);
        lemma_appended_trans(d1, d2, d0, a, b);
        lemma_appended_trans(d2, d3, d0, a + b, c);
        lemma_appended_trans(d3, diagnostics@, d0, a + b + c, d);
    }
}


// ---------------------------------------------------------------------------
// Capability sets
// ---------------------------------------------------------------------------
/// The capabilities a function declares: its effects other than `pure`.
pub open spec fn caps(f: Function) -> Set<Seq<char>> {
    texts(f.effects@).to_set().remove("pure"@)
}

/// A set of capabilities, sorted and comma-separated.
pub open spec fn label(s: Set<Seq<char>>) -> Seq<char> {
    join_spec(sorted_of(s), ", "@)
}

/// The declared effects as written, or `none`.
pub open spec fn effect_label(f: Function) -> Seq<char> {
    if f.effects@.len() == 0 {
        "none"@
    } else {
        join_spec(texts(f.effects@), ", "@)
    }
}

/// A sorted list of distinct texts, as the checks hold a set.
pub open spec fn holds_set(v: Seq<Vec<char>>, s: Set<Seq<char>>) -> bool {
    strictly_sorted(views(v)) && views(v).to_set() == s
}

fn capabilities(f: &Function) -> (res: Vec<Vec<char>>)
    ensures
        holds_set(res@, caps(*f)),
{
    proof {
        reveal_strlit("pure");
    }
    let ghost es = texts(f.effects@);
    let mut out: Vec<Vec<char>> = Vec::new();
    let mut i: usize = 0;
    assert(views(out@).to_set() =~= es.take(0).to_set().remove("pure"@));
    while i < f.effects.len()
        invariant
            i <= f.effects@.len(),
            es == texts(f.effects@),
            strictly_sorted(views(out@)),
            views(out@).to_set() == es.take(i as int).to_set().remove("pure"@),
        decreases f.effects@.len() - i,
    {
        assert(es.take(i + 1) =~= es.take(i as int).push(es[i as int]));
        assert(es[i as int] == f.effects@[i as int]@);
        proof {
            es.take(i as int).lemma_push_to_set_commute(es[i as int]);
        }
        if !str_eq(f.effects[i].as_str(), "pure") {
            insert_sorted_unique(&mut out, chars_of(f.effects[i].as_str()));
            assert(views(out@).to_set() =~= es.take(i + 1).to_set().remove("pure"@));
        } else {
            assert(views(out@).to_set() =~= es.take(i + 1).to_set().remove("pure"@));
        }
        i += 1;
    }
    assert(es.take(f.effects@.len() as int) =~= es);
    out
}

pub fn contains_text(v: &Vec<Vec<char>>, x: &Vec<char>) -> (res: bool)
    ensures
        res == views(v@).to_set().contains(x@),
{
    let mut i: usize = 0;
    while i < v.len()
        invariant
            i <= v@.len(),
            forall|k: int| 0 <= k < i ==> #[trigger] views(v@)[k] != x@,
        decreases v@.len() - i,
    {
        assert(views(v@)[i as int] == v@[i as int]@);
        if crate::text::seq_eq(&v[i], x) {
            return true;
        }
        i += 1;
    }
    false
}

pub fn union_into(acc: &mut Vec<Vec<char>>, more: &Vec<Vec<char>>)
    requires
        strictly_sorted(views(old(acc)@)),
    ensures
        strictly_sorted(views(final(acc)@)),
        views(final(acc)@).to_set() == views(old(acc)@).to_set() + views(more@).to_set(),
{
    let ghost start = views(acc@).to_set();
    let mut i: usize = 0;
    while i < more.len()
        invariant
            i <= more@.len(),
            strictly_sorted(views(acc@)),
            views(acc@).to_set() == start + views(more@).take(i as int).to_set(),
        decreases more@.len() - i,
    {
        assert(views(more@).take(i + 1) =~= views(more@).take(i as int).push(views(more@)[i as int]));
        assert(views(more@)[i as int] == more@[i as int]@);
        proof {
            views(more@).take(i as int).lemma_push_to_set_commute(views(more@)[i as int]);
        }
        insert_sorted_unique(acc, more[i].clone());
        assert(views(acc@).to_set() =~= start + views(more@).take(i + 1).to_set());
        i += 1;
    }
    assert(views(more@).take(more@.len() as int) =~= views(more@));
}

pub fn difference(a: &Vec<Vec<char>>, b: &Vec<Vec<char>>) -> (res: Vec<Vec<char>>)
    ensures
        strictly_sorted(views(res@)),
        views(res@).to_set() == views(a@).to_set() - views(b@).to_set(),
{
    let mut out: Vec<Vec<char>> = Vec::new();
    let mut i: usize = 0;
    assert(views(out@).to_set() =~= views(a@).take(0).to_set() - views(b@).to_set());
    while i < a.len()
        invariant
            i <= a@.len(),
            strictly_sorted(views(out@)),
            views(out@).to_set() == views(a@).take(i as int).to_set() - views(b@).to_set(),
        decreases a@.len() - i,
    {
        assert(views(a@).take(i + 1) =~= views(a@).take(i as int).push(views(a@)[i as int]));
        assert(views(a@)[i as int] == a@[i as int]@);
        proof {
            views(a@).take(i as int).lemma_push_to_set_commute(views(a@)[i as int]);
        }
        if !contains_text(b, &a[i]) {
            insert_sorted_unique(&mut out, a[i].clone());
        }
        assert(views(out@).to_set() =~= views(a@).take(i + 1).to_set() - views(b@).to_set());
        i += 1;
    }
    assert(views(a@).take(a@.len() as int) =~= views(a@));
    out
}

pub fn label_text(v: &Vec<Vec<char>>) -> (res: String)
    requires
        strictly_sorted(views(v@)),
    ensures
        res@ == label(views(v@).to_set()),
{
    proof {
        lemma_sorted_of(views(v@));
    }
    let sep = chars_of(", ");
    let j = join_chars(v.as_slice(), &sep);
    string_of(&j)
}

fn effect_label_text(f: &Function) -> (res: String)
    ensures
        res@ == effect_label(*f),
{
    if f.effects.len() == 0 {
        owned("none")
    } else {
        join_strings(&f.effects, ", ")
    }
}

pub proof fn lemma_empty_set(v: Seq<Seq<char>>)
    ensures
        (v.len() == 0) == (v.to_set() == Set::<Seq<char>>::empty()),
{
    if v.len() > 0 {
        assert(v.to_set().contains(v[0]));
    } else {
        assert(v.to_set() =~= Set::<Seq<char>>::empty());
    }
}


// ---------------------------------------------------------------------------
// Effects
// ---------------------------------------------------------------------------
pub type EffectKey = (Seq<char>, Seq<char>, Seq<char>);

pub open spec fn violation_prose() -> Seq<char> {
    "Remove the call, call a function with declared capabilities already available to the caller, or declare the caller's required effects."@
}

pub open spec fn unused_prose() -> Seq<char> {
    "Remove unused declared capabilities or add executable calls/evidence that require them before certification."@
}

/// `bin/serow patch set-effects <path> <symbol> <declaration>`
pub open spec fn effects_command(f: Function, decl: Seq<char>) -> Seq<Seq<char>> {
    seq!["bin/serow"@, "patch"@, "set-effects"@, f.source_path@, symbol_text(f), decl]
}

/// The error for a call whose callee needs capabilities the caller does not declare.
pub open spec fn violation(f: Function, c: CallSpec, missing: Set<Seq<char>>) -> Finding {
    (
        Severity::Error,
        "EffectViolation"@,
        "Function `"@ + f.name@ + "` calls `"@ + c.3.name@ + "` without declaring required capabilities: "@
            + label(missing) + "."@,
        target_of(f),
        seq![
            ("function"@, symbol_text(f)),
            ("function_effects"@, effect_label(f)),
            ("callee"@, symbol_text(c.3)),
            ("callee_effects"@, effect_label(c.3)),
            ("missing_effects"@, label(missing)),
            ("context"@, c.0),
            ("expression"@, c.1),
        ],
        add_command(
            add_prose(no_repairs(), violation_prose()),
            "Declare the required effect capabilities"@,
            effects_command(f, declaration_of(caps(f) + missing)),
        ),
    )
}

/// The effect scan over the calls of `f`: the findings so far, the (caller, callee,
/// context) keys already reported, and the capabilities the other callees need.
pub open spec fn calls_scan(f: Function, cs: Seq<CallSpec>, rep: Set<EffectKey>) -> (Seq<Finding>, Set<EffectKey>, Set<Seq<char>>)
    decreases cs.len(),
{
    if cs.len() == 0 {
        (seq![], rep, Set::empty())
    } else {
        let (out, r, req) = calls_scan(f, cs.drop_last(), rep);
        let c = cs.last();
        let cc = caps(c.3);
        let req2 = if symbol_text(c.3) != symbol_text(f) { req + cc } else { req };
        let missing = cc - caps(f);
        let key = (symbol_text(f), symbol_text(c.3), c.0);
        if missing == Set::<Seq<char>>::empty() || r.contains(key) {
            (out, r, req2)
        } else {
            (out.push(violation(f, c, missing)), r.insert(key), req2)
        }
    }
}

/// What the effect check reports for one function, and the keys reported so far.
pub open spec fn fn_effects(fs: Seq<Function>, ins: Seq<Function>, f: Function, rep: Set<EffectKey>) -> (Seq<Finding>, Set<EffectKey>) {
    let (out, r, req) = calls_scan(f, fn_calls(fs, ins, f), rep);
    let unused = caps(f) - req;
    if req == Set::<Seq<char>>::empty() || unused == Set::<Seq<char>>::empty() {
        (out, r)
    } else {
        (
            out.push(
                (
                    Severity::Warning,
                    "UnusedEffectCapability"@,
                    "Function `"@ + f.name@ + "` declares capabilities not required by its resolved direct callees: "@
                        + label(unused) + "."@,
                    target_of(f),
                    seq![
                        ("function"@, symbol_text(f)),
                        ("function_effects"@, effect_label(f)),
                        ("required_effects"@, label(req)),
                        ("unused_effects"@, label(unused)),
                    ],
                    add_command(
                        add_prose(no_repairs(), unused_prose()),
                        "Remove unused effect capabilities"@,
                        effects_command(f, declaration_of(req)),
                    ),
                ),
            ),
            r,
        )
    }
}

/// The effect check over the first `n` functions.
pub open spec fn effects_scan(fs: Seq<Function>, ins: Seq<Function>, n: int) -> (Seq<Finding>, Set<EffectKey>)
    decreases n,
{
    if n <= 0 || n > fs.len() {
        (seq![], Set::empty())
    } else {
        let (out, rep) = effects_scan(fs, ins, n - 1);
        let (more, rep2) = fn_effects(fs, ins, fs[n - 1], rep);
        (out + more, rep2)
    }
}

pub open spec fn key_texts(v: Seq<(String, String, String)>) -> Set<EffectKey> {
    v.map_values(|k: (String, String, String)| (k.0@, k.1@, k.2@)).to_set()
}

fn has_key(keys: &Vec<(String, String, String)>, a: &String, b: &String, c: &String) -> (res: bool)
    ensures
        res == key_texts(keys@).contains((a@, b@, c@)),
{
    let ghost kv = keys@.map_values(|k: (String, String, String)| (k.0@, k.1@, k.2@));
    let mut i: usize = 0;
    while i < keys.len()
        invariant
            i <= keys@.len(),
            kv == keys@.map_values(|k: (String, String, String)| (k.0@, k.1@, k.2@)),
            forall|j: int| 0 <= j < i ==> #[trigger] kv[j] != (a@, b@, c@),
        decreases keys@.len() - i,
    {
        assert(kv[i as int] == (keys@[i as int].0@, keys@[i as int].1@, keys@[i as int].2@));
        if str_eq(keys[i].0.as_str(), a.as_str()) && str_eq(keys[i].1.as_str(), b.as_str()) && str_eq(keys[i].2.as_str(), c.as_str()) {
            assert(kv[i as int] == (a@, b@, c@));
            return true;
        }
        i += 1;
    }
    false
}

fn push_key(keys: &mut Vec<(String, String, String)>, a: String, b: String, c: String)
    ensures
        key_texts(final(keys)@) == key_texts(old(keys)@).insert((a@, b@, c@)),
{
    let ghost before = old(keys)@.map_values(|k: (String, String, String)| (k.0@, k.1@, k.2@));
    let ghost ka = a@;
    let ghost kb = b@;
    let ghost kc = c@;
    keys.push((a, b, c));
    proof {
        assert(keys@.map_values(|k: (String, String, String)| (k.0@, k.1@, k.2@)) =~= before.push((ka, kb, kc)));
        before.lemma_push_to_set_commute((ka, kb, kc));
    }
}

/// The effect check of one function.
fn check_function_effects(
    program: &Program,
    intrinsics: &Vec<Function>,
    f: &Function,
    keys: &mut Vec<(String, String, String)>,
    diagnostics: &mut Vec<Diagnostic>,
)
    ensures
        appended(final(diagnostics)@, old(diagnostics)@, fn_effects(program.functions@, intrinsics@, *f, key_texts(old(keys)@)).0),
        key_texts(final(keys)@) == fn_effects(program.functions@, intrinsics@, *f, key_texts(old(keys)@)).1,
{
    let ghost base = diagnostics@;
    let ghost rep0 = key_texts(keys@);
    assert(diagnostics@.skip(base.len() as int) =~= Seq::<Diagnostic>::empty());
    assert(diagnostics@.take(base.len() as int) =~= base);
    let fcaps = capabilities(f);
    let fsym = f.symbol();
    let calls = resolved_calls(f, program.functions.as_slice(), intrinsics.as_slice());
    let ghost cs = fn_calls(program.functions@, intrinsics@, *f);
    let mut required: Vec<Vec<char>> = Vec::new();
    let mut i: usize = 0;
    assert(cs.take(0) =~= Seq::<CallSpec>::empty());
    assert(views(required@).to_set() =~= Set::<Seq<char>>::empty());
    while i < calls.len()
        invariant
            i <= calls@.len(),
            cs == fn_calls(program.functions@, intrinsics@, *f),
            calls_are(calls@, cs),
            holds_set(fcaps@, caps(*f)),
            fsym@ == symbol_text(*f),
            strictly_sorted(views(required@)),
            appended(diagnostics@, base, calls_scan(*f, cs.take(i as int), rep0).0),
            key_texts(keys@) == calls_scan(*f, cs.take(i as int), rep0).1,
            views(required@).to_set() == calls_scan(*f, cs.take(i as int), rep0).2,
        decreases calls@.len() - i,
    {
        proof {
            assert(cs.take(i + 1).drop_last() =~= cs.take(i as int));
            assert(cs.take(i + 1).last() == cs[i as int]);
            assert(call_is(calls@[i as int], cs[i as int]));
        }
        let c = &calls[i];
        let ccaps = capabilities(&c.callee);
        let csym = c.callee.symbol();
        if !str_eq(csym.as_str(), fsym.as_str()) {
            union_into(&mut required, &ccaps);
        }
        let missing = difference(&ccaps, &fcaps);
        proof {
            lemma_empty_set(views(missing@));
        }
        if missing.len() > 0 && !has_key(keys, &fsym, &csym, &c.context) {
            let label_missing = label_text(&missing);
            let mut m = owned("Function `");
            m.append(f.name.as_str());
            m.append("` calls `");
            m.append(c.callee.name.as_str());
            m.append("` without declaring required capabilities: ");
            m.append(label_missing.as_str());
            m.append(".");
            let fl = effect_label_text(f);
            let cl = effect_label_text(&c.callee);
            let mut suggested: Vec<Vec<char>> = Vec::new();
            union_into(&mut suggested, &fcaps);
            union_into(&mut suggested, &missing);
            let decl = effects_declaration(&suggested);
            proof {
                let missing_set = caps(cs[i as int].3) - caps(*f);
                assert(views(suggested@).to_set() =~= caps(*f) + missing_set);
            }
            let command = effects_argv(f, decl);
            let d = Diagnostic::error("EffectViolation", m.as_str(), Some(f.target()))
                .with_data("function", fsym.as_str())
                .with_data("function_effects", fl.as_str())
                .with_data("callee", csym.as_str())
                .with_data("callee_effects", cl.as_str())
                .with_data("missing_effects", label_missing.as_str())
                .with_data("context", c.context.as_str())
                .with_data("expression", c.expression.as_str())
                .with_repair("Remove the call, call a function with declared capabilities already available to the caller, or declare the caller's required effects.")
                .with_command_repair("Declare the required effect capabilities", command);
            proof {
                let missing_set = caps(cs[i as int].3) - caps(*f);
                assert(views(missing@).to_set() == missing_set);
                assert(data_texts(d) =~= violation(*f, cs[i as int], missing_set).4);
                lemma_appended_push(diagnostics@, base, calls_scan(*f, cs.take(i as int), rep0).0, d, finding_of(d));
            }
            diagnostics.push(d);
            push_key(keys, fsym.clone(), csym.clone(), c.context.clone());
        }
        i += 1;
    }
    assert(cs.take(calls@.len() as int) =~= cs);
    let unused = difference(&fcaps, &required);
    proof {
        lemma_empty_set(views(unused@));
        lemma_empty_set(views(required@));
    }
    if required.len() > 0 && unused.len() > 0 {
        let lu = label_text(&unused);
        let lr = label_text(&required);
        let fl = effect_label_text(f);
        let mut m = owned("Function `");
        m.append(f.name.as_str());
        m.append("` declares capabilities not required by its resolved direct callees: ");
        m.append(lu.as_str());
        m.append(".");
        let decl = effects_declaration(&required);
        let command = effects_argv(f, decl);
        let d = Diagnostic::warning("UnusedEffectCapability", m.as_str(), Some(f.target()))
            .with_data("function", fsym.as_str())
            .with_data("function_effects", fl.as_str())
            .with_data("required_effects", lr.as_str())
            .with_data("unused_effects", lu.as_str())
            .with_repair("Remove unused declared capabilities or add executable calls/evidence that require them before certification.")
            .with_command_repair("Remove unused effect capabilities", command);
        proof {
            let req = calls_scan(*f, cs, rep0).2;
            assert(views(required@).to_set() == req);
            assert(views(unused@).to_set() == caps(*f) - req);
            assert(data_texts(d) =~= seq![
                ("function"@, symbol_text(*f)),
                ("function_effects"@, effect_label(*f)),
                ("required_effects"@, label(req)),
                ("unused_effects"@, label(caps(*f) - req)),
            ]);
            lemma_appended_push(diagnostics@, base, calls_scan(*f, cs, rep0).0, d, finding_of(d));
        }
        diagnostics.push(d);
    }
}

/// `pure` for no capabilities, else the sorted list in brackets.
pub open spec fn declaration_of(s: Set<Seq<char>>) -> Seq<char> {
    if s == Set::<Seq<char>>::empty() {
        "pure"@
    } else {
        "["@ + label(s) + "]"@
    }
}

fn effects_argv(f: &Function, decl: String) -> (res: Vec<String>)
    ensures
        strs(res@) == effects_command(*f, decl@),
{
    let mut command: Vec<String> = Vec::new();
    push_arg(&mut command, owned("bin/serow"));
    push_arg(&mut command, owned("patch"));
    push_arg(&mut command, owned("set-effects"));
    push_arg(&mut command, f.source_path.clone());
    push_arg(&mut command, f.symbol());
    push_arg(&mut command, decl);
    assert(strs(command@) =~= effects_command(*f, decl@));
    command
}

pub fn effects_declaration(v: &Vec<Vec<char>>) -> (res: String)
    requires
        strictly_sorted(views(v@)),
    ensures
        res@ == declaration_of(views(v@).to_set()),
{
    proof {
        lemma_empty_set(views(v@));
    }
    if v.len() == 0 {
        return owned("pure");
    }
    let l = label_text(v);
    let mut out = owned("[");
    out.append(l.as_str());
    out.append("]");
    out
}

/// Reports calls whose callees need capabilities the caller does not declare, and declared
/// capabilities that no resolved callee needs.
pub fn check_effects(program: &Program, diagnostics: &mut Vec<Diagnostic>)
    ensures
        exists|ins: Seq<Function>|
            is_intrinsic_list(ins) && #[trigger] appended(
                final(diagnostics)@,
                old(diagnostics)@,
                effects_scan(program.functions@, ins, program.functions@.len() as int).0,
            ),
{
    let intrinsics = intrinsic_functions();
    let ghost base = diagnostics@;
    let ghost fs = program.functions@;
    let mut keys: Vec<(String, String, String)> = Vec::new();
    assert(diagnostics@.skip(base.len() as int) =~= Seq::<Diagnostic>::empty());
    assert(diagnostics@.take(base.len() as int) =~= base);
    assert(key_texts(keys@) =~= Set::<EffectKey>::empty());
    let mut i: usize = 0;
    while i < program.functions.len()
        invariant
            i <= fs.len(),
            fs == program.functions@,
            appended(diagnostics@, base, effects_scan(fs, intrinsics@, i as int).0),
            key_texts(keys@) == effects_scan(fs, intrinsics@, i as int).1,
        decreases fs.len() - i,
    {
        let ghost before = diagnostics@;
        let ghost so_far = effects_scan(fs, intrinsics@, i as int).0;
        check_function_effects(program, &intrinsics, &program.functions[i], &mut keys, diagnostics);
        proof {
            lemma_appended_trans(before, diagnostics@, base, so_far, fn_effects(fs, intrinsics@, fs[i as int], effects_scan(fs, intrinsics@, i as int).1).0);
        }
        i += 1;
    }
}


// ---------------------------------------------------------------------------
// Module dependencies
// ---------------------------------------------------------------------------
pub open spec fn allowed_text(p: ModulePolicy) -> Seq<char> {
    join_spec(texts(p.may_depend_on@), ", "@)
}

/// The errors for the declared `use` items of the first `n` modules that their policies
/// forbid.
pub open spec fn declared_findings(a: Architecture, ms: Seq<Module>, n: int) -> Seq<Finding>
    decreases n,
{
    if n <= 0 || n > ms.len() {
        seq![]
    } else {
        declared_findings(a, ms, n - 1) + module_use_findings(a, ms[n - 1], ms[n - 1].dependencies@.len() as int)
    }
}

pub open spec fn module_use_findings(a: Architecture, m: Module, n: int) -> Seq<Finding>
    decreases n,
{
    if n <= 0 || n > m.dependencies@.len() {
        seq![]
    } else {
        let rest = module_use_findings(a, m, n - 1);
        let d = m.dependencies@[n - 1];
        match policy_of(a, m.name@) {
            None => rest,
            Some(p) => if d.module@ == m.name@ || texts(p.may_depend_on@).contains(d.module@) {
                rest
            } else {
                rest.push(
                    (
                        Severity::Error,
                        "ArchitectureViolation"@,
                        "Module `"@ + m.name@ + "` may not depend on `"@ + d.module@ + "`."@,
                        join2(d.source_path@, ':', decimal(d.line as nat)),
                        seq![
                            ("module"@, m.name@),
                            ("dependency"@, d.module@),
                            ("allowed"@, allowed_text(p)),
                        ],
                        add_prose(no_repairs(), "Update `serow.project` or remove the `use` declaration."@),
                    ),
                )
            },
        }
    }
}

fn check_module_uses(architecture: &Architecture, m: &Module, diagnostics: &mut Vec<Diagnostic>)
    ensures
        appended(final(diagnostics)@, old(diagnostics)@, module_use_findings(*architecture, *m, m.dependencies@.len() as int)),
{
    let ghost base = diagnostics@;
    assert(diagnostics@.skip(base.len() as int) =~= Seq::<Diagnostic>::empty());
    assert(diagnostics@.take(base.len() as int) =~= base);
    let policy = match architecture.policy_for(m.name.as_str()) {
        Some(p) => p,
        None => {
            let mut k: usize = 0;
            while k < m.dependencies.len()
                invariant
                    k <= m.dependencies@.len(),
                    policy_of(*architecture, m.name@) is None,
                    module_use_findings(*architecture, *m, k as int) == Seq::<Finding>::empty(),
                decreases m.dependencies@.len() - k,
            {
                k += 1;
            }
            return;
        },
    };
    let allowed = join_strings(&policy.may_depend_on, ", ");
    let mut k: usize = 0;
    while k < m.dependencies.len()
        invariant
            k <= m.dependencies@.len(),
            policy_of(*architecture, m.name@) == Some(*policy),
            allowed@ == allowed_text(*policy),
            appended(diagnostics@, base, module_use_findings(*architecture, *m, k as int)),
        decreases m.dependencies@.len() - k,
    {
        let d = &m.dependencies[k];
        let mut ok = str_eq(d.module.as_str(), m.name.as_str());
        if !ok {
            let ghost names = texts(policy.may_depend_on@);
            let mut j: usize = 0;
            while j < policy.may_depend_on.len()
                invariant_except_break
                    !ok,
                invariant
                    j <= policy.may_depend_on@.len(),
                    names == texts(policy.may_depend_on@),
                    forall|x: int| 0 <= x < j ==> #[trigger] names[x] != d.module@,
                ensures
                    ok == names.contains(d.module@),
                decreases policy.may_depend_on@.len() - j,
            {
                assert(names[j as int] == policy.may_depend_on@[j as int]@);
                if str_eq(policy.may_depend_on[j].as_str(), d.module.as_str()) {
                    ok = true;
                    assert(names[j as int] == d.module@);
                    break;
                }
                j += 1;
            }
        }
        if !ok {
            let mut msg = owned("Module `");
            msg.append(m.name.as_str());
            msg.append("` may not depend on `");
            msg.append(d.module.as_str());
            msg.append("`.");
            let diag = Diagnostic::error("ArchitectureViolation", msg.as_str(), Some(d.target()))
                .with_data("module", m.name.as_str())
                .with_data("dependency", d.module.as_str())
                .with_data("allowed", allowed.as_str())
                .with_repair("Update `serow.project` or remove the `use` declaration.");
            proof {
                assert(data_texts(diag) =~= seq![("module"@, m.name@), ("dependency"@, d.module@), ("allowed"@, allowed_text(*policy))]);
                lemma_appended_push(diagnostics@, base, module_use_findings(*architecture, *m, k as int), diag, finding_of(diag));
            }
            diagnostics.push(diag);
        }
        k += 1;
    }
}

/// Module `m` declares a `use` of `d`: the last module with that name does.
pub open spec fn last_module(ms: Seq<Module>, m: Seq<char>, n: int) -> int
    decreases n,
{
    if n <= 0 || n > ms.len() {
        -1
    } else if ms[n - 1].name@ == m {
        n - 1
    } else {
        last_module(ms, m, n - 1)
    }
}

pub open spec fn declares_use(ms: Seq<Module>, m: Seq<char>, d: Seq<char>) -> bool {
    let i = last_module(ms, m, ms.len() as int);
    i >= 0 && exists|k: int| 0 <= k < ms[i].dependencies@.len() && #[trigger] ms[i].dependencies@[k].module@ == d
}

pub type DependencyKey = (Seq<char>, Seq<char>, Seq<char>);

/// The inferred-dependency check over the calls of `f`, with the keys seen so far.
pub open spec fn inferred_scan(a: Architecture, ms: Seq<Module>, f: Function, cs: Seq<CallSpec>, seen: Set<DependencyKey>) -> (Seq<Finding>, Set<DependencyKey>)
    decreases cs.len(),
{
    if cs.len() == 0 {
        (seq![], seen)
    } else {
        let (out, s) = inferred_scan(a, ms, f, cs.drop_last(), seen);
        let c = cs.last();
        let callee = c.3;
        let key = (f.module@, callee.module@, f.name@);
        if callee.module@ == f.module@ || s.contains(key) {
            (out, s)
        } else {
            let s2 = s.insert(key);
            let declared = declares_use(ms, f.module@, callee.module@);
            if declared {
                (out, s2)
            } else if may_depend(a, f.module@, callee.module@) {
                (
                    out.push(
                        (
                            Severity::Error,
                            "MissingModuleDependency"@,
                            "Function `"@ + f.name@ + "` calls `"@ + callee.name@ + "` from module `"@ + callee.module@
                                + "`, but module `"@ + f.module@ + "` does not declare `use "@ + callee.module@ + "`."@,
                            target_of(f),
                            seq![
                                ("module"@, f.module@),
                                ("dependency"@, callee.module@),
                                ("function"@, f.name@),
                                ("callee"@, symbol_text(callee)),
                                ("context"@, c.0),
                                ("expression"@, c.1),
                            ],
                            add_command(
                                no_repairs(),
                                "Add the missing module dependency"@,
                                seq!["bin/serow"@, "patch"@, "add-use"@, f.source_path@, f.module@, callee.module@],
                            ),
                        ),
                    ),
                    s2,
                )
            } else {
                (
                    out.push(
                        (
                            Severity::Error,
                            "ArchitectureViolation"@,
                            "Function `"@ + f.name@ + "` creates an inferred dependency from `"@ + f.module@
                                + "` to forbidden module `"@ + callee.module@ + "`."@,
                            target_of(f),
                            seq![
                                ("module"@, f.module@),
                                ("dependency"@, callee.module@),
                                ("callee"@, symbol_text(callee)),
                                ("allowed"@, allowed_text(policy_of(a, f.module@)->0)),
                                ("context"@, c.0),
                                ("expression"@, c.1),
                            ],
                            add_prose(
                                no_repairs(),
                                "Move the call behind an allowed module boundary or update `serow.project`."@,
                            ),
                        ),
                    ),
                    s2,
                )
            }
        }
    }
}

/// The inferred-dependency check over the first `n` functions.
pub open spec fn inferred_findings(a: Architecture, p: Program, ins: Seq<Function>, n: int) -> (Seq<Finding>, Set<DependencyKey>)
    decreases n,
{
    if n <= 0 || n > p.functions@.len() {
        (seq![], Set::empty())
    } else {
        let (out, s) = inferred_findings(a, p, ins, n - 1);
        let f = p.functions@[n - 1];
        let (more, s2) = inferred_scan(a, p.modules@, f, fn_calls(p.functions@, ins, f), s);
        (out + more, s2)
    }
}

fn declares(ms: &Vec<Module>, m: &String, d: &String) -> (res: bool)
    ensures
        res == declares_use(ms@, m@, d@),
{
    let mut n: usize = ms.len();
    while n > 0
        invariant
            n <= ms@.len(),
            last_module(ms@, m@, n as int) == last_module(ms@, m@, ms@.len() as int),
        decreases n,
    {
        if str_eq(ms[n - 1].name.as_str(), m.as_str()) {
            let deps = &ms[n - 1].dependencies;
            let mut k: usize = 0;
            assert(last_module(ms@, m@, n as int) == n - 1);
            while k < deps.len()
                invariant
                    k <= deps@.len(),
                    n <= ms@.len(),
                    n > 0,
                    *deps == ms@[n - 1].dependencies,
                    last_module(ms@, m@, ms@.len() as int) == n - 1,
                    forall|x: int| 0 <= x < k ==> #[trigger] deps@[x].module@ != d@,
                decreases deps@.len() - k,
            {
                if str_eq(deps[k].module.as_str(), d.as_str()) {
                    assert(ms@[n - 1].dependencies@[k as int].module@ == d@);
                    return true;
                }
                k += 1;
            }
            return false;
        }
        n -= 1;
    }
    false
}

pub open spec fn dep_key_texts(v: Seq<(String, String, String)>) -> Set<DependencyKey> {
    key_texts(v)
}

fn check_function_dependencies(
    architecture: &Architecture,
    program: &Program,
    intrinsics: &Vec<Function>,
    f: &Function,
    seen: &mut Vec<(String, String, String)>,
    diagnostics: &mut Vec<Diagnostic>,
)
    ensures
        appended(final(diagnostics)@, old(diagnostics)@, inferred_scan(*architecture, program.modules@, *f, fn_calls(program.functions@, intrinsics@, *f), key_texts(old(seen)@)).0),
        key_texts(final(seen)@) == inferred_scan(*architecture, program.modules@, *f, fn_calls(program.functions@, intrinsics@, *f), key_texts(old(seen)@)).1,
{
    let ghost base = diagnostics@;
    let ghost s0 = key_texts(seen@);
    assert(diagnostics@.skip(base.len() as int) =~= Seq::<Diagnostic>::empty());
    assert(diagnostics@.take(base.len() as int) =~= base);
    let calls = resolved_calls(f, program.functions.as_slice(), intrinsics.as_slice());
    let ghost cs = fn_calls(program.functions@, intrinsics@, *f);
    let mut i: usize = 0;
    assert(cs.take(0) =~= Seq::<CallSpec>::empty());
    while i < calls.len()
        invariant
            i <= calls@.len(),
            cs == fn_calls(program.functions@, intrinsics@, *f),
            calls_are(calls@, cs),
            appended(diagnostics@, base, inferred_scan(*architecture, program.modules@, *f, cs.take(i as int), s0).0),
            key_texts(seen@) == inferred_scan(*architecture, program.modules@, *f, cs.take(i as int), s0).1,
        decreases calls@.len() - i,
    {
        proof {
            assert(cs.take(i + 1).drop_last() =~= cs.take(i as int));
            assert(cs.take(i + 1).last() == cs[i as int]);
            assert(call_is(calls@[i as int], cs[i as int]));
        }
        let c = &calls[i];
        let callee = &c.callee;
        if !str_eq(callee.module.as_str(), f.module.as_str()) && !has_key(seen, &f.module, &callee.module, &f.name) {
            push_key(seen, f.module.clone(), callee.module.clone(), f.name.clone());
            let declared = declares(&program.modules, &f.module, &callee.module);
            if !declared {
                if dependency_allowed(architecture, f.module.as_str(), callee.module.as_str()) {
                    let mut m = owned("Function `");
                    m.append(f.name.as_str());
                    m.append("` calls `");
                    m.append(callee.name.as_str());
                    m.append("` from module `");
                    m.append(callee.module.as_str());
                    m.append("`, but module `");
                    m.append(f.module.as_str());
                    m.append("` does not declare `use ");
                    m.append(callee.module.as_str());
                    m.append("`.");
                    let csym = callee.symbol();
                    let mut command: Vec<String> = Vec::new();
                    push_arg(&mut command, owned("bin/serow"));
                    push_arg(&mut command, owned("patch"));
                    push_arg(&mut command, owned("add-use"));
                    push_arg(&mut command, f.source_path.clone());
                    push_arg(&mut command, f.module.clone());
                    push_arg(&mut command, callee.module.clone());
                    assert(strs(command@) =~= seq!["bin/serow"@, "patch"@, "add-use"@, f.source_path@, f.module@, cs[i as int].3.module@]);
                    let d = Diagnostic::error("MissingModuleDependency", m.as_str(), Some(f.target()))
                        .with_data("module", f.module.as_str())
                        .with_data("dependency", callee.module.as_str())
                        .with_data("function", f.name.as_str())
                        .with_data("callee", csym.as_str())
                        .with_data("context", c.context.as_str())
                        .with_data("expression", c.expression.as_str())
                        .with_command_repair("Add the missing module dependency", command);
                    proof {
                        assert(data_texts(d) =~= seq![
                            ("module"@, f.module@),
                            ("dependency"@, cs[i as int].3.module@),
                            ("function"@, f.name@),
                            ("callee"@, symbol_text(cs[i as int].3)),
                            ("context"@, cs[i as int].0),
                            ("expression"@, cs[i as int].1),
                        ]);
                        lemma_appended_push(diagnostics@, base, inferred_scan(*architecture, program.modules@, *f, cs.take(i as int), s0).0, d, finding_of(d));
                    }
                    diagnostics.push(d);
                } else {
                    let allowed = match architecture.policy_for(f.module.as_str()) {
                        Some(p) => join_strings(&p.may_depend_on, ", "),
                        None => String::new(),
                    };
                    let mut m = owned("Function `");
                    m.append(f.name.as_str());
                    m.append("` creates an inferred dependency from `");
                    m.append(f.module.as_str());
                    m.append("` to forbidden module `");
                    m.append(callee.module.as_str());
                    m.append("`.");
                    let csym = callee.symbol();
                    let d = Diagnostic::error("ArchitectureViolation", m.as_str(), Some(f.target()))
                        .with_data("module", f.module.as_str())
                        .with_data("dependency", callee.module.as_str())
                        .with_data("callee", csym.as_str())
                        .with_data("allowed", allowed.as_str())
                        .with_data("context", c.context.as_str())
                        .with_data("expression", c.expression.as_str())
                        .with_repair("Move the call behind an allowed module boundary or update `serow.project`.");
                    proof {
                        assert(policy_of(*architecture, f.module@) is Some);
                        assert(data_texts(d) =~= seq![
                            ("module"@, f.module@),
                            ("dependency"@, cs[i as int].3.module@),
                            ("callee"@, symbol_text(cs[i as int].3)),
                            ("allowed"@, allowed_text(policy_of(*architecture, f.module@)->0)),
                            ("context"@, cs[i as int].0),
                            ("expression"@, cs[i as int].1),
                        ]);
                        lemma_appended_push(diagnostics@, base, inferred_scan(*architecture, program.modules@, *f, cs.take(i as int), s0).0, d, finding_of(d));
                    }
                    diagnostics.push(d);
                }
            }
        }
        i += 1;
    }
    assert(cs.take(calls@.len() as int) =~= cs);
}

/// Reports `use` items that the architecture forbids, then calls into other modules that
/// no `use` declares (or that the architecture forbids).
pub fn check_module_dependencies(program: &Program, architecture: &Architecture, diagnostics: &mut Vec<Diagnostic>)
    ensures
        exists|ins: Seq<Function>|
            is_intrinsic_list(ins) && #[trigger] appended(
                final(diagnostics)@,
                old(diagnostics)@,
                declared_findings(*architecture, program.modules@, program.modules@.len() as int)
                    + inferred_findings(*architecture, *program, ins, program.functions@.len() as int).0,
            ),
{
    let ghost base = diagnostics@;
    assert(diagnostics@.skip(base.len() as int) =~= Seq::<Diagnostic>::empty());
    assert(diagnostics@.take(base.len() as int) =~= base);
    let mut i: usize = 0;
    while i < program.modules.len()
        invariant
            i <= program.modules@.len(),
            appended(diagnostics@, base, declared_findings(*architecture, program.modules@, i as int)),
        decreases program.modules@.len() - i,
    {
        let ghost before = diagnostics@;
        check_module_uses(architecture, &program.modules[i], diagnostics);
        proof {
            lemma_appended_trans(before, diagnostics@, base, declared_findings(*architecture, program.modules@, i as int), module_use_findings(*architecture, program.modules@[i as int], program.modules@[i as int].dependencies@.len() as int));
        }
        i += 1;
    }
    let ghost mid = diagnostics@;
    let ghost part1 = declared_findings(*architecture, program.modules@, program.modules@.len() as int);
    let intrinsics = intrinsic_functions();
    let mut seen: Vec<(String, String, String)> = Vec::new();
    assert(key_texts(seen@) =~= Set::<DependencyKey>::empty());
    assert(part1 + inferred_findings(*architecture, *program, intrinsics@, 0).0 =~= part1);
    let mut k: usize = 0;
    while k < program.functions.len()
        invariant
            k <= program.functions@.len(),
            appended(diagnostics@, base, part1 + inferred_findings(*architecture, *program, intrinsics@, k as int).0),
            key_texts(seen@) == inferred_findings(*architecture, *program, intrinsics@, k as int).1,
        decreases program.functions@.len() - k,
    {
        let ghost before = diagnostics@;
        let ghost so_far = inferred_findings(*architecture, *program, intrinsics@, k as int);
        check_function_dependencies(architecture, program, &intrinsics, &program.functions[k], &mut seen, diagnostics);
        proof {
            let more = inferred_scan(*architecture, program.modules@, program.functions@[k as int], fn_calls(program.functions@, intrinsics@, program.functions@[k as int]), so_far.1).0;
            lemma_appended_trans(before, diagnostics@, base, part1 + so_far.0, more);
            assert(part1 + so_far.0 + more =~= part1 + inferred_findings(*architecture, *program, intrinsics@, k + 1).0);
        }
        k += 1;
    }
}


// ---------------------------------------------------------------------------
// Ambiguous unqualified calls
// ---------------------------------------------------------------------------
/// The functions with a given name, in order.
pub open spec fn named(fs: Seq<Function>, name: Seq<char>) -> Seq<Function>
    decreases fs.len(),
{
    if fs.len() == 0 {
        seq![]
    } else if fs.last().name@ == name {
        named(fs.drop_last(), name).push(fs.last())
    } else {
        named(fs.drop_last(), name)
    }
}

pub open spec fn qualified(raw: Seq<char>) -> bool {
    reference_parts(raw).0 is Some || starts_with(raw, "@"@)
}

/// The ambiguity check over the call references `names` of one expression.
pub open spec fn ambiguity_scan(fs: Seq<Function>, f: Function, ctx: Seq<char>, expr: Seq<char>, names: Seq<Seq<char>>, seen: Set<EffectKey>) -> (Seq<Finding>, Set<EffectKey>)
    decreases names.len(),
{
    if names.len() == 0 {
        (seq![], seen)
    } else {
        let (out, s) = ambiguity_scan(fs, f, ctx, expr, names.drop_last(), seen);
        let n = names.last();
        let cands = named(fs, reference_parts(n).1);
        let key = (symbol_text(f), n, ctx);
        if qualified(n) || cands.len() <= 1 || s.contains(key) {
            (out, s)
        } else {
            (
                out.push(
                    (
                        Severity::Error,
                        "AmbiguousUnqualifiedCall"@,
                        "Call `"@ + n + "` is ambiguous; use a qualified reference."@,
                        target_of(f),
                        seq![
                            ("function"@, symbol_text(f)),
                            ("call"@, n),
                            ("candidates"@, join_spec(cands.map_values(|g: Function| symbol_text(g)), ", "@)),
                            ("context"@, ctx),
                            ("expression"@, expr),
                        ],
                        add_prose(
                            no_repairs(),
                            "Use `module.name(...)` or `@module.name.vN(...)` for ambiguous calls."@,
                        ),
                    ),
                ),
                s.insert(key),
            )
        }
    }
}

/// The ambiguity check over a function's expressions.
pub open spec fn ambiguity_exprs(fs: Seq<Function>, f: Function, es: Seq<(Seq<char>, Seq<char>)>, seen: Set<EffectKey>) -> (Seq<Finding>, Set<EffectKey>)
    decreases es.len(),
{
    if es.len() == 0 {
        (seq![], seen)
    } else {
        let (out, s) = ambiguity_exprs(fs, f, es.drop_last(), seen);
        let (ctx, expr) = es.last();
        match call_names(expr) {
            Ok(names) => {
                let (more, s2) = ambiguity_scan(fs, f, ctx, expr, names, s);
                (out + more, s2)
            },
            Err(_) => (out, s),
        }
    }
}

/// The ambiguity check over the first `n` functions.
pub open spec fn ambiguity_findings(fs: Seq<Function>, n: int) -> (Seq<Finding>, Set<EffectKey>)
    decreases n,
{
    if n <= 0 || n > fs.len() {
        (seq![], Set::empty())
    } else {
        let (out, s) = ambiguity_findings(fs, n - 1);
        let (more, s2) = ambiguity_exprs(fs, fs[n - 1], fn_exprs(fs[n - 1]), s);
        (out + more, s2)
    }
}

fn candidates_named(fs: &Vec<Function>, name: &String) -> (res: Vec<usize>)
    ensures
        res@.len() == named(fs@, name@).len(),
        forall|k: int| 0 <= k < res@.len() ==> res@[k] < fs@.len() && fs@[#[trigger] res@[k] as int] == named(fs@, name@)[k],
{
    let mut res: Vec<usize> = Vec::new();
    let mut i: usize = 0;
    while i < fs.len()
        invariant
            i <= fs@.len(),
            res@.len() == named(fs@.take(i as int), name@).len(),
            forall|k: int| 0 <= k < res@.len() ==> res@[k] < i && fs@[#[trigger] res@[k] as int] == named(fs@.take(i as int), name@)[k],
        decreases fs@.len() - i,
    {
        proof {
            assert(fs@.take(i + 1).drop_last() =~= fs@.take(i as int));
            assert(fs@.take(i + 1).last() == fs@[i as int]);
        }
        if str_eq(fs[i].name.as_str(), name.as_str()) {
            res.push(i);
        }
        i += 1;
    }
    assert(fs@.take(fs@.len() as int) =~= fs@);
    res
}

fn check_expression_ambiguity(
    fs: &Vec<Function>,
    f: &Function,
    ctx: &String,
    expr: &String,
    seen: &mut Vec<(String, String, String)>,
    diagnostics: &mut Vec<Diagnostic>,
)
    ensures
        match call_names(expr@) {
            Ok(names) => {
                let r = ambiguity_scan(fs@, *f, ctx@, expr@, names, key_texts(old(seen)@));
                appended(final(diagnostics)@, old(diagnostics)@, r.0) && key_texts(final(seen)@) == r.1
            },
            Err(_) => final(diagnostics)@ == old(diagnostics)@ && final(seen)@ == old(seen)@,
        },
{
    let ghost base = diagnostics@;
    let ghost s0 = key_texts(seen@);
    assert(diagnostics@.skip(base.len() as int) =~= Seq::<Diagnostic>::empty());
    assert(diagnostics@.take(base.len() as int) =~= base);
    let calls = match called_functions(expr.as_str()) {
        Ok(c) => c,
        Err(_) => return,
    };
    let ghost names = call_names(expr@)->Ok_0;
    let fsym = f.symbol();
    let mut i: usize = 0;
    assert(names.take(0) =~= Seq::<Seq<char>>::empty());
    while i < calls.len()
        invariant
            i <= calls@.len(),
            calls@.len() == names.len(),
            call_names(expr@) == Ok::<Seq<Seq<char>>, Seq<char>>(names),
            forall|j: int| 0 <= j < calls@.len() ==> #[trigger] calls@[j].raw@ == names[j],
            forall|j: int| 0 <= j < calls@.len() ==> parsed_reference(#[trigger] calls@[j], calls@[j].raw@),
            fsym@ == symbol_text(*f),
            appended(diagnostics@, base, ambiguity_scan(fs@, *f, ctx@, expr@, names.take(i as int), s0).0),
            key_texts(seen@) == ambiguity_scan(fs@, *f, ctx@, expr@, names.take(i as int), s0).1,
        decreases calls@.len() - i,
    {
        proof {
            assert(names.take(i + 1).drop_last() =~= names.take(i as int));
            assert(names.take(i + 1).last() == names[i as int]);
            assert(parsed_reference(calls@[i as int], names[i as int]));
        }
        let r = &calls[i];
        if !r.is_qualified() {
            let cands = candidates_named(fs, &r.name);
            if cands.len() > 1 && !has_key(seen, &fsym, &r.raw, ctx) {
                let mut syms: Vec<String> = Vec::new();
                let mut k: usize = 0;
                while k < cands.len()
                    invariant
                        k <= cands@.len(),
                        cands@.len() == named(fs@, r.name@).len(),
                        forall|j: int| 0 <= j < cands@.len() ==> cands@[j] < fs@.len() && fs@[#[trigger] cands@[j] as int] == named(fs@, r.name@)[j],
                        syms@.len() == k,
                        forall|j: int| 0 <= j < k ==> #[trigger] syms@[j]@ == symbol_text(named(fs@, r.name@)[j]),
                    decreases cands@.len() - k,
                {
                    syms.push(fs[cands[k]].symbol());
                    k += 1;
                }
                assert(texts(syms@) =~= named(fs@, r.name@).map_values(|g: Function| symbol_text(g)));
                let joined = join_strings(&syms, ", ");
                let mut m = owned("Call `");
                m.append(r.raw.as_str());
                m.append("` is ambiguous; use a qualified reference.");
                let d = Diagnostic::error("AmbiguousUnqualifiedCall", m.as_str(), Some(f.target()))
                    .with_data("function", fsym.as_str())
                    .with_data("call", r.raw.as_str())
                    .with_data("candidates", joined.as_str())
                    .with_data("context", ctx.as_str())
                    .with_data("expression", expr.as_str())
                    .with_repair("Use `module.name(...)` or `@module.name.vN(...)` for ambiguous calls.");
                proof {
                    assert(r.name@ == reference_parts(names[i as int]).1);
                    assert(data_texts(d) =~= seq![
                        ("function"@, symbol_text(*f)),
                        ("call"@, names[i as int]),
                        ("candidates"@, join_spec(named(fs@, reference_parts(names[i as int]).1).map_values(|g: Function| symbol_text(g)), ", "@)),
                        ("context"@, ctx@),
                        ("expression"@, expr@),
                    ]);
                    lemma_appended_push(diagnostics@, base, ambiguity_scan(fs@, *f, ctx@, expr@, names.take(i as int), s0).0, d, finding_of(d));
                }
                diagnostics.push(d);
                push_key(seen, fsym.clone(), r.raw.clone(), ctx.clone());
            }
        }
        i += 1;
    }
    assert(names.take(calls@.len() as int) =~= names);
}

/// Reports unqualified calls whose name several functions share.
pub fn check_ambiguous_unqualified_calls(program: &Program, diagnostics: &mut Vec<Diagnostic>)
    ensures
        appended(final(diagnostics)@, old(diagnostics)@, ambiguity_findings(program.functions@, program.functions@.len() as int).0),
{
    let ghost base = diagnostics@;
    let fs = &program.functions;
    assert(diagnostics@.skip(base.len() as int) =~= Seq::<Diagnostic>::empty());
    assert(diagnostics@.take(base.len() as int) =~= base);
    let mut seen: Vec<(String, String, String)> = Vec::new();
    assert(key_texts(seen@) =~= Set::<EffectKey>::empty());
    let mut i: usize = 0;
    while i < fs.len()
        invariant
            i <= fs@.len(),
            appended(diagnostics@, base, ambiguity_findings(fs@, i as int).0),
            key_texts(seen@) == ambiguity_findings(fs@, i as int).1,
        decreases fs@.len() - i,
    {
        let f = &fs[i];
        let es = function_expressions(f);
        let ghost ev = pair_texts(es@);
        let ghost so_far = ambiguity_findings(fs@, i as int);
        let ghost mid = diagnostics@;
        let mut k: usize = 0;
        assert(ev.take(0) =~= Seq::<(Seq<char>, Seq<char>)>::empty());
        assert(diagnostics@.skip(mid.len() as int) =~= Seq::<Diagnostic>::empty());
        assert(diagnostics@.take(mid.len() as int) =~= mid);
        while k < es.len()
            invariant
                k <= es@.len(),
                ev == pair_texts(es@),
                ev == fn_exprs(*f),
                appended(diagnostics@, mid, ambiguity_exprs(fs@, *f, ev.take(k as int), so_far.1).0),
                key_texts(seen@) == ambiguity_exprs(fs@, *f, ev.take(k as int), so_far.1).1,
            decreases es@.len() - k,
        {
            proof {
                assert(ev.take(k + 1).drop_last() =~= ev.take(k as int));
                assert(ev.take(k + 1).last() == ev[k as int]);
                assert(ev[k as int] == (es@[k as int].0@, es@[k as int].1@));
            }
            let ghost before = diagnostics@;
            let ghost acc = ambiguity_exprs(fs@, *f, ev.take(k as int), so_far.1);
            check_expression_ambiguity(fs, f, &es[k].0, &es[k].1, &mut seen, diagnostics);
            proof {
                match call_names(es@[k as int].1@) {
                    Ok(names) => {
                        let r = ambiguity_scan(fs@, *f, es@[k as int].0@, es@[k as int].1@, names, acc.1);
                        lemma_appended_trans(before, diagnostics@, mid, acc.0, r.0);
                    },
                    Err(_) => {},
                }
            }
            k += 1;
        }
        assert(ev.take(es@.len() as int) =~= ev);
        proof {
            let more = ambiguity_exprs(fs@, *f, ev, so_far.1).0;
            lemma_appended_trans(mid, diagnostics@, base, so_far.0, more);
        }
        i += 1;
    }
}


// ---------------------------------------------------------------------------
// Duplicate intents
// ---------------------------------------------------------------------------
/// The distinct words of an intent's exact-duplicate key.
pub open spec fn key_words(s: Seq<char>) -> Set<Seq<char>> {
    split_spec(intent_key(s), ' ').to_set().remove(seq![])
}

/// The term sets two intents are compared by: their canonical terms, or, when either has
/// none, their words.
pub open spec fn compared_terms(left: Seq<char>, right: Seq<char>) -> (Set<Seq<char>>, Set<Seq<char>>) {
    if intent_words(left) == Set::<Seq<char>>::empty() || intent_words(right) == Set::<Seq<char>>::empty() {
        (key_words(left), key_words(right))
    } else {
        (intent_words(left), intent_words(right))
    }
}

/// The terms two intents share, and those only the first and only the second has.
pub open spec fn difference_data(left: Seq<char>, right: Seq<char>) -> Seq<(Seq<char>, Seq<char>)> {
    let (l, r) = compared_terms(left, right);
    seq![
        ("shared_terms"@, label(l.intersect(r))),
        ("new_only_terms"@, label(l - r)),
        ("candidate_only_terms"@, label(r - l)),
    ]
}

/// The index of the first function before `n` that is public and whose intent has `key`.
pub open spec fn first_intent(fs: Seq<Function>, key: Seq<char>, n: int) -> int
    decreases n,
{
    if n <= 0 || n > fs.len() {
        n
    } else if first_intent(fs, key, n - 1) < n - 1 {
        first_intent(fs, key, n - 1)
    } else if fs[n - 1].public && fs[n - 1].intent is Some && intent_key(fs[n - 1].intent->0@) == key {
        n - 1
    } else {
        n
    }
}

/// What the duplicate-intent check reports for one function: an exact duplicate of an
/// earlier public intent, or the near-duplicate warning supplied for it.
pub enum IntentItem {
    Exact(Finding),
    Near(int),
}

pub open spec fn intent_items(fs: Seq<Function>, near: Seq<Option<Diagnostic>>, n: int) -> Seq<IntentItem>
    decreases n,
{
    if n <= 0 || n > fs.len() {
        seq![]
    } else {
        let rest = intent_items(fs, near, n - 1);
        let f = fs[n - 1];
        if !f.public || f.intent is None || intent_key(f.intent->0@).len() == 0 {
            rest
        } else {
            let key = intent_key(f.intent->0@);
            let j = first_intent(fs, key, n - 1);
            if j < n - 1 {
                let g = fs[j];
                rest.push(
                    IntentItem::Exact(
                        (
                            Severity::Error,
                            "PossibleDuplicate"@,
                            "Public function `"@ + f.name@ + "` has the same intent as `"@ + symbol_text(g) + "`."@,
                            target_of(f),
                            seq![
                                ("first"@, target_of(g)),
                                ("first_symbol"@, symbol_text(g)),
                                ("first_intent"@, g.intent->0@),
                                ("intent"@, f.intent->0@),
                            ] + difference_data(f.intent->0@, g.intent->0@),
                            add_prose(
                                add_command(no_repairs(), "Find existing functions with the same intent"@, intent_query(f.intent->0@)),
                                "Reuse the existing symbol or make the new intent more specific."@,
                            ),
                        ),
                    ),
                )
            } else if near[n - 1] is Some {
                rest.push(IntentItem::Near(n - 1))
            } else {
                rest
            }
        }
    }
}

/// `bin/serow query intent <intent>`
pub open spec fn intent_query(intent: Seq<char>) -> Seq<Seq<char>> {
    seq!["bin/serow"@, "query"@, "intent"@, intent]
}

/// `d` is the near-duplicate warning for function `f` against the public function `g`, whose
/// intent differs from it once normalized: its code, target, message, data keys and term data,
/// and its repairs. The score and the reasons are the similarity scorer's.
pub open spec fn near_warning(f: Function, g: Function, d: Diagnostic) -> bool {
    let data = data_texts(d);
    &&& g.public && g.intent is Some && f.intent is Some
    &&& intent_key(g.intent->0@) != intent_key(f.intent->0@)
    &&& d.severity == Severity::Warning
    &&& d.code@ == "NearDuplicateIntent"@
    &&& d.target is Some && d.target->0@ == target_of(f)
    &&& d.message@ == "Public function `"@ + f.name@ + "` has an intent similar to `"@ + symbol_text(g) + "`."@
    &&& data.len() == 9
    &&& data.take(4) == seq![
        ("candidate"@, symbol_text(g)),
        ("candidate_target"@, target_of(g)),
        ("candidate_intent"@, g.intent->0@),
        ("intent"@, f.intent->0@),
    ]
    &&& data[4].0 == "score"@
    &&& data[5].0 == "reasons"@
    &&& data.skip(6) == difference_data(f.intent->0@, g.intent->0@)
    &&& repairs_of(d) == add_prose(
        add_command(no_repairs(), "Review existing intent matches"@, intent_query(f.intent->0@)),
        "Reuse the closest existing symbol or make the new intent more specific."@,
    )
}

/// `d` is the near-duplicate warning for function `i` against candidate `j`: the earlier
/// function `j` when `j < i`, else intrinsic `j - i`.
pub open spec fn near_candidate(fs: Seq<Function>, i: int, j: int, d: Diagnostic) -> bool {
    &&& 0 <= i < fs.len()
    &&& 0 <= j
    &&& if j < i {
        near_warning(fs[i], fs[j], d)
    } else {
        exists|ins: Seq<Function>| is_intrinsic_list(ins) && j - i < ins.len() && near_warning(fs[i], #[trigger] ins[j - i], d)
    }
}

/// Each supplied near-duplicate warning is one for its own function against an earlier one
/// or an intrinsic.
pub open spec fn near_warnings_ok(fs: Seq<Function>, near: Seq<Option<Diagnostic>>) -> bool {
    &&& near.len() == fs.len()
    &&& forall|i: int| 0 <= i < near.len() && (#[trigger] near[i]) is Some ==> exists|j: int| near_candidate(fs, i, j, near[i]->0)
}

pub open spec fn reports_items(ds: Seq<Diagnostic>, items: Seq<IntentItem>, near: Seq<Option<Diagnostic>>) -> bool {
    &&& ds.len() == items.len()
    &&& forall|k: int|
        0 <= k < ds.len() ==> match #[trigger] items[k] {
            IntentItem::Exact(fnd) => ds[k].target is Some && finding_of(ds[k]) == fnd,
            IntentItem::Near(i) => 0 <= i < near.len() && near[i] == Some(ds[k]),
        }
}

fn key_word_list(s: &String) -> (res: Vec<Vec<char>>)
    ensures
        holds_set(res@, key_words(s@)),
{
    let key = normalized_words(s.as_str());
    let parts = split_chars(&key, ' ');
    let ghost ps = split_spec(key@, ' ');
    let mut out: Vec<Vec<char>> = Vec::new();
    let mut i: usize = 0;
    assert(views(out@).to_set() =~= ps.take(0).to_set().remove(seq![]));
    while i < parts.len()
        invariant
            i <= parts@.len(),
            parts@.len() == ps.len(),
            ps == split_spec(intent_key(s@), ' '),
            forall|j: int| 0 <= j < parts@.len() ==> #[trigger] parts@[j]@ == ps[j],
            strictly_sorted(views(out@)),
            views(out@).to_set() == ps.take(i as int).to_set().remove(seq![]),
        decreases parts@.len() - i,
    {
        assert(ps.take(i + 1) =~= ps.take(i as int).push(ps[i as int]));
        proof {
            ps.take(i as int).lemma_push_to_set_commute(ps[i as int]);
        }
        if parts[i].len() > 0 {
            insert_sorted_unique(&mut out, parts[i].clone());
        } else {
            assert(parts@[i as int]@ =~= Seq::<char>::empty());
        }
        assert(views(out@).to_set() =~= ps.take(i + 1).to_set().remove(seq![]));
        i += 1;
    }
    assert(ps.take(parts@.len() as int) =~= ps);
    out
}

fn terms_list(s: &String) -> (res: Vec<Vec<char>>)
    ensures
        holds_set(res@, intent_words(s@)),
{
    let t = intent_terms(s.as_str());
    let mut out: Vec<Vec<char>> = Vec::new();
    let mut i: usize = 0;
    while i < t.len()
        invariant
            i <= t@.len(),
            out@.len() == i,
            forall|j: int| 0 <= j < i ==> #[trigger] out@[j]@ == t@[j]@,
        decreases t@.len() - i,
    {
        out.push(chars_of(t[i].as_str()));
        i += 1;
    }
    assert(views(out@) =~= t@.map_values(|s: String| s@));
    out
}

fn intersection(a: &Vec<Vec<char>>, b: &Vec<Vec<char>>) -> (res: Vec<Vec<char>>)
    ensures
        strictly_sorted(views(res@)),
        views(res@).to_set() == views(a@).to_set().intersect(views(b@).to_set()),
{
    let mut out: Vec<Vec<char>> = Vec::new();
    let mut i: usize = 0;
    assert(views(out@).to_set() =~= views(a@).take(0).to_set().intersect(views(b@).to_set()));
    while i < a.len()
        invariant
            i <= a@.len(),
            strictly_sorted(views(out@)),
            views(out@).to_set() == views(a@).take(i as int).to_set().intersect(views(b@).to_set()),
        decreases a@.len() - i,
    {
        assert(views(a@).take(i + 1) =~= views(a@).take(i as int).push(views(a@)[i as int]));
        assert(views(a@)[i as int] == a@[i as int]@);
        proof {
            views(a@).take(i as int).lemma_push_to_set_commute(views(a@)[i as int]);
        }
        if contains_text(b, &a[i]) {
            insert_sorted_unique(&mut out, a[i].clone());
        }
        assert(views(out@).to_set() =~= views(a@).take(i + 1).to_set().intersect(views(b@).to_set()));
        i += 1;
    }
    assert(views(a@).take(a@.len() as int) =~= views(a@));
    out
}

pub fn differences(left: &String, right: &String) -> (res: (String, String, String))
    ensures
        seq![("shared_terms"@, res.0@), ("new_only_terms"@, res.1@), ("candidate_only_terms"@, res.2@)] == difference_data(left@, right@),
{
    let mut l = terms_list(left);
    let mut r = terms_list(right);
    proof {
        lemma_empty_set(views(l@));
        lemma_empty_set(views(r@));
    }
    if l.len() == 0 || r.len() == 0 {
        l = key_word_list(left);
        r = key_word_list(right);
    }
    let shared = intersection(&l, &r);
    let lo = difference(&l, &r);
    let ro = difference(&r, &l);
    (label_text(&shared), label_text(&lo), label_text(&ro))
}

/// The duplicate-intent check's state after the first `i` functions.
pub open spec fn intent_state(
    fs: Seq<Function>,
    nd: Seq<Option<Diagnostic>>,
    base: Seq<Diagnostic>,
    ds: Seq<Diagnostic>,
    keys: Seq<Vec<char>>,
    firsts: Seq<usize>,
    i: int,
) -> bool {
    &&& 0 <= i <= fs.len()
    &&& nd.len() == fs.len()
    &&& ds.len() >= base.len()
    &&& ds.take(base.len() as int) == base
    &&& reports_items(ds.skip(base.len() as int), intent_items(fs, nd, i), nd)
    &&& keys.len() == firsts.len()
    &&& forall|k: int| 0 <= k < firsts.len() ==> #[trigger] firsts[k] < i
    &&& forall|k: int| 0 <= k < keys.len() ==> keys[k]@.len() > 0
    &&& forall|k: int| 0 <= k < keys.len() ==> first_intent(fs, #[trigger] keys[k]@, i) == firsts[k] as int
    &&& forall|key: Seq<char>| key.len() > 0 && first_intent(fs, key, i) < i ==> exists|k: int| 0 <= k < keys.len() && #[trigger] keys[k]@ == key
}

#[verifier::rlimit(60)]
fn intent_step(
    fs: &Vec<Function>,
    i: usize,
    slot: Option<Diagnostic>,
    keys: &mut Vec<Vec<char>>,
    firsts: &mut Vec<usize>,
    diagnostics: &mut Vec<Diagnostic>,
    Ghost(nd): Ghost<Seq<Option<Diagnostic>>>,
    Ghost(base): Ghost<Seq<Diagnostic>>,
)
    requires
        i < fs@.len(),
        slot == nd[i as int],
        intent_state(fs@, nd, base, old(diagnostics)@, old(keys)@, old(firsts)@, i as int),
    ensures
        intent_state(fs@, nd, base, final(diagnostics)@, final(keys)@, final(firsts)@, i + 1),
{
        let ghost before = diagnostics@;
        let f = &fs[i];
        let mut handled = false;
        if f.public {
            match &f.intent {
                Some(intent) => {
                    let key = normalized_words(intent.as_str());
                    if key.len() > 0 {
                        handled = true;
                        let mut p: usize = 0;
                        while p < keys.len()
                            invariant
                                p <= keys@.len(),
                                forall|k: int| 0 <= k < p ==> #[trigger] keys@[k]@ != key@,
                            ensures
                                p <= keys@.len(),
                                forall|k: int| 0 <= k < p ==> #[trigger] keys@[k]@ != key@,
                                p < keys@.len() ==> keys@[p as int]@ == key@,
                            decreases keys@.len() - p,
                        {
                            if crate::text::seq_eq(&keys[p], &key) {
                                break;
                            }
                            p += 1;
                        }
                        if p < keys.len() {
                            let j = firsts[p];
                            let g = &fs[j];
                            let gi = match &g.intent {
                                Some(x) => x.clone(),
                                None => String::new(),
                            };
                            proof {
                                assert(first_intent(fs@, key@, i as int) == j as int);
                                lemma_first_intent(fs@, key@, i as int);
                                lemma_first_intent_found(fs@, key@, i as int);
                            }
                            let (shared, lo, ro) = differences(intent, &gi);
                            let gsym = g.symbol();
                            let mut m = owned("Public function `");
                            m.append(f.name.as_str());
                            m.append("` has the same intent as `");
                            m.append(gsym.as_str());
                            m.append("`.");
                            let gt = g.target();
                            let mut command: Vec<String> = Vec::new();
                            command.push(owned("bin/serow"));
                            command.push(owned("query"));
                            command.push(owned("intent"));
                            command.push(intent.clone());
                            let d = Diagnostic::error("PossibleDuplicate", m.as_str(), Some(f.target()))
                                .with_data("first", gt.as_str())
                                .with_data("first_symbol", gsym.as_str())
                                .with_data("first_intent", gi.as_str())
                                .with_data("intent", intent.as_str())
                                .with_data("shared_terms", shared.as_str())
                                .with_data("new_only_terms", lo.as_str())
                                .with_data("candidate_only_terms", ro.as_str())
                                .with_command_repair("Find existing functions with the same intent", command)
                                .with_repair("Reuse the existing symbol or make the new intent more specific.");
                            proof {
                                let cv = seq!["bin/serow"@, "query"@, "intent"@, intent@];
                                assert(strs(d.repair_actions@[0].command@) =~= cv);
                                assert(data_texts(d) =~= seq![
                                    ("first"@, target_of(fs@[j as int])),
                                    ("first_symbol"@, symbol_text(fs@[j as int])),
                                    ("first_intent"@, fs@[j as int].intent->0@),
                                    ("intent"@, f.intent->0@),
                                ] + difference_data(f.intent->0@, fs@[j as int].intent->0@));
                            }
                            diagnostics.push(d);
                            proof {
                                assert(diagnostics@.take(base.len() as int) =~= before.take(base.len() as int));
                                assert(diagnostics@.skip(base.len() as int) =~= before.skip(base.len() as int).push(d));
                                assert forall|key2: Seq<char>| key2.len() > 0 && first_intent(fs@, key2, i + 1) < i + 1 implies exists|k: int| 0 <= k < keys@.len() && #[trigger] keys@[k]@ == key2 by {
                                    if key2 != key@ {
                                        assert(first_intent(fs@, key2, i as int) < i);
                                    } else {
                                        assert(keys@[p as int]@ == key2);
                                    }
                                }
                            }
                        } else {
                            proof {
                                if first_intent(fs@, key@, i as int) < i {
                                    let k = choose|k: int| 0 <= k < keys@.len() && #[trigger] keys@[k]@ == key@;
                                    assert(keys@[k]@ != key@);
                                }
                                lemma_first_intent(fs@, key@, i as int);
                            }
                            match slot {
                                Some(d) => {
                                    diagnostics.push(d);
                                    proof {
                                        assert(diagnostics@.take(base.len() as int) =~= before.take(base.len() as int));
                                        assert(diagnostics@.skip(base.len() as int) =~= before.skip(base.len() as int).push(d));
                                    }
                                },
                                None => {},
                            }
                            let ghost old_keys = keys@;
                            let ghost old_firsts = firsts@;
                            keys.push(key);
                            firsts.push(i);
                            proof {
                                assert forall|k: int| 0 <= k < keys@.len() implies first_intent(fs@, #[trigger] keys@[k]@, i + 1) == firsts@[k] as int by {
                                    if k < old_keys.len() {
                                        assert(keys@[k] == old_keys[k]);
                                        assert(keys@[k]@ != key@);
                                    }
                                }
                                assert forall|key2: Seq<char>| key2.len() > 0 && first_intent(fs@, key2, i + 1) < i + 1 implies exists|k: int| 0 <= k < keys@.len() && #[trigger] keys@[k]@ == key2 by {
                                    if key2 != key@ {
                                        assert(first_intent(fs@, key2, i as int) < i);
                                        let k = choose|k: int| 0 <= k < old_keys.len() && #[trigger] old_keys[k]@ == key2;
                                        assert(keys@[k] == old_keys[k]);
                                    } else {
                                        assert(keys@[old_keys.len() as int]@ == key2);
                                    }
                                }
                            }
                        }
                    }
                },
                None => {},
            }
        }
        if !handled {
            proof {
                assert forall|k: int| 0 <= k < keys@.len() implies first_intent(fs@, #[trigger] keys@[k]@, i + 1) == firsts@[k] as int by {
                    lemma_first_intent(fs@, keys@[k]@, i as int);
                }
                assert forall|key2: Seq<char>| key2.len() > 0 && first_intent(fs@, key2, i + 1) < i + 1 implies exists|k: int| 0 <= k < keys@.len() && #[trigger] keys@[k]@ == key2 by {
                    lemma_first_intent(fs@, key2, i as int);
                }
                assert(diagnostics@ == before);
            }
        }
}

/// Reports each public function whose intent has the same exact-duplicate key as an
/// earlier public function's; for the others, adds the near-duplicate warning given for
/// them, if any (that scoring weighs terms with floating-point weights and runs outside).
pub fn check_duplicate_intents(program: &Program, near_duplicates: Vec<Option<Diagnostic>>, diagnostics: &mut Vec<Diagnostic>)
    requires
        near_warnings_ok(program.functions@, near_duplicates@),
    ensures
        final(diagnostics)@.len() >= old(diagnostics)@.len(),
        final(diagnostics)@.take(old(diagnostics)@.len() as int) == old(diagnostics)@,
        reports_items(
            final(diagnostics)@.skip(old(diagnostics)@.len() as int),
            intent_items(program.functions@, near_duplicates@, program.functions@.len() as int),
            near_duplicates@,
        ),
{
    let ghost base = diagnostics@;
    let fs = &program.functions;
    let ghost nd = near_duplicates@;
    let mut near = near_duplicates;
    let mut keys: Vec<Vec<char>> = Vec::new();
    let mut firsts: Vec<usize> = Vec::new();
    assert(diagnostics@.skip(base.len() as int) =~= Seq::<Diagnostic>::empty());
    assert(diagnostics@.take(base.len() as int) =~= base);
    assert(nd.skip(0) =~= nd);
    let mut i: usize = 0;
    while i < fs.len()
        invariant
            near@ == nd.skip(i as int),
            i <= fs@.len(),
            intent_state(fs@, nd, base, diagnostics@, keys@, firsts@, i as int),
        decreases fs@.len() - i,
    {
        let slot = near.remove(0);
        assert(slot == nd[i as int]);
        assert(near@ =~= nd.skip(i + 1));
        intent_step(fs, i, slot, &mut keys, &mut firsts, diagnostics, Ghost(nd), Ghost(base));
        i += 1;
    }
}

proof fn lemma_first_intent_found(fs: Seq<Function>, key: Seq<char>, n: int)
    requires
        0 <= n <= fs.len(),
        first_intent(fs, key, n) < n,
    ensures
        0 <= first_intent(fs, key, n),
        fs[first_intent(fs, key, n)].public,
        fs[first_intent(fs, key, n)].intent is Some,
        intent_key(fs[first_intent(fs, key, n)].intent->0@) == key,
    decreases n,
{
    if n > 0 && first_intent(fs, key, n - 1) < n - 1 {
        lemma_first_intent_found(fs, key, n - 1);
    }
}

proof fn lemma_first_intent(fs: Seq<Function>, key: Seq<char>, n: int)
    requires
        0 <= n < fs.len(),
    ensures
        first_intent(fs, key, n) <= n,
        first_intent(fs, key, n + 1) == if first_intent(fs, key, n) < n {
            first_intent(fs, key, n)
        } else if fs[n].public && fs[n].intent is Some && intent_key(fs[n].intent->0@) == key {
            n
        } else {
            n + 1
        },
    decreases n,
{
    if n > 0 {
        lemma_first_intent(fs, key, n - 1);
    }
}

} // verus!
