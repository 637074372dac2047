//! Structured edits of one function in a Serow source: the edit is decided and applied
//! here, on a parsed program, and the result is the source text to write back.
use vstd::prelude::*;
use vstd::string::*;

use crate::diagnostic::{
    add_command, add_prose, any_error, has_errors, no_repairs, push_arg, repairs_of, strs, Diagnostic, Repairs,
    Severity,
};
use crate::checks::intent_query;
use crate::formatter::{format_program, program_text};
use crate::ledger::{exact_intent_key, intent_key};
use crate::parser::param_views;
use crate::pinning::{apply_version_edit, version_applied, version_decision};
use crate::qualify::{apply_qualify_edit, qualify_applied, qualify_decision};
use crate::intrinsics::{intrinsic_functions, is_intrinsic_list};
use crate::eval::valid_version;
use crate::types::{is_ident, is_valid_ident};
use crate::model::{
    same_function, symbol_text, target_text, Function, MigrationRecord, Module, Param, Program,
};
use crate::text::{
    chars_of, contains_seq, decimal, find_char, find_from, lemma_find_from, lemma_rfind_before,
    rfind_before, rfind_char, slice_chars, split_chars, split_spec, string_of, trim_chars, ends_with, has_prefix_str, has_suffix_str, join_spec,
    join_strings, owned, starts_with, str_eq, trim, trim_str, usize_text,
};

verus! {

#[derive(Debug)]
pub struct PatchSummary {
    pub changed: usize,
    pub diagnostics: Vec<Diagnostic>,
}

impl PatchSummary {
    /// A patch succeeded when none of its diagnostics is an error.
    pub fn ok(&self) -> (res: bool)
        ensures
            res == !any_error(self.diagnostics@),
    {
        !has_errors(&self.diagnostics)
    }
}

/// The views of a list of strings.
pub open spec fn texts(v: Seq<String>) -> Seq<Seq<char>> {
    v.map_values(|s: String| s@)
}

/// `d` is an error with the given code and message, aimed at `target`.
pub open spec fn error_at(d: Diagnostic, code: Seq<char>, message: Seq<char>, target: Seq<char>) -> bool {
    &&& d.severity == Severity::Error
    &&& d.code@ == code
    &&& d.message@ == message
    &&& d.target is Some
    &&& d.target->0@ == target
}

/// The patch was refused before the program was looked at: one error at the path, with
/// the given repairs.
pub open spec fn refused_with(
    res: (PatchSummary, Option<String>),
    code: Seq<char>,
    message: Seq<char>,
    path: Seq<char>,
    repairs: Repairs,
) -> bool {
    &&& res.1 is None
    &&& res.0.changed == 0
    &&& res.0.diagnostics@.len() == 1
    &&& error_at(res.0.diagnostics@[0], code, message, path)
    &&& data_texts(res.0.diagnostics@[0]) == Seq::<(Seq<char>, Seq<char>)>::empty()
    &&& repairs_of(res.0.diagnostics@[0]) == repairs
}

/// The patch was refused before the program was looked at: one error at the path, with
/// no data and no repairs.
pub open spec fn refused(
    res: (PatchSummary, Option<String>),
    code: Seq<char>,
    message: Seq<char>,
    path: Seq<char>,
) -> bool {
    refused_with(res, code, message, path, no_repairs())
}

pub(crate) fn refuse(code: &str, message: &str, path: &str) -> (res: (PatchSummary, Option<String>))
    ensures
        refused(res, code@, message@, path@),
{
    let d = Diagnostic::error(code, message, Some(owned(path)));
    assert(data_texts(d) =~= Seq::<(Seq<char>, Seq<char>)>::empty());
    let mut diagnostics: Vec<Diagnostic> = Vec::new();
    diagnostics.push(d);
    (PatchSummary { changed: 0, diagnostics }, None)
}

pub(crate) fn refuse_with_repair(code: &str, message: &str, path: &str, repair: &str) -> (res: (
    PatchSummary,
    Option<String>,
))
    ensures
        refused_with(res, code@, message@, path@, prose(repair@)),
        res.0.diagnostics@[0].repairs@.len() == 1,
        res.0.diagnostics@[0].repairs@[0]@ == repair@,
{
    let d = Diagnostic::error(code, message, Some(owned(path))).with_repair(repair);
    assert(data_texts(d) =~= Seq::<(Seq<char>, Seq<char>)>::empty());
    let mut diagnostics: Vec<Diagnostic> = Vec::new();
    diagnostics.push(d);
    (PatchSummary { changed: 0, diagnostics }, None)
}

/// `message` with `x` put between `a` and `b`.
pub open spec fn quote(a: Seq<char>, x: Seq<char>, b: Seq<char>) -> Seq<char> {
    a + x + b
}

pub(crate) fn quoted(a: &str, x: &str, b: &str) -> (res: String)
    ensures
        res@ == quote(a@, x@, b@),
{
    let mut s = owned(a);
    s.append(x);
    s.append(b);
    s
}

// ---------------------------------------------------------------------------
// Finding the function to patch
// ---------------------------------------------------------------------------
/// A target names `f` by its symbol, its name, or `module.name`.
pub open spec fn names_target(f: Function, t: Seq<char>) -> bool {
    symbol_text(f) == t || f.name@ == t || f.module@ + "."@ + f.name@ == t
}

/// The functions a target names, in order.
pub open spec fn named_by(fs: Seq<Function>, t: Seq<char>) -> Seq<Function>
    decreases fs.len(),
{
    if fs.len() == 0 {
        seq![]
    } else if names_target(fs.last(), t) {
        named_by(fs.drop_last(), t).push(fs.last())
    } else {
        named_by(fs.drop_last(), t)
    }
}

/// How a patch target resolves: to the one symbol it names, or to the error's code and
/// message.
pub open spec fn target_resolution(fs: Seq<Function>, target: Seq<char>) -> Result<
    Seq<char>,
    (Seq<char>, Seq<char>),
> {
    let t = trim(target);
    let m = named_by(fs, t);
    if t.len() == 0 {
        Err(("InvalidPatchTarget"@, "Function target must not be empty."@))
    } else if m.len() == 1 {
        Ok(symbol_text(m[0]))
    } else if m.len() == 0 {
        Err(("PatchTargetNotFound"@, quote("Function `"@, t, "` was not found."@)))
    } else {
        Err(("AmbiguousPatchTarget"@, quote("Function target `"@, t, "` is ambiguous."@)))
    }
}

/// The repairs of a target's resolution error: naming an exact symbol when it is ambiguous.
pub open spec fn target_error_repairs(fs: Seq<Function>, target: Seq<char>) -> Repairs {
    let t = trim(target);
    if t.len() > 0 && named_by(fs, t).len() > 1 {
        prose("Use an exact symbol like `@module.name.v1`."@)
    } else {
        no_repairs()
    }
}

/// The data of a target's resolution error: the candidates' symbols when it is ambiguous.
pub open spec fn target_error_data(fs: Seq<Function>, target: Seq<char>) -> Seq<(Seq<char>, Seq<char>)> {
    let t = trim(target);
    let m = named_by(fs, t);
    if t.len() > 0 && m.len() > 1 {
        seq![("candidates"@, join_spec(m.map_values(|f: Function| symbol_text(f)), ", "@))]
    } else {
        seq![]
    }
}

fn names_target_exec(f: &Function, t: &str) -> (res: bool)
    ensures
        res == names_target(*f, t@),
{
    let sym = f.symbol();
    if str_eq(sym.as_str(), t) {
        return true;
    }
    if str_eq(f.name.as_str(), t) {
        return true;
    }
    let mut q = f.module.clone();
    q.append(".");
    q.append(f.name.as_str());
    str_eq(q.as_str(), t)
}

pub(crate) fn resolve_patch_target(program: &Program, target: &str, path: &str) -> (res: Result<
    String,
    Diagnostic,
>)
    ensures
        match (res, target_resolution(program.functions@, target@)) {
            (Ok(s), Ok(t)) => s@ == t,
            (Err(d), Err((code, message))) => error_at(d, code, message, path@) && data_texts(d)
                == target_error_data(program.functions@, target@) && repairs_of(d)
                == target_error_repairs(program.functions@, target@),
            _ => false,
        },
{
    let t = trim_str(target);
    if t.as_str().unicode_len() == 0 {
        return Err(Diagnostic::error("InvalidPatchTarget", "Function target must not be empty.", Some(owned(path))));
    }
    let fs = &program.functions;
    let mut found: Vec<usize> = Vec::new();
    let mut i: usize = 0;
    while i < fs.len()
        invariant
            i <= fs@.len(),
            found@.len() == named_by(fs@.take(i as int), t@).len(),
            forall|k: int|
                0 <= k < found@.len() ==> found@[k] < i && fs@[#[trigger] found@[k] as int]
                    == named_by(fs@.take(i as int), t@)[k],
        decreases fs@.len() - i,
    {
        proof {
            assert(fs@.take(i + 1).drop_last() =~= fs@.take(i as int));
            assert(fs@.take(i + 1).last() == fs@[i as int]);
        }
        if names_target_exec(&fs[i], t.as_str()) {
            found.push(i);
        }
        i += 1;
    }
    assert(fs@.take(fs@.len() as int) =~= fs@);
    if found.len() == 1 {
        return Ok(fs[found[0]].symbol());
    }
    if found.len() == 0 {
        let m = quoted("Function `", t.as_str(), "` was not found.");
        return Err(Diagnostic::error("PatchTargetNotFound", m.as_str(), Some(owned(path))));
    }
    let ghost named = named_by(fs@, t@);
    let mut syms: Vec<String> = Vec::new();
    let mut k: usize = 0;
    while k < found.len()
        invariant
            k <= found@.len(),
            named == named_by(fs@, t@),
            found@.len() == named.len(),
            forall|j: int| 0 <= j < found@.len() ==> found@[j] < fs@.len() && fs@[#[trigger] found@[j] as int] == named[j],
            syms@.len() == k,
            forall|j: int| 0 <= j < k ==> #[trigger] syms@[j]@ == symbol_text(named[j]),
        decreases found@.len() - k,
    {
        syms.push(fs[found[k]].symbol());
        k += 1;
    }
    let candidates = join_strings(&syms, ", ");
    assert(syms@.map_values(|p: String| p@) =~= named.map_values(|f: Function| symbol_text(f)));
    let m = quoted("Function target `", t.as_str(), "` is ambiguous.");
    let d = Diagnostic::error("AmbiguousPatchTarget", m.as_str(), Some(owned(path)))
        .with_data("candidates", candidates.as_str())
        .with_repair("Use an exact symbol like `@module.name.v1`.");
    assert(data_texts(d) =~= target_error_data(fs@, target@));
    Err(d)
}

/// The first (module, function) position, in module order, of a function with `sym`.
pub open spec fn first_position(ms: Seq<Module>, sym: Seq<char>, mi: int, fi: int) -> bool {
    &&& 0 <= mi < ms.len()
    &&& 0 <= fi < ms[mi].functions@.len()
    &&& symbol_text(ms[mi].functions@[fi]) == sym
    &&& forall|a: int, b: int|
        0 <= a < ms.len() && 0 <= b < ms[a].functions@.len() && (a < mi || (a == mi && b < fi))
            ==> symbol_text(#[trigger] ms[a].functions@[b]) != sym
}

/// No module holds a function with `sym`.
pub open spec fn nowhere(ms: Seq<Module>, sym: Seq<char>) -> bool {
    forall|a: int, b: int|
        0 <= a < ms.len() && 0 <= b < ms[a].functions@.len() ==> symbol_text(
            #[trigger] ms[a].functions@[b],
        ) != sym
}

pub(crate) fn find_module_function(program: &Program, symbol: &String) -> (res: Option<(usize, usize)>)
    ensures
        match res {
            Some((mi, fi)) => first_position(program.modules@, symbol@, mi as int, fi as int),
            None => nowhere(program.modules@, symbol@),
        },
{
    let ms = &program.modules;
    let mut a: usize = 0;
    while a < ms.len()
        invariant
            a <= ms@.len(),
            *ms == program.modules,
            forall|x: int, y: int|
                0 <= x < a && 0 <= y < ms@[x].functions@.len() ==> symbol_text(
                    #[trigger] ms@[x].functions@[y],
                ) != symbol@,
        decreases ms@.len() - a,
    {
        let fs = &ms[a].functions;
        let mut b: usize = 0;
        while b < fs.len()
            invariant
                a < ms@.len(),
                *ms == program.modules,
                *fs == ms@[a as int].functions,
                b <= fs@.len(),
                forall|x: int, y: int|
                    0 <= x < a && 0 <= y < ms@[x].functions@.len() ==> symbol_text(
                        #[trigger] ms@[x].functions@[y],
                    ) != symbol@,
                forall|y: int| 0 <= y < b ==> symbol_text(#[trigger] fs@[y]) != symbol@,
            decreases fs@.len() - b,
        {
            let s = fs[b].symbol();
            if s == *symbol {
                proof {
                    assert(s@ == symbol@);
                    assert(symbol_text(fs@[b as int]) == symbol@);
                    assert(ms@[a as int].functions@[b as int] == fs@[b as int]);
                    assert forall|x: int, y: int|
                        0 <= x < ms@.len() && 0 <= y < ms@[x].functions@.len() && (x < a || (x == a && y < b))
                            implies symbol_text(#[trigger] ms@[x].functions@[y]) != symbol@ by {
                        if x == a {
                            assert(ms@[x].functions@[y] == fs@[y]);
                        }
                    }
                }
                return Some((a, b));
            }
            b += 1;
        }
        a += 1;
    }
    None
}


// ---------------------------------------------------------------------------
// Edits
// ---------------------------------------------------------------------------
/// A list of one-line clauses of a function.
#[derive(Clone, Copy, Debug, PartialEq, Eq, Structural)]
pub enum LineList {
    Requires,
    Contracts,
    Examples,
}

/// An edit of a list of lines: add one, replace the one at a 1-based index (or the only
/// one), or remove the one at a 1-based index.
pub enum LineOp {
    Add(Seq<char>),
    Replace(Option<int>, Seq<char>),
    Remove(int),
}

/// The edit that a patch makes to its target function.
pub enum EditSpec {
    Line(LineList, LineOp),
    Property(PropertyOp),
    Migration(MigrationOp),
    Field(FieldOp),
    Intent(Seq<char>),
    Version(Seq<char>, Seq<Function>, Seq<char>),
    Qualify(Seq<char>, Seq<char>, Seq<char>),
}

/// What an edit does with the target function.
pub enum Decision {
    Keep,
    Update,
    Reject(Seq<char>, Seq<char>, Seq<(Seq<char>, Seq<char>)>, Seq<char>, Repairs),
}

/// What an edit does with a list of lines.
pub enum LineVerdict {
    Keep,
    Replace(Seq<Seq<char>>),
    Missing,
    Multiple,
}

pub open spec fn has_trimmed(lines: Seq<Seq<char>>, e: Seq<char>) -> bool {
    exists|k: int| 0 <= k < lines.len() && trim(#[trigger] lines[k]) == e
}

pub open spec fn line_verdict(lines: Seq<Seq<char>>, op: LineOp) -> LineVerdict {
    match op {
        LineOp::Add(e) => if has_trimmed(lines, e) {
            LineVerdict::Keep
        } else {
            LineVerdict::Replace(lines.push(e))
        },
        LineOp::Replace(Some(i), e) => if i <= 0 || i > lines.len() {
            LineVerdict::Missing
        } else if trim(lines[i - 1]) == e {
            LineVerdict::Keep
        } else {
            LineVerdict::Replace(lines.update(i - 1, e))
        },
        LineOp::Replace(None, e) => if lines.len() > 1 {
            LineVerdict::Multiple
        } else if lines.len() == 1 {
            if trim(lines[0]) == e {
                LineVerdict::Keep
            } else {
                LineVerdict::Replace(lines.update(0, e))
            }
        } else {
            LineVerdict::Replace(seq![e])
        },
        LineOp::Remove(i) => if i <= 0 || i > lines.len() {
            LineVerdict::Missing
        } else {
            LineVerdict::Replace(lines.remove(i - 1))
        },
    }
}

/// Replacing the line at an in-range position (counted from one) keeps the other lines
/// where they were and the number of lines, and puts the new text at that position; when
/// the line there already reads the new text, nothing changes. Adding a line keeps the old
/// lines in front and puts the new one last.
pub proof fn law_line_edits(lines: Seq<Seq<char>>, i: int, e: Seq<char>)
    ensures
        1 <= i <= lines.len() ==> match line_verdict(lines, LineOp::Replace(Some(i), e)) {
            LineVerdict::Replace(new) => {
                &&& new.len() == lines.len()
                &&& new[i - 1] == e
                &&& forall|k: int| 0 <= k < lines.len() && k != i - 1 ==> new[k] == lines[k]
                &&& trim(lines[i - 1]) != e
            },
            LineVerdict::Keep => trim(lines[i - 1]) == e,
            _ => false,
        },
        !(1 <= i <= lines.len()) ==> line_verdict(lines, LineOp::Replace(Some(i), e)) is Missing,
        match line_verdict(lines, LineOp::Replace(None, e)) {
            LineVerdict::Replace(new) => lines.len() <= 1 && new == seq![e],
            LineVerdict::Keep => lines.len() == 1 && trim(lines[0]) == e,
            LineVerdict::Multiple => lines.len() > 1,
            LineVerdict::Missing => false,
        },
        1 <= i <= lines.len() ==> match line_verdict(lines, LineOp::Remove(i)) {
            LineVerdict::Replace(new) => {
                &&& new.len() == lines.len() - 1
                &&& forall|k: int| 0 <= k < i - 1 ==> new[k] == lines[k]
                &&& forall|k: int| i - 1 <= k < new.len() ==> new[k] == lines[k + 1]
            },
            _ => false,
        },
        match line_verdict(lines, LineOp::Add(e)) {
            LineVerdict::Replace(new) => new.len() == lines.len() + 1 && new.take(lines.len() as int) == lines
                && new.last() == e,
            LineVerdict::Keep => exists|k: int| 0 <= k < lines.len() && trim(lines[k]) == e,
            _ => false,
        },
{
    if 1 <= i <= lines.len() {
        if trim(lines[i - 1]) != e {
            let new = lines.update(i - 1, e);
            assert(new.len() == lines.len());
        }
    }
    if !has_trimmed(lines, e) {
        assert(lines.push(e).take(lines.len() as int) =~= lines);
    }
    if lines.len() == 1 {
        assert(lines.update(0, e) =~= seq![e]);
    }
}


pub open spec fn line_field(f: Function, l: LineList) -> Seq<String> {
    match l {
        LineList::Requires => f.requires@,
        LineList::Contracts => f.contracts@,
        LineList::Examples => f.examples@,
    }
}

/// `g` is `f` with only the list `l` changed.
pub open spec fn only_lines_changed(f: Function, g: Function, l: LineList) -> bool {
    match l {
        LineList::Requires => same_function(g, Function { requires: g.requires, ..f }),
        LineList::Contracts => same_function(g, Function { contracts: g.contracts, ..f }),
        LineList::Examples => same_function(g, Function { examples: g.examples, ..f }),
    }
}

fn str_trimmed_eq(a: &String, e: &String) -> (res: bool)
    ensures
        res == (trim(a@) == e@),
{
    let t = trim_str(a.as_str());
    str_eq(t.as_str(), e.as_str())
}

/// An edit of a list of lines, as the program runs it.
pub enum LineEdit {
    Add(String),
    Replace(Option<usize>, String),
    Remove(usize),
}

pub open spec fn line_op(e: LineEdit) -> LineOp {
    match e {
        LineEdit::Add(s) => LineOp::Add(s@),
        LineEdit::Replace(Some(i), s) => LineOp::Replace(Some(i as int), s@),
        LineEdit::Replace(None, s) => LineOp::Replace(None, s@),
        LineEdit::Remove(i) => LineOp::Remove(i as int),
    }
}

#[derive(Clone, Copy, Debug, PartialEq, Eq, Structural)]
pub enum Verdict {
    Keep,
    Changed,
    Missing,
    Multiple,
}

fn edit_lines(lines: &mut Vec<String>, edit: &LineEdit) -> (res: Verdict)
    ensures
        match (res, line_verdict(texts(old(lines)@), line_op(*edit))) {
            (Verdict::Keep, LineVerdict::Keep) => *final(lines) == *old(lines),
            (Verdict::Changed, LineVerdict::Replace(v)) => texts(final(lines)@) == v,
            (Verdict::Missing, LineVerdict::Missing) => *final(lines) == *old(lines),
            (Verdict::Multiple, LineVerdict::Multiple) => *final(lines) == *old(lines),
            _ => false,
        },
{
    let ghost old_texts = texts(lines@);
    match edit {
        LineEdit::Add(e) => {
            let mut i: usize = 0;
            while i < lines.len()
                invariant
                    i <= lines@.len(),
                    *lines == *old(lines),
                    line_op(*edit) == LineOp::Add(e@),
                    texts(lines@) == old_texts,
                    old_texts == texts(old(lines)@),
                    forall|k: int| 0 <= k < i ==> trim(#[trigger] old_texts[k]) != e@,
                decreases lines@.len() - i,
            {
                if str_trimmed_eq(&lines[i], e) {
                    assert(old_texts[i as int] == lines@[i as int]@);
                    assert(trim(old_texts[i as int]) == e@);
                    assert(has_trimmed(old_texts, e@));
                    return Verdict::Keep;
                }
                assert(old_texts[i as int] == lines@[i as int]@);
                i += 1;
            }
            lines.push(e.clone());
            assert(texts(lines@) =~= old_texts.push(e@));
            Verdict::Changed
        },
        LineEdit::Replace(Some(i), e) => {
            if *i == 0 || *i > lines.len() {
                return Verdict::Missing;
            }
            if str_trimmed_eq(&lines[*i - 1], e) {
                return Verdict::Keep;
            }
            lines.set(*i - 1, e.clone());
            assert(texts(lines@) =~= old_texts.update(*i - 1, e@));
            Verdict::Changed
        },
        LineEdit::Replace(None, e) => {
            if lines.len() > 1 {
                return Verdict::Multiple;
            }
            if lines.len() == 1 {
                if str_trimmed_eq(&lines[0], e) {
                    return Verdict::Keep;
                }
                lines.set(0, e.clone());
                assert(texts(lines@) =~= old_texts.update(0, e@));
                return Verdict::Changed;
            }
            lines.push(e.clone());
            assert(texts(lines@) =~= seq![e@]);
            Verdict::Changed
        },
        LineEdit::Remove(i) => {
            if *i == 0 || *i > lines.len() {
                return Verdict::Missing;
            }
            lines.remove(*i - 1);
            assert(texts(lines@) =~= old_texts.remove(*i - 1));
            Verdict::Changed
        },
    }
}


pub open spec fn clause_word(l: LineList) -> Seq<char> {
    match l {
        LineList::Requires => "requires"@,
        LineList::Contracts => "ensures"@,
        LineList::Examples => "example"@,
    }
}

pub open spec fn missing_message(l: LineList, name: Seq<char>, i: int) -> Seq<char> {
    match l {
        LineList::Examples => "Function `"@ + name + "` has no example at index "@ + decimal(
            i as nat,
        ) + "."@,
        _ => "Function `"@ + name + "` has no `"@ + clause_word(l)
            + "` contract clause at index "@ + decimal(i as nat) + "."@,
    }
}

pub open spec fn multiple_message(l: LineList, name: Seq<char>) -> Seq<char> {
    match l {
        LineList::Examples => "Function `"@ + name + "` has multiple examples."@,
        _ => "Function `"@ + name + "` has multiple `"@ + clause_word(l) + "` contract clauses."@,
    }
}

pub open spec fn count_key(l: LineList) -> Seq<char> {
    match l {
        LineList::Examples => "example_count"@,
        _ => "clause_count"@,
    }
}

pub open spec fn op_index(op: LineOp) -> int {
    match op {
        LineOp::Replace(Some(i), _) => i,
        LineOp::Remove(i) => i,
        _ => 0,
    }
}

pub open spec fn missing_repair(l: LineList) -> Seq<char> {
    match l {
        LineList::Examples => "Use a 1-based index for an existing example."@,
        _ => "Use a 1-based index for an existing contract clause."@,
    }
}

pub open spec fn multiple_repair(l: LineList) -> Seq<char> {
    match l {
        LineList::Examples => "Pass a 1-based example index to replace a specific example."@,
        _ => "Pass a 1-based clause index to replace a specific clause."@,
    }
}

fn missing_repair_str(l: LineList) -> (res: &'static str)
    ensures
        res@ == missing_repair(l),
{
    match l {
        LineList::Examples => "Use a 1-based index for an existing example.",
        _ => "Use a 1-based index for an existing contract clause.",
    }
}

fn multiple_repair_str(l: LineList) -> (res: &'static str)
    ensures
        res@ == multiple_repair(l),
{
    match l {
        LineList::Examples => "Pass a 1-based example index to replace a specific example.",
        _ => "Pass a 1-based clause index to replace a specific clause.",
    }
}

/// What an edit of a list of lines decides for `f`.
pub open spec fn line_decision(l: LineList, op: LineOp, f: Function) -> Decision {
    let lines = texts(line_field(f, l));
    match line_verdict(lines, op) {
        LineVerdict::Keep => Decision::Keep,
        LineVerdict::Replace(_) => Decision::Update,
        LineVerdict::Missing => Decision::Reject(
            "PatchConflict"@,
            missing_message(l, f.name@, op_index(op)),
            seq![(count_key(l), decimal(lines.len()))],
            target_text(f.source_path@, f.line as nat, f.name@),
            prose(missing_repair(l)),
        ),
        LineVerdict::Multiple => Decision::Reject(
            "PatchConflict"@,
            multiple_message(l, f.name@),
            seq![],
            target_text(f.source_path@, f.line as nat, f.name@),
            prose(multiple_repair(l)),
        ),
    }
}

/// `g` is what an edit of a list of lines makes of `f`.
pub open spec fn line_applied(l: LineList, op: LineOp, f: Function, g: Function) -> bool {
    match line_verdict(texts(line_field(f, l)), op) {
        LineVerdict::Replace(v) => only_lines_changed(f, g, l) && texts(line_field(g, l)) == v,
        _ => false,
    }
}

/// What an edit decides for the target function `f` of program `p`.
pub open spec fn decide(e: EditSpec, p: Program, f: Function) -> Decision {
    match e {
        EditSpec::Line(l, op) => line_decision(l, op, f),
        EditSpec::Property(op) => property_decision(op, f),
        EditSpec::Migration(op) => migration_decision(op, f),
        EditSpec::Field(op) => field_decision(op, f),
        EditSpec::Intent(i) => intent_decision(p, f, i),
        EditSpec::Version(v, ins, path) => version_decision(p, f, v, ins, path),
        EditSpec::Qualify(name, callee, path) => qualify_decision(p, f, name, callee, path),
    }
}

/// `g` is what an updating edit makes of `f`.
pub open spec fn applied(e: EditSpec, p: Program, f: Function, g: Function) -> bool {
    match e {
        EditSpec::Line(l, op) => line_applied(l, op, f, g),
        EditSpec::Property(op) => property_applied(op, f, g),
        EditSpec::Migration(op) => migration_applied(op, f, g),
        EditSpec::Field(op) => field_applied(op, f, g),
        EditSpec::Intent(i) => same_function(g, Function { intent: g.intent, ..f })
            && g.intent is Some && g.intent->0@ == i,
        EditSpec::Version(v, _, _) => version_applied(f, g, v),
        EditSpec::Qualify(name, callee, _) => qualify_applied(p, f, g, name, callee),
    }
}

/// The data entries of a diagnostic, as text.
pub open spec fn data_texts(d: Diagnostic) -> Seq<(Seq<char>, Seq<char>)> {
    d.data@.map_values(|kv: (String, String)| (kv.0@, kv.1@))
}

/// One prose repair.
pub open spec fn prose(t: Seq<char>) -> Repairs {
    add_prose(no_repairs(), t)
}

/// `d` reports a rejection.
pub open spec fn reports_rejection(d: Diagnostic, r: Decision) -> bool {
    match r {
        Decision::Reject(code, message, data, target, repairs) => error_at(d, code, message, target)
            && data_texts(d) == data && repairs_of(d) == repairs,
        _ => false,
    }
}

/// The edit as the program runs it.
pub enum Edit {
    Line(LineList, LineEdit),
    Property(PropertyEdit),
    Migration(MigrationEdit),
    Field(FieldEdit),
    Intent(String),
    Version(String, Vec<Function>, String),
    Qualify(String, String, String),
}

pub open spec fn edit_view(e: Edit) -> EditSpec {
    match e {
        Edit::Line(l, op) => EditSpec::Line(l, line_op(op)),
        Edit::Property(op) => EditSpec::Property(property_op(op)),
        Edit::Migration(op) => EditSpec::Migration(migration_op(op)),
        Edit::Field(op) => EditSpec::Field(field_op(op)),
        Edit::Intent(i) => EditSpec::Intent(i@),
        Edit::Version(v, ins, path) => EditSpec::Version(v@, ins@, path@),
        Edit::Qualify(name, callee, path) => EditSpec::Qualify(name@, callee@, path@),
    }
}

fn clause_word_str(l: LineList) -> (res: &'static str)
    ensures
        res@ == clause_word(l),
{
    match l {
        LineList::Requires => {
            proof { reveal_strlit("requires"); }
            "requires"
        },
        LineList::Contracts => {
            proof { reveal_strlit("ensures"); }
            "ensures"
        },
        LineList::Examples => {
            proof { reveal_strlit("example"); }
            "example"
        },
    }
}

fn missing_text(l: LineList, name: &String, i: usize) -> (res: String)
    ensures
        res@ == missing_message(l, name@, i as int),
{
    let n = usize_text(i);
    let mut m = owned("Function `");
    m.append(name.as_str());
    match l {
        LineList::Examples => {
            m.append("` has no example at index ");
        },
        _ => {
            m.append("` has no `");
            m.append(clause_word_str(l));
            m.append("` contract clause at index ");
        },
    }
    m.append(n.as_str());
    m.append(".");
    m
}

fn multiple_text(l: LineList, name: &String) -> (res: String)
    ensures
        res@ == multiple_message(l, name@),
{
    let mut m = owned("Function `");
    m.append(name.as_str());
    match l {
        LineList::Examples => {
            m.append("` has multiple examples.");
        },
        _ => {
            m.append("` has multiple `");
            m.append(clause_word_str(l));
            m.append("` contract clauses.");
        },
    }
    m
}

fn apply_line_edit(l: LineList, op: &LineEdit, f: &mut Function) -> (res: Result<bool, Diagnostic>)
    ensures
        match line_decision(l, line_op(*op), *old(f)) {
            Decision::Keep => res == Ok::<bool, Diagnostic>(false) && *final(f) == *old(f),
            Decision::Update => res == Ok::<bool, Diagnostic>(true) && line_applied(
                l,
                line_op(*op),
                *old(f),
                *final(f),
            ),
            r => res is Err && reports_rejection(res->Err_0, r) && *final(f) == *old(f),
        },
{
    let ghost f0 = *f;
    let count_before = match l {
        LineList::Requires => f.requires.len(),
        LineList::Contracts => f.contracts.len(),
        LineList::Examples => f.examples.len(),
    };
    let v = match l {
        LineList::Requires => edit_lines(&mut f.requires, op),
        LineList::Contracts => edit_lines(&mut f.contracts, op),
        LineList::Examples => edit_lines(&mut f.examples, op),
    };
    match v {
        Verdict::Keep => {
            assert(*f == f0);
            Ok(false)
        },
        Verdict::Changed => Ok(true),
        Verdict::Missing => {
            let i = match op {
                LineEdit::Replace(Some(i), _) => *i,
                LineEdit::Remove(i) => *i,
                _ => 0,
            };
            let m = missing_text(l, &f.name, i);
            let n = usize_text(count_before);
            let key = match l {
                LineList::Examples => "example_count",
                _ => "clause_count",
            };
            proof {
                reveal_strlit("example_count");
                reveal_strlit("clause_count");
            }
            let d = Diagnostic::error("PatchConflict", m.as_str(), Some(f.target())).with_data(
                key,
                n.as_str(),
            ).with_repair(missing_repair_str(l));
            assert(data_texts(d) =~= seq![(count_key(l), decimal(count_before as nat))]);
            Err(d)
        },
        Verdict::Multiple => {
            let m = multiple_text(l, &f.name);
            let d = Diagnostic::error("PatchConflict", m.as_str(), Some(f.target())).with_repair(
                multiple_repair_str(l),
            );
            assert(data_texts(d) =~= seq![]);
            Err(d)
        },
    }
}


// ---------------------------------------------------------------------------
// Property edits
// ---------------------------------------------------------------------------
/// A `forall ...:` header line.
pub open spec fn is_header(line: Seq<char>) -> bool {
    starts_with(trim(line), "forall "@) && ends_with(trim(line), ":"@)
}

/// The (header, body) line pairs of the property blocks, scanning from line `i`.
pub open spec fn block_ranges(lines: Seq<Seq<char>>, i: int) -> Seq<(int, int)>
    decreases lines.len() - i,
{
    if i < 0 || i >= lines.len() {
        seq![]
    } else if is_header(lines[i]) {
        if i + 1 < lines.len() {
            seq![(i, i + 1)] + block_ranges(lines, i + 2)
        } else {
            seq![]
        }
    } else {
        block_ranges(lines, i + 1)
    }
}

pub enum PropertyOp {
    Add(Seq<char>, Seq<char>),
    Replace(Option<int>, Seq<char>, Seq<char>),
    Remove(int),
}

pub enum PropertyEdit {
    Add(String, String),
    Replace(Option<usize>, String, String),
    Remove(usize),
}

pub open spec fn property_op(e: PropertyEdit) -> PropertyOp {
    match e {
        PropertyEdit::Add(h, b) => PropertyOp::Add(h@, b@),
        PropertyEdit::Replace(i, h, b) => PropertyOp::Replace(opt_index(i), h@, b@),
        PropertyEdit::Remove(i) => PropertyOp::Remove(i as int),
    }
}

/// Some line equals the header once trimmed and the next line the body.
pub open spec fn has_pair(lines: Seq<Seq<char>>, h: Seq<char>, b: Seq<char>) -> bool {
    exists|k: int| 0 <= k < lines.len() - 1 && trim(#[trigger] lines[k]) == h && trim(lines[k + 1]) == b
}

pub open spec fn property_verdict(lines: Seq<Seq<char>>, op: PropertyOp) -> LineVerdict {
    let r = block_ranges(lines, 0);
    match op {
        PropertyOp::Add(h, b) => if has_pair(lines, h, b) {
            LineVerdict::Keep
        } else {
            LineVerdict::Replace(lines.push(h).push(b))
        },
        PropertyOp::Replace(Some(i), h, b) => if i <= 0 || i > r.len() {
            LineVerdict::Missing
        } else if trim(lines[r[i - 1].0]) == h && trim(lines[r[i - 1].1]) == b {
            LineVerdict::Keep
        } else {
            LineVerdict::Replace(lines.update(r[i - 1].0, h).update(r[i - 1].1, b))
        },
        PropertyOp::Replace(None, h, b) => if r.len() > 1 {
            LineVerdict::Multiple
        } else if r.len() == 1 {
            if trim(lines[r[0].0]) == h && trim(lines[r[0].1]) == b {
                LineVerdict::Keep
            } else {
                LineVerdict::Replace(lines.update(r[0].0, h).update(r[0].1, b))
            }
        } else {
            LineVerdict::Replace(lines.push(h).push(b))
        },
        PropertyOp::Remove(i) => if i <= 0 || i > r.len() {
            LineVerdict::Missing
        } else {
            LineVerdict::Replace(lines.remove(r[i - 1].0).remove(r[i - 1].0))
        },
    }
}

pub open spec fn property_index(op: PropertyOp) -> int {
    match op {
        PropertyOp::Replace(Some(i), _, _) => i,
        PropertyOp::Remove(i) => i,
        _ => 0,
    }
}

pub open spec fn property_decision(op: PropertyOp, f: Function) -> Decision {
    let lines = texts(f.properties@);
    let t = target_text(f.source_path@, f.line as nat, f.name@);
    match property_verdict(lines, op) {
        LineVerdict::Keep => Decision::Keep,
        LineVerdict::Replace(_) => Decision::Update,
        LineVerdict::Missing => Decision::Reject(
            "PatchConflict"@,
            "Function `"@ + f.name@ + "` has no property at index "@ + decimal(property_index(op) as nat) + "."@,
            seq![("property_count"@, decimal(block_ranges(lines, 0).len()))],
            t,
            prose("Use a 1-based index for an existing forall property."@),
        ),
        LineVerdict::Multiple => Decision::Reject(
            "PatchConflict"@,
            "Function `"@ + f.name@ + "` has multiple properties."@,
            seq![],
            t,
            prose("Pass a 1-based property index to replace a specific property."@),
        ),
    }
}

pub open spec fn property_applied(op: PropertyOp, f: Function, g: Function) -> bool {
    match property_verdict(texts(f.properties@), op) {
        LineVerdict::Replace(v) => same_function(g, Function { properties: g.properties, ..f })
            && texts(g.properties@) == v,
        _ => false,
    }
}

fn header_line(line: &String) -> (res: bool)
    ensures
        res == is_header(line@),
{
    let t = trim_str(line.as_str());
    let cs = chars_of(t.as_str());
    has_prefix_str(&cs, "forall ") && has_suffix_str(&cs, ":")
}

pub fn property_block_ranges(lines: &Vec<String>) -> (res: Vec<(usize, usize)>)
    ensures
        res@.len() == block_ranges(texts(lines@), 0).len(),
        forall|k: int|
            0 <= k < res@.len() ==> (#[trigger] res@[k]).0 as int == block_ranges(texts(lines@), 0)[k].0
                && res@[k].1 as int == block_ranges(texts(lines@), 0)[k].1 && res@[k].1 < lines@.len()
                && res@[k].1 == res@[k].0 + 1,
{
    let ghost ls = texts(lines@);
    let mut ranges: Vec<(usize, usize)> = Vec::new();
    let mut index: usize = 0;
    while index < lines.len()
        invariant
            ls == texts(lines@),
            index <= lines@.len(),
            ranges@.len() + block_ranges(ls, index as int).len() == block_ranges(ls, 0).len(),
            forall|k: int|
                0 <= k < ranges@.len() ==> (#[trigger] ranges@[k]).0 as int == block_ranges(ls, 0)[k].0
                    && ranges@[k].1 as int == block_ranges(ls, 0)[k].1 && ranges@[k].1 < lines@.len()
                    && ranges@[k].1 == ranges@[k].0 + 1,
            forall|k: int|
                0 <= k < block_ranges(ls, index as int).len() ==> block_ranges(ls, 0)[ranges@.len() + k]
                    == #[trigger] block_ranges(ls, index as int)[k],
        decreases lines@.len() - index,
    {
        assert(ls[index as int] == lines@[index as int]@);
        if header_line(&lines[index]) {
            if index + 1 < lines.len() {
                let ghost before = ranges@;
                ranges.push((index, index + 1));
                proof {
                    let tail = block_ranges(ls, index + 2);
                    assert(block_ranges(ls, index as int) == seq![(index as int, index + 1)] + tail);
                    assert forall|k: int| 0 <= k < tail.len() implies block_ranges(ls, 0)[ranges@.len() + k]
                        == #[trigger] tail[k] by {
                        assert(block_ranges(ls, index as int)[k + 1] == tail[k]);
                    }
                    assert(block_ranges(ls, index as int)[0] == (index as int, index + 1));
                }
                index += 2;
            } else {
                index = lines.len();
            }
        } else {
            index += 1;
        }
    }
    proof {
        assert(block_ranges(ls, index as int).len() == 0);
    }
    ranges
}

fn pair_present(lines: &Vec<String>, h: &String, b: &String) -> (res: bool)
    ensures
        res == has_pair(texts(lines@), h@, b@),
{
    let ghost ls = texts(lines@);
    let mut k: usize = 0;
    while lines.len() > 0 && k < lines.len() - 1
        invariant
            ls == texts(lines@),
            forall|j: int| 0 <= j < k && j < ls.len() - 1 ==> !(trim(#[trigger] ls[j]) == h@ && trim(ls[j + 1]) == b@),
        decreases lines@.len() - k,
    {
        assert(ls[k as int] == lines@[k as int]@);
        assert(ls[k + 1] == lines@[k + 1]@);
        if str_trimmed_eq(&lines[k], h) && str_trimmed_eq(&lines[k + 1], b) {
            return true;
        }
        k += 1;
    }
    false
}

fn apply_property_edit(op: &PropertyEdit, f: &mut Function) -> (res: Result<bool, Diagnostic>)
    ensures
        match property_decision(property_op(*op), *old(f)) {
            Decision::Keep => res == Ok::<bool, Diagnostic>(false),
            Decision::Update => res == Ok::<bool, Diagnostic>(true) && property_applied(
                property_op(*op),
                *old(f),
                *final(f),
            ),
            r => res is Err && reports_rejection(res->Err_0, r),
        },
{
    let ghost f0 = *f;
    let ghost ls = texts(f.properties@);
    let ranges = property_block_ranges(&f.properties);
    match op {
        PropertyEdit::Add(h, b) => {
            if pair_present(&f.properties, h, b) {
                return Ok(false);
            }
            f.properties.push(h.clone());
            f.properties.push(b.clone());
            assert(texts(f.properties@) =~= ls.push(h@).push(b@));
            Ok(true)
        },
        PropertyEdit::Replace(index, h, b) => {
            let pos: usize = match index {
                Some(i) => {
                    if *i == 0 || *i > ranges.len() {
                        return Err(missing_property(f, *i, ranges.len()));
                    }
                    *i - 1
                },
                None => {
                    if ranges.len() > 1 {
                        let mut m = owned("Function `");
                        m.append(f.name.as_str());
                        m.append("` has multiple properties.");
                        let d = Diagnostic::error("PatchConflict", m.as_str(), Some(f.target()))
                            .with_repair("Pass a 1-based property index to replace a specific property.");
                        assert(data_texts(d) =~= seq![]);
                        return Err(d);
                    }
                    if ranges.len() == 0 {
                        f.properties.push(h.clone());
                        f.properties.push(b.clone());
                        assert(texts(f.properties@) =~= ls.push(h@).push(b@));
                        return Ok(true);
                    }
                    0
                },
            };
            let (hi, bi) = ranges[pos];
            assert(ls[hi as int] == f.properties@[hi as int]@);
            assert(ls[bi as int] == f.properties@[bi as int]@);
            if str_trimmed_eq(&f.properties[hi], h) && str_trimmed_eq(&f.properties[bi], b) {
                return Ok(false);
            }
            f.properties.set(hi, h.clone());
            f.properties.set(bi, b.clone());
            assert(texts(f.properties@) =~= ls.update(hi as int, h@).update(bi as int, b@));
            Ok(true)
        },
        PropertyEdit::Remove(i) => {
            if *i == 0 || *i > ranges.len() {
                return Err(missing_property(f, *i, ranges.len()));
            }
            let (hi, _bi) = ranges[*i - 1];
            f.properties.remove(hi);
            f.properties.remove(hi);
            assert(texts(f.properties@) =~= ls.remove(hi as int).remove(hi as int));
            Ok(true)
        },
    }
}

fn missing_property(f: &Function, i: usize, count: usize) -> (res: Diagnostic)
    ensures
        error_at(
            res,
            "PatchConflict"@,
            "Function `"@ + f.name@ + "` has no property at index "@ + decimal(i as nat) + "."@,
            target_text(f.source_path@, f.line as nat, f.name@),
        ),
        data_texts(res) == seq![("property_count"@, decimal(count as nat))],
        repairs_of(res) == prose("Use a 1-based index for an existing forall property."@),
{
    let mut m = owned("Function `");
    m.append(f.name.as_str());
    m.append("` has no property at index ");
    let n = usize_text(i);
    m.append(n.as_str());
    m.append(".");
    let c = usize_text(count);
    let d = Diagnostic::error("PatchConflict", m.as_str(), Some(f.target())).with_data(
        "property_count",
        c.as_str(),
    ).with_repair("Use a 1-based index for an existing forall property.");
    assert(data_texts(d) =~= seq![("property_count"@, decimal(count as nat))]);
    d
}

// ---------------------------------------------------------------------------
// Migration records
// ---------------------------------------------------------------------------
pub open spec fn record_views(ms: Seq<MigrationRecord>) -> Seq<(Seq<char>, Seq<char>)> {
    ms.map_values(|m: MigrationRecord| (m.kind@, m.note@))
}

/// The positions of the records of one kind, in order.
pub open spec fn kind_positions(ms: Seq<(Seq<char>, Seq<char>)>, kind: Seq<char>) -> Seq<int>
    decreases ms.len(),
{
    if ms.len() == 0 {
        seq![]
    } else if ms.last().0 == kind {
        kind_positions(ms.drop_last(), kind).push(ms.len() - 1)
    } else {
        kind_positions(ms.drop_last(), kind)
    }
}

pub enum MigrationOp {
    Add(Seq<char>, Seq<char>),
    Replace(Seq<char>, Option<int>, Seq<char>),
    Remove(Seq<char>, int),
}

pub enum MigrationEdit {
    Add(String, String),
    Replace(String, Option<usize>, String),
    Remove(String, usize),
}

pub open spec fn migration_op(e: MigrationEdit) -> MigrationOp {
    match e {
        MigrationEdit::Add(k, n) => MigrationOp::Add(k@, n@),
        MigrationEdit::Replace(k, i, n) => MigrationOp::Replace(k@, opt_index(i), n@),
        MigrationEdit::Remove(k, i) => MigrationOp::Remove(k@, i as int),
    }
}

pub enum RecordVerdict {
    Keep,
    Replace(Seq<(Seq<char>, Seq<char>)>),
    Missing,
    Multiple,
}

pub open spec fn migration_verdict(ms: Seq<(Seq<char>, Seq<char>)>, op: MigrationOp) -> RecordVerdict {
    match op {
        MigrationOp::Add(k, n) => if ms.contains((k, n)) {
            RecordVerdict::Keep
        } else {
            RecordVerdict::Replace(ms.push((k, n)))
        },
        MigrationOp::Replace(k, Some(i), n) => {
            let pos = kind_positions(ms, k);
            if i <= 0 || i > pos.len() {
                RecordVerdict::Missing
            } else if ms[pos[i - 1]].1 == n {
                RecordVerdict::Keep
            } else {
                RecordVerdict::Replace(ms.update(pos[i - 1], (ms[pos[i - 1]].0, n)))
            }
        },
        MigrationOp::Replace(k, None, n) => {
            let pos = kind_positions(ms, k);
            if pos.len() > 1 {
                RecordVerdict::Multiple
            } else if pos.len() == 1 {
                if ms[pos[0]].1 == n {
                    RecordVerdict::Keep
                } else {
                    RecordVerdict::Replace(ms.update(pos[0], (ms[pos[0]].0, n)))
                }
            } else {
                RecordVerdict::Replace(ms.push((k, n)))
            }
        },
        MigrationOp::Remove(k, i) => {
            let pos = kind_positions(ms, k);
            if i <= 0 || i > pos.len() {
                RecordVerdict::Missing
            } else {
                RecordVerdict::Replace(ms.remove(pos[i - 1]))
            }
        },
    }
}

pub open spec fn migration_kind(op: MigrationOp) -> Seq<char> {
    match op {
        MigrationOp::Add(k, _) => k,
        MigrationOp::Replace(k, _, _) => k,
        MigrationOp::Remove(k, _) => k,
    }
}

pub open spec fn migration_index(op: MigrationOp) -> int {
    match op {
        MigrationOp::Replace(_, Some(i), _) => i,
        MigrationOp::Remove(_, i) => i,
        _ => 0,
    }
}

pub open spec fn migration_decision(op: MigrationOp, f: Function) -> Decision {
    let ms = record_views(f.migrations@);
    let k = migration_kind(op);
    let t = target_text(f.source_path@, f.line as nat, f.name@);
    match migration_verdict(ms, op) {
        RecordVerdict::Keep => Decision::Keep,
        RecordVerdict::Replace(_) => Decision::Update,
        RecordVerdict::Missing => Decision::Reject(
            "PatchConflict"@,
            "Function `"@ + f.name@ + "` has no `"@ + k + "` migration record at index "@
                + decimal(migration_index(op) as nat) + "."@,
            seq![("migration_count"@, decimal(kind_positions(ms, k).len()))],
            t,
            prose("Use a 1-based index for an existing migration record of this kind."@),
        ),
        RecordVerdict::Multiple => Decision::Reject(
            "PatchConflict"@,
            "Function `"@ + f.name@ + "` has multiple `"@ + k + "` migration records."@,
            seq![],
            t,
            prose("Pass a 1-based migration index to replace a specific record."@),
        ),
    }
}

pub open spec fn migration_applied(op: MigrationOp, f: Function, g: Function) -> bool {
    match migration_verdict(record_views(f.migrations@), op) {
        RecordVerdict::Replace(v) => same_function(g, Function { migrations: g.migrations, ..f })
            && record_views(g.migrations@) == v,
        _ => false,
    }
}

fn positions_of_kind(ms: &Vec<MigrationRecord>, kind: &String) -> (res: Vec<usize>)
    ensures
        res@.len() == kind_positions(record_views(ms@), kind@).len(),
        forall|k: int|
            0 <= k < res@.len() ==> #[trigger] res@[k] as int == kind_positions(record_views(ms@), kind@)[k]
                && res@[k] < ms@.len(),
{
    let ghost rv = record_views(ms@);
    let mut res: Vec<usize> = Vec::new();
    let mut i: usize = 0;
    while i < ms.len()
        invariant
            i <= ms@.len(),
            rv == record_views(ms@),
            res@.len() == kind_positions(rv.take(i as int), kind@).len(),
            forall|k: int|
                0 <= k < res@.len() ==> #[trigger] res@[k] as int == kind_positions(rv.take(i as int), kind@)[k]
                    && res@[k] < i,
        decreases ms@.len() - i,
    {
        proof {
            assert(rv.take(i + 1).drop_last() =~= rv.take(i as int));
            assert(rv.take(i + 1).last() == rv[i as int]);
        }
        if str_eq(ms[i].kind.as_str(), kind.as_str()) {
            res.push(i);
        }
        i += 1;
    }
    assert(rv.take(ms@.len() as int) =~= rv);
    res
}

fn record_present(ms: &Vec<MigrationRecord>, kind: &String, note: &String) -> (res: bool)
    ensures
        res == record_views(ms@).contains((kind@, note@)),
{
    let ghost rv = record_views(ms@);
    let mut i: usize = 0;
    while i < ms.len()
        invariant
            i <= ms@.len(),
            rv == record_views(ms@),
            forall|j: int| 0 <= j < i ==> #[trigger] rv[j] != (kind@, note@),
        decreases ms@.len() - i,
    {
        if str_eq(ms[i].kind.as_str(), kind.as_str()) && str_eq(ms[i].note.as_str(), note.as_str()) {
            assert(rv[i as int] == (kind@, note@));
            return true;
        }
        i += 1;
    }
    false
}

fn apply_migration_edit(op: &MigrationEdit, f: &mut Function) -> (res: Result<bool, Diagnostic>)
    ensures
        match migration_decision(migration_op(*op), *old(f)) {
            Decision::Keep => res == Ok::<bool, Diagnostic>(false),
            Decision::Update => res == Ok::<bool, Diagnostic>(true) && migration_applied(
                migration_op(*op),
                *old(f),
                *final(f),
            ),
            r => res is Err && reports_rejection(res->Err_0, r),
        },
{
    let ghost rv = record_views(f.migrations@);
    match op {
        MigrationEdit::Add(k, n) => {
            if record_present(&f.migrations, k, n) {
                return Ok(false);
            }
            f.migrations.push(MigrationRecord { kind: k.clone(), note: n.clone() });
            assert(record_views(f.migrations@) =~= rv.push((k@, n@)));
            Ok(true)
        },
        MigrationEdit::Replace(k, index, n) => {
            let pos = positions_of_kind(&f.migrations, k);
            let at: usize = match index {
                Some(i) => {
                    if *i == 0 || *i > pos.len() {
                        return Err(missing_migration(f, k, *i, pos.len()));
                    }
                    pos[*i - 1]
                },
                None => {
                    if pos.len() > 1 {
                        let mut m = owned("Function `");
                        m.append(f.name.as_str());
                        m.append("` has multiple `");
                        m.append(k.as_str());
                        m.append("` migration records.");
                        let d = Diagnostic::error("PatchConflict", m.as_str(), Some(f.target()))
                            .with_repair("Pass a 1-based migration index to replace a specific record.");
                        assert(data_texts(d) =~= seq![]);
                        return Err(d);
                    }
                    if pos.len() == 0 {
                        f.migrations.push(MigrationRecord { kind: k.clone(), note: n.clone() });
                        assert(record_views(f.migrations@) =~= rv.push((k@, n@)));
                        return Ok(true);
                    }
                    pos[0]
                },
            };
            assert(rv[at as int] == (f.migrations@[at as int].kind@, f.migrations@[at as int].note@));
            if str_eq(f.migrations[at].note.as_str(), n.as_str()) {
                return Ok(false);
            }
            let rec = MigrationRecord { kind: f.migrations[at].kind.clone(), note: n.clone() };
            f.migrations.set(at, rec);
            assert(record_views(f.migrations@) =~= rv.update(at as int, (rv[at as int].0, n@)));
            Ok(true)
        },
        MigrationEdit::Remove(k, i) => {
            let pos = positions_of_kind(&f.migrations, k);
            if *i == 0 || *i > pos.len() {
                return Err(missing_migration(f, k, *i, pos.len()));
            }
            let at = pos[*i - 1];
            f.migrations.remove(at);
            assert(record_views(f.migrations@) =~= rv.remove(at as int));
            Ok(true)
        },
    }
}

fn missing_migration(f: &Function, kind: &String, i: usize, count: usize) -> (res: Diagnostic)
    ensures
        error_at(
            res,
            "PatchConflict"@,
            "Function `"@ + f.name@ + "` has no `"@ + kind@ + "` migration record at index "@
                + decimal(i as nat) + "."@,
            target_text(f.source_path@, f.line as nat, f.name@),
        ),
        data_texts(res) == seq![("migration_count"@, decimal(count as nat))],
        repairs_of(res) == prose("Use a 1-based index for an existing migration record of this kind."@),
{
    let mut m = owned("Function `");
    m.append(f.name.as_str());
    m.append("` has no `");
    m.append(kind.as_str());
    m.append("` migration record at index ");
    let n = usize_text(i);
    m.append(n.as_str());
    m.append(".");
    let c = usize_text(count);
    let d = Diagnostic::error("PatchConflict", m.as_str(), Some(f.target())).with_data(
        "migration_count",
        c.as_str(),
    ).with_repair("Use a 1-based index for an existing migration record of this kind.");
    assert(data_texts(d) =~= seq![("migration_count"@, decimal(count as nat))]);
    d
}

// ---------------------------------------------------------------------------
// Implementation, signature and effects
// ---------------------------------------------------------------------------
pub enum FieldOp {
    FillHole(Seq<char>),
    SetImpl(Seq<char>),
    SetSignature(Seq<char>, Seq<(Seq<char>, Seq<char>)>, Seq<char>),
    SetEffects(Seq<Seq<char>>),
}

pub enum FieldEdit {
    FillHole(String),
    SetImpl(String),
    SetSignature(String, Vec<Param>, String),
    SetEffects(Vec<String>),
}

pub open spec fn field_op(e: FieldEdit) -> FieldOp {
    match e {
        FieldEdit::FillHole(x) => FieldOp::FillHole(x@),
        FieldEdit::SetImpl(x) => FieldOp::SetImpl(x@),
        FieldEdit::SetSignature(n, ps, r) => FieldOp::SetSignature(n@, param_views(ps@), r@),
        FieldEdit::SetEffects(es) => FieldOp::SetEffects(texts(es@)),
    }
}

pub open spec fn field_decision(op: FieldOp, f: Function) -> Decision {
    let t = target_text(f.source_path@, f.line as nat, f.name@);
    match op {
        FieldOp::FillHole(e) => match f.implementation {
            None => Decision::Reject(
                "PatchConflict"@,
                "Function `"@ + f.name@ + "` has no implementation section to fill."@,
                seq![],
                t,
                no_repairs(),
            ),
            Some(i) => if contains_seq(i@, "HOLE("@) {
                Decision::Update
            } else if trim(i@) == e {
                Decision::Keep
            } else {
                Decision::Reject(
                    "PatchConflict"@,
                    "Function `"@ + f.name@ + "` does not contain a typed hole."@,
                    seq![],
                    t,
                    no_repairs(),
                )
            },
        },
        FieldOp::SetImpl(e) => if f.implementation is Some && trim(f.implementation->0@) == e {
            Decision::Keep
        } else {
            Decision::Update
        },
        FieldOp::SetSignature(n, ps, r) => if f.name@ != n {
            Decision::Reject(
                "PatchConflict"@,
                "Signature name `"@ + n + "` does not match target function `"@ + f.name@ + "`."@,
                seq![],
                t,
                prose("Use `patch rename-function` for public function renames."@),
            )
        } else if param_views(f.params@) == ps && f.return_type@ == r {
            Decision::Keep
        } else {
            Decision::Update
        },
        FieldOp::SetEffects(es) => if texts(f.effects@) == es {
            Decision::Keep
        } else {
            Decision::Update
        },
    }
}

pub open spec fn field_applied(op: FieldOp, f: Function, g: Function) -> bool {
    match op {
        FieldOp::FillHole(e) => same_function(g, Function { implementation: g.implementation, ..f })
            && g.implementation is Some && g.implementation->0@ == e,
        FieldOp::SetImpl(e) => same_function(g, Function { implementation: g.implementation, ..f })
            && g.implementation is Some && g.implementation->0@ == e,
        FieldOp::SetSignature(n, ps, r) => same_function(
            g,
            Function { params: g.params, return_type: g.return_type, ..f },
        ) && param_views(g.params@) == ps && g.return_type@ == r,
        FieldOp::SetEffects(es) => same_function(g, Function { effects: g.effects, ..f })
            && texts(g.effects@) == es,
    }
}

fn same_params(a: &Vec<Param>, b: &Vec<Param>) -> (res: bool)
    ensures
        res == (param_views(a@) == param_views(b@)),
{
    if a.len() != b.len() {
        assert(param_views(a@).len() != param_views(b@).len());
        return false;
    }
    let mut i: usize = 0;
    while i < a.len()
        invariant
            i <= a@.len(),
            a@.len() == b@.len(),
            forall|j: int| 0 <= j < i ==> #[trigger] param_views(a@)[j] == param_views(b@)[j],
        decreases a@.len() - i,
    {
        if !str_eq(a[i].name.as_str(), b[i].name.as_str()) || !str_eq(a[i].type_text.as_str(), b[i].type_text.as_str()) {
            assert(param_views(a@)[i as int] != param_views(b@)[i as int]);
            return false;
        }
        i += 1;
    }
    assert(param_views(a@) =~= param_views(b@));
    true
}

fn same_texts(a: &Vec<String>, b: &Vec<String>) -> (res: bool)
    ensures
        res == (texts(a@) == texts(b@)),
{
    if a.len() != b.len() {
        assert(texts(a@).len() != texts(b@).len());
        return false;
    }
    let mut i: usize = 0;
    while i < a.len()
        invariant
            i <= a@.len(),
            a@.len() == b@.len(),
            forall|j: int| 0 <= j < i ==> #[trigger] texts(a@)[j] == texts(b@)[j],
        decreases a@.len() - i,
    {
        if !str_eq(a[i].as_str(), b[i].as_str()) {
            assert(texts(a@)[i as int] != texts(b@)[i as int]);
            return false;
        }
        i += 1;
    }
    assert(texts(a@) =~= texts(b@));
    true
}

fn apply_field_edit(op: &FieldEdit, f: &mut Function) -> (res: Result<bool, Diagnostic>)
    ensures
        match field_decision(field_op(*op), *old(f)) {
            Decision::Keep => res == Ok::<bool, Diagnostic>(false),
            Decision::Update => res == Ok::<bool, Diagnostic>(true) && field_applied(
                field_op(*op),
                *old(f),
                *final(f),
            ),
            r => res is Err && reports_rejection(res->Err_0, r),
        },
{
    match op {
        FieldEdit::FillHole(e) => {
            let has_hole = match &f.implementation {
                None => {
                    let mut m = owned("Function `");
                    m.append(f.name.as_str());
                    m.append("` has no implementation section to fill.");
                    let d = Diagnostic::error("PatchConflict", m.as_str(), Some(f.target()));
                    assert(data_texts(d) =~= seq![]);
                    return Err(d);
                },
                Some(i) => {
                    let cs = chars_of(i.as_str());
                    crate::text::contains_str(&cs, "HOLE(")
                },
            };
            if !has_hole {
                let same = match &f.implementation {
                    Some(i) => str_trimmed_eq(i, e),
                    None => false,
                };
                if same {
                    return Ok(false);
                }
                let mut m = owned("Function `");
                m.append(f.name.as_str());
                m.append("` does not contain a typed hole.");
                let d = Diagnostic::error("PatchConflict", m.as_str(), Some(f.target()));
                assert(data_texts(d) =~= seq![]);
                return Err(d);
            }
            f.implementation = Some(e.clone());
            Ok(true)
        },
        FieldEdit::SetImpl(e) => {
            let same = match &f.implementation {
                Some(i) => str_trimmed_eq(i, e),
                None => false,
            };
            if same {
                return Ok(false);
            }
            f.implementation = Some(e.clone());
            Ok(true)
        },
        FieldEdit::SetSignature(n, ps, r) => {
            if !str_eq(f.name.as_str(), n.as_str()) {
                let mut m = owned("Signature name `");
                m.append(n.as_str());
                m.append("` does not match target function `");
                m.append(f.name.as_str());
                m.append("`.");
                let d = Diagnostic::error("PatchConflict", m.as_str(), Some(f.target()))
                    .with_repair("Use `patch rename-function` for public function renames.");
                assert(data_texts(d) =~= seq![]);
                return Err(d);
            }
            if same_params(&f.params, ps) && str_eq(f.return_type.as_str(), r.as_str()) {
                return Ok(false);
            }
            f.params = crate::model::copy_params(ps);
            f.return_type = r.clone();
            Ok(true)
        },
        FieldEdit::SetEffects(es) => {
            if same_texts(&f.effects, es) {
                return Ok(false);
            }
            f.effects = crate::model::copy_strings(es);
            Ok(true)
        },
    }
}

// ---------------------------------------------------------------------------
// Intents
// ---------------------------------------------------------------------------
/// `c` is another public function whose intent has the exact-duplicate key `key`.
pub open spec fn duplicates_intent(c: Function, sym: Seq<char>, key: Seq<char>) -> bool {
    &&& c.public
    &&& symbol_text(c) != sym
    &&& c.intent is Some
    &&& intent_key(c.intent->0@) == key
}

/// The index of the first function from `i` on that duplicates the intent key, or the
/// length.
pub open spec fn first_duplicate(fs: Seq<Function>, sym: Seq<char>, key: Seq<char>, i: int) -> int
    decreases fs.len() - i,
{
    if i < 0 || i >= fs.len() {
        fs.len() as int
    } else if duplicates_intent(fs[i], sym, key) {
        i
    } else {
        first_duplicate(fs, sym, key, i + 1)
    }
}

pub open spec fn intent_decision(p: Program, f: Function, intent: Seq<char>) -> Decision {
    let key = intent_key(intent);
    let i = first_duplicate(p.functions@, symbol_text(f), key, 0);
    if key.len() > 0 && i < p.functions@.len() {
        let c = p.functions@[i];
        Decision::Reject(
            "PossibleDuplicate"@,
            "Public function `"@ + f.name@ + "` would have the same intent as `"@ + symbol_text(c)
                + "`."@,
            seq![
                ("candidate"@, symbol_text(c)),
                ("candidate_intent"@, c.intent->0@),
                ("intent"@, intent),
            ],
            target_text(c.source_path@, c.line as nat, c.name@),
            add_prose(
                add_command(no_repairs(), "Find existing functions with the same intent"@, intent_query(intent)),
                "Reuse the existing symbol or make the new intent more specific."@,
            ),
        )
    } else if f.intent is Some && f.intent->0@ == intent {
        Decision::Keep
    } else {
        Decision::Update
    }
}

fn apply_intent_edit(intent: &String, program: &Program, f: &mut Function) -> (res: Result<bool, Diagnostic>)
    ensures
        match intent_decision(*program, *old(f), intent@) {
            Decision::Keep => res == Ok::<bool, Diagnostic>(false),
            Decision::Update => res == Ok::<bool, Diagnostic>(true) && same_function(
                *final(f),
                Function { intent: final(f).intent, ..*old(f) },
            ) && final(f).intent is Some && final(f).intent->0@ == intent@,
            r => res is Err && reports_rejection(res->Err_0, r),
        },
{
    let key = exact_intent_key(intent.as_str());
    if key.as_str().unicode_len() > 0 {
        let fs = &program.functions;
        let sym = f.symbol();
        let mut i: usize = 0;
        while i < fs.len()
            invariant
                i <= fs@.len(),
                *fs == program.functions,
                key@ == intent_key(intent@),
                key@.len() > 0,
                *f == *old(f),
                sym@ == symbol_text(*f),
                first_duplicate(fs@, sym@, key@, i as int) == first_duplicate(fs@, sym@, key@, 0),
            decreases fs@.len() - i,
        {
            let c = &fs[i];
            let csym = c.symbol();
            let mut dup = false;
            if c.public && !str_eq(csym.as_str(), sym.as_str()) {
                match &c.intent {
                    Some(ci) => {
                        let ck = exact_intent_key(ci.as_str());
                        dup = str_eq(ck.as_str(), key.as_str());
                    },
                    None => {},
                }
            }
            assert(dup == duplicates_intent(*c, sym@, key@));
            if dup {
                let mut m = owned("Public function `");
                m.append(f.name.as_str());
                m.append("` would have the same intent as `");
                m.append(csym.as_str());
                m.append("`.");
                let ci = match &c.intent {
                    Some(x) => x.clone(),
                    None => String::new(),
                };
                let mut command: Vec<String> = Vec::new();
                push_arg(&mut command, owned("bin/serow"));
                push_arg(&mut command, owned("query"));
                push_arg(&mut command, owned("intent"));
                push_arg(&mut command, intent.clone());
                assert(strs(command@) =~= intent_query(intent@));
                let d = Diagnostic::error("PossibleDuplicate", m.as_str(), Some(c.target()))
                    .with_data("candidate", csym.as_str())
                    .with_data("candidate_intent", ci.as_str())
                    .with_data("intent", intent.as_str())
                    .with_command_repair("Find existing functions with the same intent", command)
                    .with_repair("Reuse the existing symbol or make the new intent more specific.");
                assert(data_texts(d) =~= seq![
                    ("candidate"@, symbol_text(*c)),
                    ("candidate_intent"@, c.intent->0@),
                    ("intent"@, intent@),
                ]);
                return Err(d);
            }
            i += 1;
        }
    }
    let same = match &f.intent {
        Some(x) => str_eq(x.as_str(), intent.as_str()),
        None => false,
    };
    if same {
        return Ok(false);
    }
    f.intent = Some(intent.clone());
    Ok(true)
}

fn apply_edit(edit: &Edit, program: &Program, f: &mut Function) -> (res: Result<bool, Diagnostic>)
    ensures
        match decide(edit_view(*edit), *program, *old(f)) {
            Decision::Keep => res == Ok::<bool, Diagnostic>(false),
            Decision::Update => res == Ok::<bool, Diagnostic>(true) && applied(
                edit_view(*edit),
                *program,
                *old(f),
                *final(f),
            ),
            r => res is Err && reports_rejection(res->Err_0, r),
        },
{
    match edit {
        Edit::Line(l, op) => apply_line_edit(*l, op, f),
        Edit::Property(op) => apply_property_edit(op, f),
        Edit::Migration(op) => apply_migration_edit(op, f),
        Edit::Field(op) => apply_field_edit(op, f),
        Edit::Intent(i) => apply_intent_edit(i, program, f),
        Edit::Version(v, ins, path) => apply_version_edit(v, ins, path, program, f),
        Edit::Qualify(name, callee, path) => apply_qualify_edit(name, callee, path, program, f),
    }
}

// ---------------------------------------------------------------------------
// Running a patch
// ---------------------------------------------------------------------------
/// `q` is `p` with the function at (`mi`, `fi`) and every indexed function with symbol
/// `sym` replaced by `g`.
pub open spec fn replaced(p: Program, q: Program, mi: int, fi: int, sym: Seq<char>, g: Function) -> bool {
    &&& q.types == p.types
    &&& q.modules@.len() == p.modules@.len()
    &&& forall|j: int| 0 <= j < p.modules@.len() && j != mi ==> #[trigger] q.modules@[j] == p.modules@[j]
    &&& q.modules@[mi] == (Module { functions: q.modules@[mi].functions, ..p.modules@[mi] })
    &&& q.modules@[mi].functions@.len() == p.modules@[mi].functions@.len()
    &&& forall|k: int|
        0 <= k < p.modules@[mi].functions@.len() && k != fi ==> #[trigger] q.modules@[mi].functions@[k]
            == p.modules@[mi].functions@[k]
    &&& same_function(q.modules@[mi].functions@[fi], g)
    &&& q.functions@.len() == p.functions@.len()
    &&& forall|k: int|
        0 <= k < p.functions@.len() ==> if symbol_text(p.functions@[k]) == sym {
            same_function(#[trigger] q.functions@[k], g)
        } else {
            q.functions@[k] == p.functions@[k]
        }
}

/// The diagnostics are `diags` and one more, which satisfies `last`.
pub open spec fn one_more(res: Seq<Diagnostic>, diags: Seq<Diagnostic>) -> bool {
    res.len() == diags.len() + 1 && res.drop_last() == diags
}

/// What patching the function at (`mi`, `fi`) of `p` with edit `e` gives.
pub open spec fn outcome_holds(
    res: (PatchSummary, Option<String>),
    p: Program,
    diags: Seq<Diagnostic>,
    mi: int,
    fi: int,
    sym: Seq<char>,
    e: EditSpec,
) -> bool {
    let f = p.modules@[mi].functions@[fi];
    match decide(e, p, f) {
        Decision::Keep => res.0.diagnostics@ == diags && res.0.changed == 0 && res.1 is None,
        Decision::Update => {
            &&& res.0.diagnostics@ == diags
            &&& res.0.changed == 1
            &&& res.1 is Some
            &&& exists|g: Function, q: Program|
                applied(e, p, f, g) && replaced(p, q, mi, fi, sym, g) && res.1->0@
                    == program_text(q)
        },
        r => {
            &&& res.1 is None
            &&& res.0.changed == 0
            &&& one_more(res.0.diagnostics@, diags)
            &&& reports_rejection(res.0.diagnostics@.last(), r)
        },
    }
}

/// What a patch of `target` with edit `e` gives on program `p` parsed with `diags`: nothing
/// but the parse diagnostics when they hold an error; the target's resolution error; or the
/// edit's outcome on the first function with the target's symbol, and then the program's
/// new text.
pub open spec fn patch_holds(
    res: (PatchSummary, Option<String>),
    p: Program,
    diags: Seq<Diagnostic>,
    path: Seq<char>,
    target: Seq<char>,
    e: EditSpec,
) -> bool {
    if any_error(diags) {
        res.0.diagnostics@ == diags && res.0.changed == 0 && res.1 is None
    } else {
        match target_resolution(p.functions@, target) {
            Err((code, message)) => {
                &&& res.1 is None
                &&& res.0.changed == 0
                &&& one_more(res.0.diagnostics@, diags)
                &&& error_at(res.0.diagnostics@.last(), code, message, path)
                &&& data_texts(res.0.diagnostics@.last()) == target_error_data(p.functions@, target)
                &&& repairs_of(res.0.diagnostics@.last()) == target_error_repairs(p.functions@, target)
            },
            Ok(sym) => if nowhere(p.modules@, sym) {
                &&& res.1 is None
                &&& res.0.changed == 0
                &&& one_more(res.0.diagnostics@, diags)
                &&& error_at(
                    res.0.diagnostics@.last(),
                    "PatchTargetNotFound"@,
                    quote("Function `"@, target, "` was not found."@),
                    path,
                )
                &&& repairs_of(res.0.diagnostics@.last()) == no_repairs()
            } else {
                exists|mi: int, fi: int|
                    first_position(p.modules@, sym, mi, fi) && outcome_holds(
                        res,
                        p,
                        diags,
                        mi,
                        fi,
                        sym,
                        e,
                    )
            },
        }
    }
}

#[verifier::rlimit(40)]
fn apply_patch(
    program: Program,
    parse_diagnostics: Vec<Diagnostic>,
    path: &str,
    target: &str,
    edit: &Edit,
) -> (res: (PatchSummary, Option<String>))
    ensures
        patch_holds(res, program, parse_diagnostics@, path@, target@, edit_view(*edit)),
{
    let ghost p = program;
    let ghost diags = parse_diagnostics@;
    let mut program = program;
    let mut summary = PatchSummary { changed: 0, diagnostics: parse_diagnostics };
    if has_errors(&summary.diagnostics) {
        return (summary, None);
    }
    let symbol = match resolve_patch_target(&program, target, path) {
        Ok(s) => s,
        Err(d) => {
            summary.diagnostics.push(d);
            assert(summary.diagnostics@.drop_last() =~= diags);
            return (summary, None);
        },
    };
    let (mi, fi) = match find_module_function(&program, &symbol) {
        Some(pos) => pos,
        None => {
            let m = quoted("Function `", target, "` was not found.");
            summary.diagnostics.push(
                Diagnostic::error("PatchTargetNotFound", m.as_str(), Some(owned(path))),
            );
            assert(summary.diagnostics@.drop_last() =~= diags);
            return (summary, None);
        },
    };
    let ghost f = p.modules@[mi as int].functions@[fi as int];
    let mut function = program.modules[mi].functions[fi].copy();
    let ghost f0 = function;
    let outcome = apply_edit(edit, &program, &mut function);
    match outcome {
        Ok(true) => {},
        Ok(false) => {
            assert(outcome_holds((summary, None), p, diags, mi as int, fi as int, symbol@, edit_view(*edit)));
            return (summary, None);
        },
        Err(d) => {
            summary.diagnostics.push(d);
            assert(summary.diagnostics@.drop_last() =~= diags);
            let r = (summary, None);
            assert(outcome_holds(r, p, diags, mi as int, fi as int, symbol@, edit_view(*edit)));
            return r;
        },
    }
    let ghost before_m = program.modules@;
    let mut m = program.modules.remove(mi);
    let ghost m0 = m;
    m.functions.set(fi, function.copy());
    program.modules.insert(mi, m);
    proof {
        assert(m0 == p.modules@[mi as int]);
        assert(program.modules@[mi as int] == m);
        assert forall|j: int| 0 <= j < p.modules@.len() && j != mi implies #[trigger] program.modules@[j] == p.modules@[j] by {
            if j < mi {
                assert(program.modules@[j] == before_m[j]);
            } else {
                assert(program.modules@[j] == before_m[j]);
            }
        }
    }
    let ghost pm = program.modules;
    let mut k: usize = 0;
    while k < program.functions.len()
        invariant
            program.modules == pm,
            program.types == p.types,
            k <= program.functions@.len(),
            program.functions@.len() == p.functions@.len(),
            forall|j: int|
                0 <= j < k ==> if symbol_text(p.functions@[j]) == symbol@ {
                    same_function(#[trigger] program.functions@[j], function)
                } else {
                    program.functions@[j] == p.functions@[j]
                },
            forall|j: int| k <= j < p.functions@.len() ==> #[trigger] program.functions@[j] == p.functions@[j],
        decreases program.functions@.len() - k,
    {
        let s = program.functions[k].symbol();
        if s == symbol {
            program.functions.set(k, function.copy());
        }
        k += 1;
    }
    let text = format_program(&program);
    summary.changed = 1;
    proof {
        assert(replaced(p, program, mi as int, fi as int, symbol@, function));
    }
    (summary, Some(text))
}


// ---------------------------------------------------------------------------
// Contract clauses and examples
// ---------------------------------------------------------------------------
/// The list a contract clause keyword names.
pub open spec fn contract_list(clause: Seq<char>) -> LineList {
    if clause == "requires"@ {
        LineList::Requires
    } else {
        LineList::Contracts
    }
}

pub open spec fn valid_clause(clause: Seq<char>) -> bool {
    clause == "requires"@ || clause == "ensures"@
}

pub open spec fn opt_index(index: Option<usize>) -> Option<int> {
    match index {
        Some(i) => Some(i as int),
        None => None,
    }
}

/// Trims the clause keyword and tells which list it names, if any.
fn clause_list(clause: &str, path: &str) -> (res: Result<LineList, (PatchSummary, Option<String>)>)
    ensures
        match res {
            Ok(l) => valid_clause(trim(clause@)) && l == contract_list(trim(clause@)),
            Err(r) => !valid_clause(trim(clause@)) && refused_with(
                r,
                "InvalidPatchTarget"@,
                quote("Invalid contract clause `"@, trim(clause@), "`."@),
                path@,
                prose("Use `requires` or `ensures`."@),
            ),
        },
{
    let c = trim_str(clause);
    if str_eq(c.as_str(), "requires") {
        proof { reveal_strlit("requires"); }
        return Ok(LineList::Requires);
    }
    if str_eq(c.as_str(), "ensures") {
        proof { reveal_strlit("requires"); reveal_strlit("ensures"); }
        return Ok(LineList::Contracts);
    }
    let m = quoted("Invalid contract clause `", c.as_str(), "`.");
    Err(refuse_with_repair("InvalidPatchTarget", m.as_str(), path, "Use `requires` or `ensures`."))
}

/// Adds a `requires` or `ensures` clause to a function, unless an equal one is there.
pub fn add_contract(
    program: Program,
    parse_diagnostics: Vec<Diagnostic>,
    path: &str,
    target: &str,
    clause: &str,
    expression: &str,
) -> (res: (PatchSummary, Option<String>))
    ensures
        if !valid_clause(trim(clause@)) {
            refused_with(
                res,
                "InvalidPatchTarget"@,
                quote("Invalid contract clause `"@, trim(clause@), "`."@),
                path@,
                prose("Use `requires` or `ensures`."@),
            )
        } else if trim(expression@).len() == 0 {
            refused(res, "InvalidPatchTarget"@, "Contract expression must not be empty."@, path@)
        } else {
            patch_holds(
                res,
                program,
                parse_diagnostics@,
                path@,
                target@,
                EditSpec::Line(contract_list(trim(clause@)), LineOp::Add(trim(expression@))),
            )
        },
{
    let l = match clause_list(clause, path) {
        Ok(l) => l,
        Err(r) => return r,
    };
    let e = trim_str(expression);
    if e.as_str().unicode_len() == 0 {
        return refuse("InvalidPatchTarget", "Contract expression must not be empty.", path);
    }
    apply_patch(program, parse_diagnostics, path, target, &Edit::Line(l, LineEdit::Add(e)))
}

/// Replaces the contract clause at a 1-based index, or the only one (adding it when there
/// is none).
pub fn set_contract(
    program: Program,
    parse_diagnostics: Vec<Diagnostic>,
    path: &str,
    target: &str,
    clause: &str,
    index: Option<usize>,
    expression: &str,
) -> (res: (PatchSummary, Option<String>))
    ensures
        if !valid_clause(trim(clause@)) {
            refused_with(
                res,
                "InvalidPatchTarget"@,
                quote("Invalid contract clause `"@, trim(clause@), "`."@),
                path@,
                prose("Use `requires` or `ensures`."@),
            )
        } else if trim(expression@).len() == 0 {
            refused(res, "InvalidPatchTarget"@, "Contract expression must not be empty."@, path@)
        } else {
            patch_holds(
                res,
                program,
                parse_diagnostics@,
                path@,
                target@,
                EditSpec::Line(
                    contract_list(trim(clause@)),
                    LineOp::Replace(opt_index(index), trim(expression@)),
                ),
            )
        },
{
    let l = match clause_list(clause, path) {
        Ok(l) => l,
        Err(r) => return r,
    };
    let e = trim_str(expression);
    if e.as_str().unicode_len() == 0 {
        return refuse("InvalidPatchTarget", "Contract expression must not be empty.", path);
    }
    apply_patch(program, parse_diagnostics, path, target, &Edit::Line(l, LineEdit::Replace(index, e)))
}

/// Removes the contract clause at a 1-based index.
pub fn remove_contract(
    program: Program,
    parse_diagnostics: Vec<Diagnostic>,
    path: &str,
    target: &str,
    clause: &str,
    index: usize,
) -> (res: (PatchSummary, Option<String>))
    ensures
        if !valid_clause(trim(clause@)) {
            refused_with(
                res,
                "InvalidPatchTarget"@,
                quote("Invalid contract clause `"@, trim(clause@), "`."@),
                path@,
                prose("Use `requires` or `ensures`."@),
            )
        } else {
            patch_holds(
                res,
                program,
                parse_diagnostics@,
                path@,
                target@,
                EditSpec::Line(contract_list(trim(clause@)), LineOp::Remove(index as int)),
            )
        },
{
    let l = match clause_list(clause, path) {
        Ok(l) => l,
        Err(r) => return r,
    };
    apply_patch(program, parse_diagnostics, path, target, &Edit::Line(l, LineEdit::Remove(index)))
}

/// Adds an example to a function, unless an equal one is there.
pub fn add_example(
    program: Program,
    parse_diagnostics: Vec<Diagnostic>,
    path: &str,
    target: &str,
    expression: &str,
) -> (res: (PatchSummary, Option<String>))
    ensures
        if trim(expression@).len() == 0 {
            refused(res, "InvalidPatchTarget"@, "Example expression must not be empty."@, path@)
        } else {
            patch_holds(
                res,
                program,
                parse_diagnostics@,
                path@,
                target@,
                EditSpec::Line(LineList::Examples, LineOp::Add(trim(expression@))),
            )
        },
{
    let e = trim_str(expression);
    if e.as_str().unicode_len() == 0 {
        return refuse("InvalidPatchTarget", "Example expression must not be empty.", path);
    }
    apply_patch(program, parse_diagnostics, path, target, &Edit::Line(LineList::Examples, LineEdit::Add(e)))
}

/// Replaces the example at a 1-based index, or the only one (adding it when there is none).
pub fn set_example(
    program: Program,
    parse_diagnostics: Vec<Diagnostic>,
    path: &str,
    target: &str,
    index: Option<usize>,
    expression: &str,
) -> (res: (PatchSummary, Option<String>))
    ensures
        if trim(expression@).len() == 0 {
            refused(res, "InvalidPatchTarget"@, "Example expression must not be empty."@, path@)
        } else {
            patch_holds(
                res,
                program,
                parse_diagnostics@,
                path@,
                target@,
                EditSpec::Line(LineList::Examples, LineOp::Replace(opt_index(index), trim(expression@))),
            )
        },
{
    let e = trim_str(expression);
    if e.as_str().unicode_len() == 0 {
        return refuse("InvalidPatchTarget", "Example expression must not be empty.", path);
    }
    apply_patch(
        program,
        parse_diagnostics,
        path,
        target,
        &Edit::Line(LineList::Examples, LineEdit::Replace(index, e)),
    )
}

/// Removes the example at a 1-based index.
pub fn remove_example(
    program: Program,
    parse_diagnostics: Vec<Diagnostic>,
    path: &str,
    target: &str,
    index: usize,
) -> (res: (PatchSummary, Option<String>))
    ensures
        patch_holds(
            res,
            program,
            parse_diagnostics@,
            path@,
            target@,
            EditSpec::Line(LineList::Examples, LineOp::Remove(index as int)),
        ),
{
    apply_patch(
        program,
        parse_diagnostics,
        path,
        target,
        &Edit::Line(LineList::Examples, LineEdit::Remove(index)),
    )
}


// ---------------------------------------------------------------------------
// Properties, migrations, implementation, signature, effects
// ---------------------------------------------------------------------------
pub open spec fn valid_header(h: Seq<char>) -> bool {
    starts_with(h, "forall "@) && ends_with(h, ":"@)
}

/// Adds a `forall ...:` property with its expression, unless the same pair is there.
pub fn add_property(
    program: Program,
    parse_diagnostics: Vec<Diagnostic>,
    path: &str,
    target: &str,
    forall: &str,
    expression: &str,
) -> (res: (PatchSummary, Option<String>))
    ensures
        if !valid_header(trim(forall@)) {
            refused_with(
                res,
                "InvalidPatchTarget"@,
                quote("Invalid property header `"@, trim(forall@), "`."@),
                path@,
                prose("Use a header like `forall x: Int:`."@),
            )
        } else if trim(expression@).len() == 0 {
            refused(res, "InvalidPatchTarget"@, "Property expression must not be empty."@, path@)
        } else {
            patch_holds(
                res,
                program,
                parse_diagnostics@,
                path@,
                target@,
                EditSpec::Property(PropertyOp::Add(trim(forall@), trim(expression@))),
            )
        },
{
    let (h, e) = match property_parts(forall, expression, path) {
        Ok(x) => x,
        Err(r) => return r,
    };
    apply_patch(program, parse_diagnostics, path, target, &Edit::Property(PropertyEdit::Add(h, e)))
}

fn property_parts(forall: &str, expression: &str, path: &str) -> (res: Result<
    (String, String),
    (PatchSummary, Option<String>),
>)
    ensures
        match res {
            Ok((h, e)) => valid_header(trim(forall@)) && trim(expression@).len() > 0 && h@ == trim(
                forall@,
            ) && e@ == trim(expression@),
            Err(r) => if !valid_header(trim(forall@)) {
                refused_with(
                    r,
                    "InvalidPatchTarget"@,
                    quote("Invalid property header `"@, trim(forall@), "`."@),
                    path@,
                    prose("Use a header like `forall x: Int:`."@),
                )
            } else {
                trim(expression@).len() == 0 && refused(
                    r,
                    "InvalidPatchTarget"@,
                    "Property expression must not be empty."@,
                    path@,
                )
            },
        },
{
    let h = trim_str(forall);
    let hc = chars_of(h.as_str());
    if !(has_prefix_str(&hc, "forall ") && has_suffix_str(&hc, ":")) {
        let m = quoted("Invalid property header `", h.as_str(), "`.");
        return Err(refuse_with_repair("InvalidPatchTarget", m.as_str(), path, "Use a header like `forall x: Int:`."));
    }
    let e = trim_str(expression);
    if e.as_str().unicode_len() == 0 {
        return Err(refuse("InvalidPatchTarget", "Property expression must not be empty.", path));
    }
    Ok((h, e))
}

/// Replaces the property at a 1-based index, or the only one (adding it when there is
/// none).
pub fn set_property(
    program: Program,
    parse_diagnostics: Vec<Diagnostic>,
    path: &str,
    target: &str,
    index: Option<usize>,
    forall: &str,
    expression: &str,
) -> (res: (PatchSummary, Option<String>))
    ensures
        if !valid_header(trim(forall@)) {
            refused_with(
                res,
                "InvalidPatchTarget"@,
                quote("Invalid property header `"@, trim(forall@), "`."@),
                path@,
                prose("Use a header like `forall x: Int:`."@),
            )
        } else if trim(expression@).len() == 0 {
            refused(res, "InvalidPatchTarget"@, "Property expression must not be empty."@, path@)
        } else {
            patch_holds(
                res,
                program,
                parse_diagnostics@,
                path@,
                target@,
                EditSpec::Property(PropertyOp::Replace(opt_index(index), trim(forall@), trim(expression@))),
            )
        },
{
    let (h, e) = match property_parts(forall, expression, path) {
        Ok(x) => x,
        Err(r) => return r,
    };
    apply_patch(
        program,
        parse_diagnostics,
        path,
        target,
        &Edit::Property(PropertyEdit::Replace(index, h, e)),
    )
}

/// Removes the property (header and expression) at a 1-based index.
pub fn remove_property(
    program: Program,
    parse_diagnostics: Vec<Diagnostic>,
    path: &str,
    target: &str,
    index: usize,
) -> (res: (PatchSummary, Option<String>))
    ensures
        patch_holds(
            res,
            program,
            parse_diagnostics@,
            path@,
            target@,
            EditSpec::Property(PropertyOp::Remove(index as int)),
        ),
{
    apply_patch(program, parse_diagnostics, path, target, &Edit::Property(PropertyEdit::Remove(index)))
}

/// The kinds of migration record.
pub open spec fn migration_kinds() -> Seq<Seq<char>> {
    seq![
        "public-behavior-change"@,
        "capability-expansion"@,
        "evidence-weakening"@,
        "implementation-change"@,
        "impact-review"@,
    ]
}

fn kind_list() -> (res: Vec<String>)
    ensures
        texts(res@) == migration_kinds(),
{
    let mut v: Vec<String> = Vec::new();
    v.push(owned("public-behavior-change"));
    v.push(owned("capability-expansion"));
    v.push(owned("evidence-weakening"));
    v.push(owned("implementation-change"));
    v.push(owned("impact-review"));
    proof {
        reveal_strlit("public-behavior-change");
        reveal_strlit("capability-expansion");
        reveal_strlit("evidence-weakening");
        reveal_strlit("implementation-change");
        reveal_strlit("impact-review");
    }
    assert(texts(v@) =~= migration_kinds());
    v
}

/// A migration kind is refused unless it is one of the kinds: one error listing them.
pub open spec fn refused_kind(res: (PatchSummary, Option<String>), kind: Seq<char>, path: Seq<char>) -> bool {
    &&& res.1 is None
    &&& res.0.changed == 0
    &&& res.0.diagnostics@.len() == 1
    &&& error_at(res.0.diagnostics@[0], "InvalidPatchTarget"@, quote("Invalid migration kind `"@, kind, "`."@), path)
    &&& data_texts(res.0.diagnostics@[0]) == seq![("allowed"@, join_spec(migration_kinds(), ", "@))]
    &&& repairs_of(res.0.diagnostics@[0]) == prose("Use a supported migration kind."@)
}

fn check_kind(kind: &String, path: &str) -> (res: Option<(PatchSummary, Option<String>)>)
    ensures
        match res {
            None => migration_kinds().contains(kind@),
            Some(r) => !migration_kinds().contains(kind@) && refused_kind(r, kind@, path@),
        },
{
    let kinds = kind_list();
    let mut i: usize = 0;
    while i < kinds.len()
        invariant
            i <= kinds@.len(),
            texts(kinds@) == migration_kinds(),
            forall|j: int| 0 <= j < i ==> #[trigger] migration_kinds()[j] != kind@,
        decreases kinds@.len() - i,
    {
        assert(texts(kinds@)[i as int] == kinds@[i as int]@);
        if str_eq(kinds[i].as_str(), kind.as_str()) {
            assert(migration_kinds()[i as int] == kind@);
            return None;
        }
        i += 1;
    }
    let allowed = join_strings(&kinds, ", ");
    let m = quoted("Invalid migration kind `", kind.as_str(), "`.");
    let d = Diagnostic::error("InvalidPatchTarget", m.as_str(), Some(owned(path)))
        .with_data("allowed", allowed.as_str())
        .with_repair("Use a supported migration kind.");
    assert(data_texts(d) =~= seq![("allowed"@, join_spec(migration_kinds(), ", "@))]);
    let mut diagnostics: Vec<Diagnostic> = Vec::new();
    diagnostics.push(d);
    Some((PatchSummary { changed: 0, diagnostics }, None))
}

/// Adds a migration record, unless an equal one is there.
pub fn add_migration(
    program: Program,
    parse_diagnostics: Vec<Diagnostic>,
    path: &str,
    target: &str,
    kind: &str,
    note: &str,
) -> (res: (PatchSummary, Option<String>))
    ensures
        if !migration_kinds().contains(trim(kind@)) {
            refused_kind(res, trim(kind@), path@)
        } else if trim(note@).len() == 0 {
            refused(res, "InvalidPatchTarget"@, "Migration note must not be empty."@, path@)
        } else {
            patch_holds(
                res,
                program,
                parse_diagnostics@,
                path@,
                target@,
                EditSpec::Migration(MigrationOp::Add(trim(kind@), trim(note@))),
            )
        },
{
    let k = trim_str(kind);
    if let Some(r) = check_kind(&k, path) {
        return r;
    }
    let n = trim_str(note);
    if n.as_str().unicode_len() == 0 {
        return refuse("InvalidPatchTarget", "Migration note must not be empty.", path);
    }
    apply_patch(program, parse_diagnostics, path, target, &Edit::Migration(MigrationEdit::Add(k, n)))
}

/// Replaces the note of the record of a kind at a 1-based index among that kind, or of the
/// only one (adding it when there is none).
pub fn set_migration(
    program: Program,
    parse_diagnostics: Vec<Diagnostic>,
    path: &str,
    target: &str,
    kind: &str,
    index: Option<usize>,
    note: &str,
) -> (res: (PatchSummary, Option<String>))
    ensures
        if !migration_kinds().contains(trim(kind@)) {
            refused_kind(res, trim(kind@), path@)
        } else if trim(note@).len() == 0 {
            refused(res, "InvalidPatchTarget"@, "Migration note must not be empty."@, path@)
        } else {
            patch_holds(
                res,
                program,
                parse_diagnostics@,
                path@,
                target@,
                EditSpec::Migration(MigrationOp::Replace(trim(kind@), opt_index(index), trim(note@))),
            )
        },
{
    let k = trim_str(kind);
    if let Some(r) = check_kind(&k, path) {
        return r;
    }
    let n = trim_str(note);
    if n.as_str().unicode_len() == 0 {
        return refuse("InvalidPatchTarget", "Migration note must not be empty.", path);
    }
    apply_patch(
        program,
        parse_diagnostics,
        path,
        target,
        &Edit::Migration(MigrationEdit::Replace(k, index, n)),
    )
}

/// Removes the record of a kind at a 1-based index among that kind.
pub fn remove_migration(
    program: Program,
    parse_diagnostics: Vec<Diagnostic>,
    path: &str,
    target: &str,
    kind: &str,
    index: usize,
) -> (res: (PatchSummary, Option<String>))
    ensures
        if !migration_kinds().contains(trim(kind@)) {
            refused_kind(res, trim(kind@), path@)
        } else {
            patch_holds(
                res,
                program,
                parse_diagnostics@,
                path@,
                target@,
                EditSpec::Migration(MigrationOp::Remove(trim(kind@), index as int)),
            )
        },
{
    let k = trim_str(kind);
    if let Some(r) = check_kind(&k, path) {
        return r;
    }
    apply_patch(program, parse_diagnostics, path, target, &Edit::Migration(MigrationEdit::Remove(k, index)))
}

/// Replaces an implementation that holds a typed hole.
pub fn fill_hole(
    program: Program,
    parse_diagnostics: Vec<Diagnostic>,
    path: &str,
    target: &str,
    expression: &str,
) -> (res: (PatchSummary, Option<String>))
    ensures
        if trim(expression@).len() == 0 {
            refused(res, "InvalidPatchTarget"@, "Implementation expression must not be empty."@, path@)
        } else {
            patch_holds(
                res,
                program,
                parse_diagnostics@,
                path@,
                target@,
                EditSpec::Field(FieldOp::FillHole(trim(expression@))),
            )
        },
{
    let e = trim_str(expression);
    if e.as_str().unicode_len() == 0 {
        return refuse("InvalidPatchTarget", "Implementation expression must not be empty.", path);
    }
    apply_patch(program, parse_diagnostics, path, target, &Edit::Field(FieldEdit::FillHole(e)))
}

/// Sets a function's implementation.
pub fn set_impl(
    program: Program,
    parse_diagnostics: Vec<Diagnostic>,
    path: &str,
    target: &str,
    expression: &str,
) -> (res: (PatchSummary, Option<String>))
    ensures
        if trim(expression@).len() == 0 {
            refused(res, "InvalidPatchTarget"@, "Implementation expression must not be empty."@, path@)
        } else {
            patch_holds(
                res,
                program,
                parse_diagnostics@,
                path@,
                target@,
                EditSpec::Field(FieldOp::SetImpl(trim(expression@))),
            )
        },
{
    let e = trim_str(expression);
    if e.as_str().unicode_len() == 0 {
        return refuse("InvalidPatchTarget", "Implementation expression must not be empty.", path);
    }
    apply_patch(program, parse_diagnostics, path, target, &Edit::Field(FieldEdit::SetImpl(e)))
}


// ---------------------------------------------------------------------------
// Signatures and effect declarations
// ---------------------------------------------------------------------------
/// The first `->` at or after `i`, or the length.
pub open spec fn arrow_from(s: Seq<char>, i: int) -> int
    decreases s.len() - i,
{
    if i < 0 || i + 1 >= s.len() {
        s.len() as int
    } else if s[i] == '-' && s[i + 1] == '>' {
        i
    } else {
        arrow_from(s, i + 1)
    }
}

/// `name: Type`, trimmed, with a valid name and a non-empty type.
pub open spec fn typed_pair(part: Seq<char>) -> Option<(Seq<char>, Seq<char>)> {
    let p = trim(part);
    let c = find_from(p, ':', 0);
    if c >= p.len() {
        None
    } else if is_ident(trim(p.take(c))) && trim(p.skip(c + 1)).len() > 0 {
        Some((trim(p.take(c)), trim(p.skip(c + 1))))
    } else {
        None
    }
}

pub open spec fn typed_pairs(parts: Seq<Seq<char>>) -> Option<Seq<(Seq<char>, Seq<char>)>>
    decreases parts.len(),
{
    if parts.len() == 0 {
        Some(seq![])
    } else {
        match (typed_pairs(parts.drop_last()), typed_pair(parts.last())) {
            (Some(a), Some(b)) => Some(a.push(b)),
            _ => None,
        }
    }
}

/// The parameters of a signature: none for blank text, else comma-separated pairs.
pub open spec fn signature_params(text: Seq<char>) -> Option<Seq<(Seq<char>, Seq<char>)>> {
    if trim(text).len() == 0 {
        Some(seq![])
    } else {
        typed_pairs(split_spec(text, ','))
    }
}

/// `name(params) -> Type`: the name, the parameters and the return type.
pub open spec fn signature_of(sig: Seq<char>) -> Option<
    (Seq<char>, Seq<(Seq<char>, Seq<char>)>, Seq<char>),
> {
    let a = arrow_from(sig, 0);
    let left = sig.take(a);
    let ret = trim(sig.skip(a + 2));
    let open = find_from(left, '(', 0);
    let close = rfind_before(left, ')', left.len() as int);
    if a >= sig.len() || ret.len() == 0 || open >= left.len() || close < open || trim(
        left.skip(close + 1),
    ).len() != 0 || !is_ident(trim(left.take(open))) {
        None
    } else {
        match signature_params(left.subrange(open + 1, close)) {
            Some(ps) => Some((trim(left.take(open)), ps, ret)),
            None => None,
        }
    }
}

fn arrow_index(s: &[char]) -> (res: usize)
    ensures
        res == arrow_from(s@, 0),
{
    let mut i: usize = 0;
    while s.len() > 0 && i < s.len() - 1
        invariant
            arrow_from(s@, i as int) == arrow_from(s@, 0),
            i <= s@.len(),
        decreases s@.len() - i,
    {
        if s[i] == '-' && s[i + 1] == '>' {
            return i;
        }
        i += 1;
    }
    s.len()
}

fn parse_typed_pair(part: &[char]) -> (res: Option<Param>)
    ensures
        match (res, typed_pair(part@)) {
            (Some(p), Some((n, t))) => p.name@ == n && p.type_text@ == t,
            (None, None) => true,
            _ => false,
        },
{
    let p = trim_chars(part);
    proof {
        lemma_find_from(p@, ':', 0);
    }
    let c = find_char(&p, ':', 0);
    if c >= p.len() {
        return None;
    }
    let n = trim_chars(&slice_chars(&p, 0, c));
    let t = trim_chars(&slice_chars(&p, c + 1, p.len()));
    assert(p@.subrange(0, c as int) =~= p@.take(c as int));
    assert(p@.subrange(c + 1, p@.len() as int) =~= p@.skip(c + 1));
    if is_valid_ident(&n) && t.len() > 0 {
        Some(Param { name: string_of(&n), type_text: string_of(&t) })
    } else {
        None
    }
}

pub(crate) fn parse_signature_params(text: &[char]) -> (res: Option<Vec<Param>>)
    ensures
        match (res, signature_params(text@)) {
            (Some(ps), Some(v)) => param_views(ps@) == v,
            (None, None) => true,
            _ => false,
        },
{
    let t = trim_chars(text);
    if t.len() == 0 {
        let v: Vec<Param> = Vec::new();
        assert(param_views(v@) =~= Seq::<(Seq<char>, Seq<char>)>::empty());
        return Some(v);
    }
    let parts = split_chars(text, ',');
    let ghost ps = split_spec(text@, ',');
    let mut out: Vec<Param> = Vec::new();
    let mut k: usize = 0;
    assert(ps.take(0) =~= Seq::<Seq<char>>::empty());
    assert(param_views(out@) =~= Seq::<(Seq<char>, Seq<char>)>::empty());
    while k < parts.len()
        invariant
            k <= parts@.len(),
            parts@.len() == ps.len(),
            ps == split_spec(text@, ','),
            signature_params(text@) == typed_pairs(ps),
            forall|j: int| 0 <= j < parts@.len() ==> #[trigger] parts@[j]@ == ps[j],
            typed_pairs(ps.take(k as int)) == Some(param_views(out@)),
        decreases parts@.len() - k,
    {
        proof {
            assert(ps.take(k + 1).drop_last() =~= ps.take(k as int));
            assert(ps.take(k + 1).last() == ps[k as int]);
        }
        match parse_typed_pair(&parts[k]) {
            Some(p) => {
                let ghost before = out@;
                out.push(p);
                assert(param_views(out@) =~= param_views(before).push((p.name@, p.type_text@)));
            },
            None => {
                proof {
                    lemma_pairs_none(ps, k + 1);
                }
                return None;
            },
        }
        k += 1;
    }
    assert(ps.take(ps.len() as int) =~= ps);
    Some(out)
}

proof fn lemma_pairs_none(ps: Seq<Seq<char>>, k: int)
    requires
        0 <= k <= ps.len(),
        typed_pairs(ps.take(k)) is None,
    ensures
        typed_pairs(ps) is None,
    decreases ps.len() - k,
{
    if k < ps.len() {
        assert(ps.take(k + 1).drop_last() =~= ps.take(k));
        lemma_pairs_none(ps, k + 1);
    } else {
        assert(ps.take(k) =~= ps);
    }
}

proof fn lemma_items_none(ps: Seq<Seq<char>>, k: int)
    requires
        0 <= k <= ps.len(),
        effect_items(ps.take(k)) is None,
    ensures
        effect_items(ps) is None,
    decreases ps.len() - k,
{
    if k < ps.len() {
        assert(ps.take(k + 1).drop_last() =~= ps.take(k));
        lemma_items_none(ps, k + 1);
    } else {
        assert(ps.take(k) =~= ps);
    }
}

pub(crate) fn parse_signature(signature: &[char]) -> (res: Option<(String, Vec<Param>, String)>)
    ensures
        match (res, signature_of(signature@)) {
            (Some((n, ps, r)), Some((sn, sps, sr))) => n@ == sn && param_views(ps@) == sps && r@ == sr,
            (None, None) => true,
            _ => false,
        },
{
    let s = signature;
    let a = arrow_index(s);
    if a >= s.len() {
        return None;
    }
    assert(a + 1 < s@.len()) by {
        lemma_arrow_from(s@, 0);
    }
    let left = slice_chars(s, 0, a);
    assert(left@ =~= s@.take(a as int));
    let ret = trim_chars(&slice_chars(s, a + 2, s.len()));
    assert(s@.subrange(a + 2, s@.len() as int) =~= s@.skip(a + 2));
    if ret.len() == 0 {
        return None;
    }
    proof {
        lemma_find_from(left@, '(', 0);
        lemma_rfind_before(left@, ')', left@.len() as int);
    }
    let open = find_char(&left, '(', 0);
    if open >= left.len() {
        return None;
    }
    let close = match rfind_char(&left, ')') {
        Some(c) => c,
        None => {
            return None;
        },
    };
    if close < open {
        return None;
    }
    let tail = trim_chars(&slice_chars(&left, close + 1, left.len()));
    assert(left@.subrange(close + 1, left@.len() as int) =~= left@.skip(close + 1));
    if tail.len() != 0 {
        return None;
    }
    let name = trim_chars(&slice_chars(&left, 0, open));
    assert(left@.subrange(0, open as int) =~= left@.take(open as int));
    if !is_valid_ident(&name) {
        return None;
    }
    let inner = slice_chars(&left, open + 1, close);
    match parse_signature_params(&inner) {
        Some(ps) => Some((string_of(&name), ps, string_of(&ret))),
        None => None,
    }
}

proof fn lemma_arrow_from(s: Seq<char>, i: int)
    requires
        0 <= i,
    ensures
        arrow_from(s, i) == s.len() || (i <= arrow_from(s, i) && arrow_from(s, i) + 1 < s.len()),
    decreases s.len() - i,
{
    if i + 1 < s.len() && !(s[i] == '-' && s[i + 1] == '>') {
        lemma_arrow_from(s, i + 1);
    }
}

/// Replaces a function's parameters and return type; the name must stay.
pub fn set_signature(
    program: Program,
    parse_diagnostics: Vec<Diagnostic>,
    path: &str,
    target: &str,
    signature: &str,
) -> (res: (PatchSummary, Option<String>))
    ensures
        match signature_of(trim(signature@)) {
            None => refused_with(
                res,
                "InvalidPatchTarget"@,
                quote("Invalid function signature `"@, trim(signature@), "`."@),
                path@,
                prose("Use a signature like `name(x: Int, y: Int) -> Int`."@),
            ),
            Some((n, ps, r)) => patch_holds(
                res,
                program,
                parse_diagnostics@,
                path@,
                target@,
                EditSpec::Field(FieldOp::SetSignature(n, ps, r)),
            ),
        },
{
    let sig = trim_str(signature);
    let cs = chars_of(sig.as_str());
    match parse_signature(&cs) {
        Some((n, ps, r)) => apply_patch(
            program,
            parse_diagnostics,
            path,
            target,
            &Edit::Field(FieldEdit::SetSignature(n, ps, r)),
        ),
        None => {
            let m = quoted("Invalid function signature `", sig.as_str(), "`.");
            refuse_with_repair(
                "InvalidPatchTarget",
                m.as_str(),
                path,
                "Use a signature like `name(x: Int, y: Int) -> Int`.",
            )
        },
    }
}

/// The capabilities of a bracketed list, each once, in first-seen order.
pub open spec fn effect_items(parts: Seq<Seq<char>>) -> Option<Seq<Seq<char>>>
    decreases parts.len(),
{
    if parts.len() == 0 {
        Some(seq![])
    } else {
        match effect_items(parts.drop_last()) {
            Some(acc) => {
                let e = trim(parts.last());
                if e == "pure"@ || !is_ident(e) {
                    None
                } else if acc.contains(e) {
                    Some(acc)
                } else {
                    Some(acc.push(e))
                }
            },
            None => None,
        }
    }
}

/// An effect declaration: `pure`, or a non-empty bracketed list of capabilities.
pub open spec fn effect_decl(text: Seq<char>) -> Option<Seq<Seq<char>>> {
    if text == "pure"@ {
        Some(seq!["pure"@])
    } else if !(starts_with(text, "["@) && ends_with(text, "]"@)) || text.len() < 2 {
        None
    } else {
        let inner = trim(text.subrange(1, text.len() - 1));
        if inner.len() == 0 {
            None
        } else {
            effect_items(split_spec(inner, ','))
        }
    }
}

fn parse_effect_declaration(text: &[char]) -> (res: Option<Vec<String>>)
    ensures
        match (res, effect_decl(text@)) {
            (Some(v), Some(w)) => texts(v@) == w,
            (None, None) => true,
            _ => false,
        },
{
    proof {
        reveal_strlit("pure");
        reveal_strlit("[");
        reveal_strlit("]");
    }
    let t = string_of(text);
    if str_eq(t.as_str(), "pure") {
        let mut v: Vec<String> = Vec::new();
        v.push(owned("pure"));
        assert(texts(v@) =~= seq!["pure"@]);
        return Some(v);
    }
    if !(has_prefix_str(text, "[") && has_suffix_str(text, "]")) || text.len() < 2 {
        return None;
    }
    let inner = trim_chars(&slice_chars(text, 1, text.len() - 1));
    if inner.len() == 0 {
        return None;
    }
    let parts = split_chars(&inner, ',');
    let ghost ps = split_spec(inner@, ',');
    assert(effect_decl(text@) == effect_items(ps));
    let mut out: Vec<String> = Vec::new();
    let mut k: usize = 0;
    assert(ps.take(0) =~= Seq::<Seq<char>>::empty());
    assert(texts(out@) =~= Seq::<Seq<char>>::empty());
    while k < parts.len()
        invariant
            k <= parts@.len(),
            parts@.len() == ps.len(),
            ps == split_spec(inner@, ','),
            effect_decl(text@) == effect_items(ps),
            forall|j: int| 0 <= j < parts@.len() ==> #[trigger] parts@[j]@ == ps[j],
            effect_items(ps.take(k as int)) == Some(texts(out@)),
        decreases parts@.len() - k,
    {
        proof {
            assert(ps.take(k + 1).drop_last() =~= ps.take(k as int));
            assert(ps.take(k + 1).last() == ps[k as int]);
        }
        let e = trim_chars(&parts[k]);
        let es = string_of(&e);
        if str_eq(es.as_str(), "pure") || !is_valid_ident(&e) {
            proof {
                lemma_items_none(ps, k + 1);
            }
            return None;
        }
        let mut seen = false;
        let mut j: usize = 0;
        while j < out.len()
            invariant
                j <= out@.len(),
                es@ == e@,
                seen == exists|w: int| 0 <= w < j && #[trigger] texts(out@)[w] == e@,
            decreases out@.len() - j,
        {
            assert(texts(out@)[j as int] == out@[j as int]@);
            if str_eq(out[j].as_str(), es.as_str()) {
                seen = true;
            }
            j += 1;
        }
        assert(seen == texts(out@).contains(e@));
        if !seen {
            let ghost before = out@;
            out.push(es);
            assert(texts(out@) =~= texts(before).push(e@));
        }
        k += 1;
    }
    assert(ps.take(ps.len() as int) =~= ps);
    Some(out)
}

/// Replaces a function's effect declaration.
pub fn set_effects(
    program: Program,
    parse_diagnostics: Vec<Diagnostic>,
    path: &str,
    target: &str,
    effects: &str,
) -> (res: (PatchSummary, Option<String>))
    ensures
        match effect_decl(trim(effects@)) {
            None => refused_with(
                res,
                "InvalidPatchTarget"@,
                quote("Invalid effects declaration `"@, trim(effects@), "`."@),
                path@,
                prose("Use `pure` or a bracketed capability list like `[io, network]`."@),
            ),
            Some(es) => patch_holds(
                res,
                program,
                parse_diagnostics@,
                path@,
                target@,
                EditSpec::Field(FieldOp::SetEffects(es)),
            ),
        },
{
    let e = trim_str(effects);
    let cs = chars_of(e.as_str());
    match parse_effect_declaration(&cs) {
        Some(es) => apply_patch(program, parse_diagnostics, path, target, &Edit::Field(FieldEdit::SetEffects(es))),
        None => {
            let m = quoted("Invalid effects declaration `", e.as_str(), "`.");
            refuse_with_repair(
                "InvalidPatchTarget",
                m.as_str(),
                path,
                "Use `pure` or a bracketed capability list like `[io, network]`.",
            )
        },
    }
}


/// Sets a function's intent, unless another public function already has the same one.
pub fn set_intent(
    program: Program,
    parse_diagnostics: Vec<Diagnostic>,
    path: &str,
    target: &str,
    intent: &str,
) -> (res: (PatchSummary, Option<String>))
    ensures
        if trim(intent@).len() == 0 {
            refused(res, "InvalidPatchTarget"@, "Function intent must not be empty."@, path@)
        } else {
            patch_holds(res, program, parse_diagnostics@, path@, target@, EditSpec::Intent(trim(intent@)))
        },
{
    let i = trim_str(intent);
    if i.as_str().unicode_len() == 0 {
        return refuse("InvalidPatchTarget", "Function intent must not be empty.", path);
    }
    apply_patch(program, parse_diagnostics, path, target, &Edit::Intent(i))
}

/// Moves a function to an explicit symbol version, unless the version is malformed,
/// another function already has the new symbol, or calls pin the current version.
pub fn set_version(
    program: Program,
    parse_diagnostics: Vec<Diagnostic>,
    path: &str,
    target: &str,
    version: &str,
) -> (res: (PatchSummary, Option<String>))
    ensures
        if !valid_version(trim(version@)) {
            refused_with(
                res,
                "InvalidPatchTarget"@,
                quote("Invalid symbol version `"@, trim(version@), "`."@),
                path@,
                prose("Use a version like `v1`."@),
            )
        } else {
            exists|ins: Seq<Function>|
                is_intrinsic_list(ins) && patch_holds(
                    res,
                    program,
                    parse_diagnostics@,
                    path@,
                    target@,
                    EditSpec::Version(trim(version@), ins, path@),
                )
        },
{
    let v = trim_str(version);
    let vc = chars_of(v.as_str());
    if !crate::eval::is_valid_version(&vc) {
        let m = quoted("Invalid symbol version `", v.as_str(), "`.");
        return refuse_with_repair("InvalidPatchTarget", m.as_str(), path, "Use a version like `v1`.");
    }
    let ins = intrinsic_functions();
    let edit = Edit::Version(v, ins, owned(path));
    apply_patch(program, parse_diagnostics, path, target, &edit)
}

/// Rewrites the bare `call_name(` calls of the caller into calls by the full symbol of
/// the callee, whose name must be `call_name`.
pub fn qualify_call(
    program: Program,
    parse_diagnostics: Vec<Diagnostic>,
    path: &str,
    caller_target: &str,
    call_name: &str,
    callee_target: &str,
) -> (res: (PatchSummary, Option<String>))
    ensures
        if !is_ident(trim(call_name@)) {
            refused_with(
                res,
                "InvalidPatchTarget"@,
                quote("Invalid bare call name `"@, trim(call_name@), "`."@),
                path@,
                prose("Use the unqualified function name from the call site."@),
            )
        } else {
            patch_holds(
                res,
                program,
                parse_diagnostics@,
                path@,
                caller_target@,
                EditSpec::Qualify(trim(call_name@), callee_target@, path@),
            )
        },
{
    let name = trim_str(call_name);
    let nc = chars_of(name.as_str());
    if !is_valid_ident(&nc) {
        let m = quoted("Invalid bare call name `", name.as_str(), "`.");
        return refuse_with_repair(
            "InvalidPatchTarget",
            m.as_str(),
            path,
            "Use the unqualified function name from the call site.",
        );
    }
    let edit = Edit::Qualify(name, owned(callee_target), owned(path));
    apply_patch(program, parse_diagnostics, path, caller_target, &edit)
}

/// A patch writes new source text exactly when it reports one change; a refused, failed or
/// idle patch writes nothing.
pub proof fn law_text_iff_changed(
    res: (PatchSummary, Option<String>),
    p: Program,
    diags: Seq<Diagnostic>,
    path: Seq<char>,
    target: Seq<char>,
    e: EditSpec,
)
    requires
        patch_holds(res, p, diags, path, target, e),
    ensures
        res.1 is Some <==> res.0.changed == 1,
        res.0.changed <= 1,
{
    if !any_error(diags) {
        match target_resolution(p.functions@, target) {
            Ok(sym) => {
                if !nowhere(p.modules@, sym) {
                    let (mi, fi) = choose|mi: int, fi: int| first_position(p.modules@, sym, mi, fi) && outcome_holds(res, p, diags, mi, fi, sym, e);
                    assert(outcome_holds(res, p, diags, mi, fi, sym, e));
                }
            },
            Err(_) => {},
        }
    }
}

/// Adding a line that a list does not hold, and then removing the line at the new last
/// position (counted from one), gives back the original list and changes nothing else; the
/// removal is always accepted.
pub proof fn law_add_then_remove_line(l: LineList, f: Function, g: Function, h: Function, e: Seq<char>)
    requires
        line_applied(l, LineOp::Add(e), f, g),
        line_applied(l, LineOp::Remove(texts(line_field(f, l)).len() + 1int), g, h),
    ensures
        line_decision(l, LineOp::Remove(texts(line_field(f, l)).len() + 1int), g) is Update,
        texts(line_field(h, l)) == texts(line_field(f, l)),
        only_lines_changed(f, h, l),
{
    let lines = texts(line_field(f, l));
    assert(texts(line_field(g, l)) == lines.push(e));
    assert(lines.push(e).remove(lines.len() as int) =~= lines);
}

/// Adding a trimmed line twice changes the list once: after the first addition, the
/// second finds the line and keeps the function as it is.
pub proof fn law_add_line_idempotent(l: LineList, f: Function, g: Function, e: Seq<char>)
    requires
        trim(e) == e,
        line_applied(l, LineOp::Add(e), f, g),
    ensures
        line_decision(l, LineOp::Add(e), g) is Keep,
{
    let lines = texts(line_field(f, l));
    let after = texts(line_field(g, l));
    assert(after == lines.push(e));
    assert(trim(after[lines.len() as int]) == e);
    assert(has_trimmed(after, e));
}

} // verus!
