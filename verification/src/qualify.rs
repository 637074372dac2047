//! Rewriting bare calls of a function into calls by its full symbol.
use vstd::prelude::*;
use vstd::string::*;

use crate::checks::first_symbol;
use crate::diagnostic::{no_repairs, Diagnostic};
use crate::model::{same_function, symbol_text, target_text, Function, Program};
use crate::patch::{
    data_texts, is_header, prose, quote, reports_rejection, resolve_patch_target, target_error_data,
    target_error_repairs,
    target_resolution, texts, Decision,
};
use crate::pinning::find_symbol;
use crate::text::owned;
use crate::text::{
    ascii_alnum, ascii_alpha, chars_of, is_alnum, is_alpha, is_ws, seq_eq, skip_ws, skip_ws_from,
    string_of,
};

verus! {

/// The end of a string literal whose body is scanned from `j`: just past the closing
/// quote, or the end of the text; `escaped` when the previous character was a backslash.
pub open spec fn lit_end_from(s: Seq<char>, j: int, escaped: bool) -> int
    decreases s.len() - j,
{
    if j < 0 || j >= s.len() {
        s.len() as int
    } else if escaped {
        lit_end_from(s, j + 1, false)
    } else if s[j] == '\\' {
        lit_end_from(s, j + 1, true)
    } else if s[j] == '"' {
        j + 1
    } else {
        lit_end_from(s, j + 1, false)
    }
}

/// The end of the string literal that opens at `start`.
pub open spec fn literal_end(s: Seq<char>, start: int) -> int {
    lit_end_from(s, start + 1, false)
}

/// A character of a call reference: ASCII alphanumeric, `_` or `.`.
pub open spec fn is_ref_char(c: char) -> bool {
    is_alnum(c) || c == '_' || c == '.'
}

/// The end of the run of reference characters from `j`.
pub open spec fn ref_run_end(s: Seq<char>, j: int) -> int
    decreases s.len() - j,
{
    if 0 <= j < s.len() && is_ref_char(s[j]) {
        ref_run_end(s, j + 1)
    } else {
        j
    }
}

/// The end of the reference that starts at `start`: `@` and at least one reference
/// character, or a letter or `_` and the reference characters after it.
pub open spec fn ident_end(s: Seq<char>, start: int) -> Option<int> {
    if start < 0 || start >= s.len() {
        None
    } else if s[start] == '@' {
        let e = ref_run_end(s, start + 1);
        if e > start + 1 {
            Some(e)
        } else {
            None
        }
    } else if is_alpha(s[start]) || s[start] == '_' {
        Some(ref_run_end(s, start + 1))
    } else {
        None
    }
}

/// The first character that is not white space from `end` on is `(`.
pub open spec fn called_at(s: Seq<char>, end: int) -> bool {
    skip_ws_from(s, end) < s.len() && s[skip_ws_from(s, end)] == '('
}

pub proof fn lemma_lit_end(s: Seq<char>, j: int, escaped: bool)
    requires
        0 <= j <= s.len(),
    ensures
        j <= lit_end_from(s, j, escaped) <= s.len(),
    decreases s.len() - j,
{
    if j < s.len() {
        lemma_lit_end(s, j + 1, false);
        lemma_lit_end(s, j + 1, true);
    }
}

pub proof fn lemma_ref_run(s: Seq<char>, j: int)
    requires
        0 <= j <= s.len(),
    ensures
        j <= ref_run_end(s, j) <= s.len(),
    decreases s.len() - j,
{
    if j < s.len() {
        lemma_ref_run(s, j + 1);
    }
}

/// The text from `i` on with every bare `name(` reference outside string literals
/// replaced by `rep`, and whether one was.
pub open spec fn qualify_from(s: Seq<char>, i: int, name: Seq<char>, rep: Seq<char>) -> (Seq<char>, bool)
    decreases s.len() - i,
{
    if i < 0 || i >= s.len() {
        (seq![], false)
    } else if s[i] == '"' {
        let e = literal_end(s, i);
        proof {
            lemma_lit_end(s, i + 1, false);
        }
        let r = qualify_from(s, e, name, rep);
        (s.subrange(i, e) + r.0, r.1)
    } else {
        match ident_end(s, i) {
            Some(e) => {
                proof {
                    lemma_ref_run(s, i + 1);
                }
                let r = qualify_from(s, e, name, rep);
                let t = s.subrange(i, e);
                if t == name && called_at(s, e) {
                    (rep + r.0, true)
                } else {
                    (t + r.0, r.1)
                }
            },
            None => {
                let r = qualify_from(s, i + 1, name, rep);
                (seq![s[i]] + r.0, r.1)
            },
        }
    }
}

/// An expression with its bare `name(` calls qualified, and whether any was.
pub open spec fn qualified(s: Seq<char>, name: Seq<char>, rep: Seq<char>) -> (Seq<char>, bool) {
    qualify_from(s, 0, name, rep)
}

pub(crate) fn literal_end_exec(s: &[char], start: usize) -> (e: usize)
    requires
        start < s@.len(),
    ensures
        e == literal_end(s@, start as int),
        start < e <= s@.len(),
{
    proof {
        lemma_lit_end(s@, start + 1, false);
    }
    let n = s.len();
    let mut j: usize = start + 1;
    let mut escaped = false;
    while j < s.len()
        invariant
            start < j <= s@.len(),
            lit_end_from(s@, j as int, escaped) == literal_end(s@, start as int),
        decreases s@.len() - j,
    {
        if escaped {
            escaped = false;
        } else if s[j] == '\\' {
            escaped = true;
        } else if s[j] == '"' {
            return j + 1;
        }
        j += 1;
    }
    s.len()
}

fn ref_char(c: char) -> (b: bool)
    ensures
        b == is_ref_char(c),
{
    ascii_alnum(c) || c == '_' || c == '.'
}

fn ref_run_exec(s: &[char], j: usize) -> (e: usize)
    requires
        j <= s@.len(),
    ensures
        e == ref_run_end(s@, j as int),
        j <= e <= s@.len(),
{
    let mut k = j;
    while k < s.len() && ref_char(s[k])
        invariant
            j <= k <= s@.len(),
            ref_run_end(s@, k as int) == ref_run_end(s@, j as int),
        decreases s@.len() - k,
    {
        k += 1;
    }
    k
}

pub(crate) fn ident_end_exec(s: &[char], start: usize) -> (res: Option<usize>)
    requires
        start < s@.len(),
    ensures
        res is None <==> ident_end(s@, start as int) is None,
        res matches Some(e) ==> start < e <= s@.len() && ident_end(s@, start as int) == Some(e as int),
{
    if s[start] == '@' {
        let e = ref_run_exec(s, start + 1);
        if e > start + 1 {
            Some(e)
        } else {
            None
        }
    } else if ascii_alpha(s[start]) || s[start] == '_' {
        Some(ref_run_exec(s, start + 1))
    } else {
        None
    }
}

pub(crate) fn push_range(out: &mut Vec<char>, s: &[char], from: usize, to: usize)
    requires
        from <= to <= s@.len(),
    ensures
        final(out)@ == old(out)@ + s@.subrange(from as int, to as int),
{
    let mut k = from;
    while k < to
        invariant
            from <= k <= to,
            to <= s@.len(),
            out@ == old(out)@ + s@.subrange(from as int, k as int),
        decreases to - k,
    {
        out.push(s[k]);
        assert(s@.subrange(from as int, k + 1) =~= s@.subrange(from as int, k as int).push(s@[k as int]));
        k += 1;
    }
}

/// Qualifies the bare `name(` calls of one expression with `rep`.
pub fn qualify_expression(expression: &String, name: &Vec<char>, rep: &Vec<char>) -> (res: (String, bool))
    ensures
        res.0@ == qualified(expression@, name@, rep@).0,
        res.1 == qualified(expression@, name@, rep@).1,
{
    let s = chars_of(expression.as_str());
    let ghost q = qualify_from(s@, 0, name@, rep@);
    let mut out: Vec<char> = Vec::new();
    let mut changed = false;
    let mut i: usize = 0;
    while i < s.len()
        invariant
            i <= s@.len(),
            out@ + qualify_from(s@, i as int, name@, rep@).0 == q.0,
            (changed || qualify_from(s@, i as int, name@, rep@).1) == q.1,
        decreases s@.len() - i,
    {
        let ghost r = qualify_from(s@, i as int, name@, rep@);
        if s[i] == '"' {
            let e = literal_end_exec(&s, i);
            push_range(&mut out, &s, i, e);
            assert(r.0 == s@.subrange(i as int, e as int) + qualify_from(s@, e as int, name@, rep@).0);
            assert(out@ + qualify_from(s@, e as int, name@, rep@).0 =~= q.0);
            i = e;
        } else {
            match ident_end_exec(&s, i) {
                Some(e) => {
                    let t = crate::text::slice_chars(&s, i, e);
                    let after = skip_ws(&s, e);
                    let call = after < s.len() && s[after] == '(';
                    proof {
                        assert(s@[i as int] != '"');
                        assert(ident_end(s@, i as int) == Some(e as int));
                        assert(call == called_at(s@, e as int));
                        let rr = qualify_from(s@, e as int, name@, rep@);
                        if t@ == name@ && call {
                            assert(r == (rep@ + rr.0, true));
                        } else {
                            assert(r == (s@.subrange(i as int, e as int) + rr.0, rr.1));
                        }
                    }
                    if call && seq_eq(&t, name) {
                        let ghost before = out@;
                        let mut k: usize = 0;
                        while k < rep.len()
                            invariant
                                k <= rep@.len(),
                                out@ == before + rep@.take(k as int),
                            decreases rep@.len() - k,
                        {
                            out.push(rep[k]);
                            assert(rep@.take(k + 1) =~= rep@.take(k as int).push(rep@[k as int]));
                            k += 1;
                        }
                        assert(rep@.take(rep@.len() as int) =~= rep@);
                        changed = true;
                        assert(out@ + qualify_from(s@, e as int, name@, rep@).0 =~= q.0);
                    } else {
                        push_range(&mut out, &s, i, e);
                        assert(out@ + qualify_from(s@, e as int, name@, rep@).0 =~= q.0);
                    }
                    i = e;
                },
                None => {
                    let ghost before = out@;
                    out.push(s[i]);
                    assert(out@ + qualify_from(s@, i + 1, name@, rep@).0 =~= q.0);
                    i += 1;
                },
            }
        }
    }
    (string_of(&out), changed)
}

/// Every line qualified.
pub open spec fn qualified_lines(ls: Seq<Seq<char>>, name: Seq<char>, rep: Seq<char>) -> Seq<Seq<char>> {
    ls.map_values(|l: Seq<char>| qualified(l, name, rep).0)
}

/// Every line but the `forall ...:` headers qualified.
pub open spec fn qualified_property_lines(ls: Seq<Seq<char>>, name: Seq<char>, rep: Seq<char>) -> Seq<
    Seq<char>,
> {
    ls.map_values(|l: Seq<char>| if is_header(l) { l } else { qualified(l, name, rep).0 })
}

/// Some line had a call to qualify.
pub open spec fn lines_changed(ls: Seq<Seq<char>>, name: Seq<char>, rep: Seq<char>) -> bool {
    exists|k: int| 0 <= k < ls.len() && qualified(#[trigger] ls[k], name, rep).1
}

/// Some property line that is no header had a call to qualify.
pub open spec fn property_lines_changed(ls: Seq<Seq<char>>, name: Seq<char>, rep: Seq<char>) -> bool {
    exists|k: int| 0 <= k < ls.len() && !is_header(ls[k]) && qualified(#[trigger] ls[k], name, rep).1
}

/// `g` is `f` with its bare `name(` calls qualified by `rep` in the implementation, the
/// preconditions, the contract clauses, the examples and the property expressions.
pub open spec fn qualified_function(f: Function, g: Function, name: Seq<char>, rep: Seq<char>) -> bool {
    &&& same_function(
        g,
        Function {
            implementation: g.implementation,
            requires: g.requires,
            contracts: g.contracts,
            examples: g.examples,
            properties: g.properties,
            ..f
        },
    )
    &&& match (f.implementation, g.implementation) {
        (Some(a), Some(b)) => b@ == qualified(a@, name, rep).0,
        (None, None) => true,
        _ => false,
    }
    &&& texts(g.requires@) == qualified_lines(texts(f.requires@), name, rep)
    &&& texts(g.contracts@) == qualified_lines(texts(f.contracts@), name, rep)
    &&& texts(g.examples@) == qualified_lines(texts(f.examples@), name, rep)
    &&& texts(g.properties@) == qualified_property_lines(texts(f.properties@), name, rep)
}

/// Whether qualifying the function's expressions changes any.
pub open spec fn function_qualifies(f: Function, name: Seq<char>, rep: Seq<char>) -> bool {
    ||| (f.implementation matches Some(a) && qualified(a@, name, rep).1)
    ||| lines_changed(texts(f.requires@), name, rep)
    ||| lines_changed(texts(f.contracts@), name, rep)
    ||| lines_changed(texts(f.examples@), name, rep)
    ||| property_lines_changed(texts(f.properties@), name, rep)
}

pub(crate) fn header_exec(line: &String) -> (res: bool)
    ensures
        res == is_header(line@),
{
    let t = crate::text::trim_chars(chars_of(line.as_str()).as_slice());
    crate::text::has_prefix_str(&t, "forall ") && crate::text::has_suffix_str(&t, ":")
}

fn qualify_lines(lines: &mut Vec<String>, name: &Vec<char>, rep: &Vec<char>, skip_headers: bool) -> (changed: bool)
    ensures
        !skip_headers ==> texts(final(lines)@) == qualified_lines(texts(old(lines)@), name@, rep@),
        !skip_headers ==> changed == lines_changed(texts(old(lines)@), name@, rep@),
        skip_headers ==> texts(final(lines)@) == qualified_property_lines(texts(old(lines)@), name@, rep@),
        skip_headers ==> changed == property_lines_changed(texts(old(lines)@), name@, rep@),
{
    let ghost ls = texts(lines@);
    let ghost target = if skip_headers {
        qualified_property_lines(ls, name@, rep@)
    } else {
        qualified_lines(ls, name@, rep@)
    };
    let mut changed = false;
    let mut i: usize = 0;
    while i < lines.len()
        invariant
            i <= lines@.len(),
            lines@.len() == ls.len(),
            ls == texts(old(lines)@),
            target == if skip_headers {
                qualified_property_lines(ls, name@, rep@)
            } else {
                qualified_lines(ls, name@, rep@)
            },
            forall|k: int| 0 <= k < i ==> #[trigger] lines@[k]@ == target[k],
            forall|k: int| i <= k < lines@.len() ==> #[trigger] lines@[k]@ == ls[k],
            changed == exists|k: int|
                0 <= k < i && (!skip_headers || !is_header(ls[k])) && qualified(#[trigger] ls[k], name@, rep@).1,
        decreases lines@.len() - i,
    {
        let skip = skip_headers && header_exec(&lines[i]);
        if !skip {
            let (t, c) = qualify_expression(&lines[i], name, rep);
            lines.set(i, t);
            if c {
                changed = true;
            }
        }
        proof {
            if changed {
                if !skip && qualified(ls[i as int], name@, rep@).1 {
                    assert(0 <= i < i + 1 && (!skip_headers || !is_header(ls[i as int])) && qualified(ls[i as int], name@, rep@).1);
                }
            }
        }
        i += 1;
    }
    proof {
        assert(texts(lines@) =~= target);
        if changed {
            let k = choose|k: int|
                0 <= k < lines@.len() && (!skip_headers || !is_header(ls[k])) && qualified(#[trigger] ls[k], name@, rep@).1;
            assert(qualified(ls[k], name@, rep@).1);
        }
        if !skip_headers && lines_changed(ls, name@, rep@) {
            let k = choose|k: int| 0 <= k < ls.len() && qualified(#[trigger] ls[k], name@, rep@).1;
            assert(qualified(ls[k], name@, rep@).1);
        }
        if skip_headers && property_lines_changed(ls, name@, rep@) {
            let k = choose|k: int| 0 <= k < ls.len() && !is_header(ls[k]) && qualified(#[trigger] ls[k], name@, rep@).1;
            assert(qualified(ls[k], name@, rep@).1);
        }
    }
    changed
}

/// Qualifies the bare `name(` calls in every expression of `f` with `rep`, and says
/// whether any was.
pub fn qualify_function(f: &mut Function, name: &Vec<char>, rep: &Vec<char>) -> (changed: bool)
    ensures
        qualified_function(*old(f), *final(f), name@, rep@),
        changed == function_qualifies(*old(f), name@, rep@),
{
    let mut changed = false;
    let imp = match &f.implementation {
        Some(i) => {
            let (t, c) = qualify_expression(i, name, rep);
            changed = c;
            Some(t)
        },
        None => None,
    };
    f.implementation = imp;
    let c1 = qualify_lines(&mut f.requires, name, rep, false);
    let c2 = qualify_lines(&mut f.contracts, name, rep, false);
    let c3 = qualify_lines(&mut f.examples, name, rep, false);
    let c4 = qualify_lines(&mut f.properties, name, rep, true);
    changed || c1 || c2 || c3 || c4
}

// ---------------------------------------------------------------------------
// The qualify edit
// ---------------------------------------------------------------------------
/// What qualifying the bare `name(` calls of `f` with the symbol of `callee_target`
/// decides: the callee's resolution error at `path`; a conflict when the callee's name is
/// not `name`; a refusal when `f` has no such call; the rewritten function otherwise.
pub open spec fn qualify_decision(
    p: Program,
    f: Function,
    name: Seq<char>,
    callee_target: Seq<char>,
    path: Seq<char>,
) -> Decision {
    match target_resolution(p.functions@, callee_target) {
        Err((code, message)) => Decision::Reject(
            code,
            message,
            target_error_data(p.functions@, callee_target),
            path,
            target_error_repairs(p.functions@, callee_target),
        ),
        Ok(sym) => {
            let i = first_symbol(p.functions@, sym, 0);
            if i >= p.functions@.len() {
                Decision::Reject(
                    "PatchTargetNotFound"@,
                    quote("Function `"@, callee_target, "` was not found."@),
                    seq![],
                    path,
                    no_repairs(),
                )
            } else {
                let c = p.functions@[i];
                if c.name@ != name {
                    Decision::Reject(
                        "PatchConflict"@,
                        "Callee `"@ + symbol_text(c) + "` does not match bare call name `"@ + name
                            + "`."@,
                        seq![("callee_name"@, c.name@)],
                        target_text(f.source_path@, f.line as nat, f.name@),
                        prose("Choose a callee whose public name matches the bare call site."@),
                    )
                } else if function_qualifies(f, name, symbol_text(c)) {
                    Decision::Update
                } else {
                    Decision::Reject(
                        "PatchConflict"@,
                        "Function `"@ + f.name@ + "` has no bare `"@ + name + "(...)` calls to qualify."@,
                        seq![],
                        target_text(f.source_path@, f.line as nat, f.name@),
                        prose("Run `bin/serow check --json` to inspect current call diagnostics."@),
                    )
                }
            }
        },
    }
}

/// The symbol that the callee target resolves to, when it does.
pub open spec fn qualify_callee(p: Program, callee_target: Seq<char>) -> Function {
    p.functions@[first_symbol(p.functions@, target_resolution(p.functions@, callee_target)->Ok_0, 0)]
}

/// `g` is what qualifying `f` makes of it.
pub open spec fn qualify_applied(p: Program, f: Function, g: Function, name: Seq<char>, callee_target: Seq<char>) -> bool {
    qualified_function(f, g, name, symbol_text(qualify_callee(p, callee_target)))
}

/// Qualifies the bare `name(` calls of `f` with the full symbol of `callee_target`.
pub fn apply_qualify_edit(
    name: &String,
    callee_target: &String,
    path: &String,
    program: &Program,
    f: &mut Function,
) -> (res: Result<bool, Diagnostic>)
    ensures
        match qualify_decision(*program, *old(f), name@, callee_target@, path@) {
            Decision::Keep => res == Ok::<bool, Diagnostic>(false),
            Decision::Update => res == Ok::<bool, Diagnostic>(true) && qualify_applied(
                *program,
                *old(f),
                *final(f),
                name@,
                callee_target@,
            ),
            r => res is Err && reports_rejection(res->Err_0, r),
        },
{
    let sym = match resolve_patch_target(program, callee_target.as_str(), path.as_str()) {
        Ok(s) => s,
        Err(d) => {
            return Err(d);
        },
    };
    let i = find_symbol(&program.functions, &sym);
    if i >= program.functions.len() {
        let mut m = owned("Function `");
        m.append(callee_target.as_str());
        m.append("` was not found.");
        let d = Diagnostic::error("PatchTargetNotFound", m.as_str(), Some(path.clone()));
        assert(data_texts(d) =~= Seq::<(Seq<char>, Seq<char>)>::empty());
        return Err(d);
    }
    let c = &program.functions[i];
    let csym = c.symbol();
    if !crate::text::str_eq(c.name.as_str(), name.as_str()) {
        let mut m = owned("Callee `");
        m.append(csym.as_str());
        m.append("` does not match bare call name `");
        m.append(name.as_str());
        m.append("`.");
        let d = Diagnostic::error("PatchConflict", m.as_str(), Some(f.target()))
            .with_data("callee_name", c.name.as_str())
            .with_repair("Choose a callee whose public name matches the bare call site.");
        assert(data_texts(d) =~= seq![("callee_name"@, c.name@)]);
        return Err(d);
    }
    let name_chars = chars_of(name.as_str());
    let rep = chars_of(csym.as_str());
    let ghost f0 = *f;
    let changed = qualify_function(f, &name_chars, &rep);
    if changed {
        return Ok(true);
    }
    let mut m = owned("Function `");
    m.append(f.name.as_str());
    m.append("` has no bare `");
    m.append(name.as_str());
    m.append("(...)` calls to qualify.");
    let d = Diagnostic::error("PatchConflict", m.as_str(), Some(f.target()))
        .with_repair("Run `bin/serow check --json` to inspect current call diagnostics.");
    assert(data_texts(d) =~= Seq::<(Seq<char>, Seq<char>)>::empty());
    Err(d)
}

} // verus!
