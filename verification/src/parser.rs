//! The Serow source parser: modules, `use` lines, type declarations and functions.
use vstd::prelude::*;
use vstd::string::*;

use crate::diagnostic::{Diagnostic, Severity};
use crate::model::{join2, Function, MigrationRecord, ModuleDependency, Param, Program, RecordField, TypeDecl};
use crate::text::{
    append_chars, chars_of, decimal, ends_with, find_char, find_from, has_prefix_str,
    has_suffix_str, is_digit, lemma_find_from, lines_spec, lemma_rfind_before, owned, rfind_before,
    rfind_char, slice_chars, split_chars, split_spec, starts_with, string_of, trim, trim_chars,
    usize_text, views,
};
use crate::types::{is_ident, is_valid_ident, is_valid_type_name, split_commas, split_top_level_commas, valid_type};

verus! {

// ---------------------------------------------------------------------------
// Lexical helpers
// ---------------------------------------------------------------------------
/// Where a line's comment starts: the first `#` outside a string literal, or the end.
pub open spec fn comment_cut(s: Seq<char>, i: int, in_string: bool, escaped: bool) -> int
    decreases s.len() - i,
{
    if i < 0 || i >= s.len() {
        s.len() as int
    } else if escaped {
        comment_cut(s, i + 1, in_string, false)
    } else if s[i] == '\\' && in_string {
        comment_cut(s, i + 1, in_string, true)
    } else if s[i] == '"' {
        comment_cut(s, i + 1, !in_string, false)
    } else if s[i] == '#' && !in_string {
        i
    } else {
        comment_cut(s, i + 1, in_string, false)
    }
}

pub proof fn lemma_comment_cut(s: Seq<char>, i: int, in_string: bool, escaped: bool)
    requires
        0 <= i <= s.len(),
    ensures
        i <= comment_cut(s, i, in_string, escaped) <= s.len(),
    decreases s.len() - i,
{
    if i < s.len() {
        if escaped {
            lemma_comment_cut(s, i + 1, in_string, false);
        } else if s[i] == '\\' && in_string {
            lemma_comment_cut(s, i + 1, in_string, true);
        } else if s[i] == '"' {
            lemma_comment_cut(s, i + 1, !in_string, false);
        } else if !(s[i] == '#' && !in_string) {
            lemma_comment_cut(s, i + 1, in_string, false);
        }
    }
}

/// A line without its trailing `#` comment.
pub open spec fn uncommented(s: Seq<char>) -> Seq<char> {
    s.take(comment_cut(s, 0, false, false))
}

/// Drops a `#` comment, keeping `#` inside string literals.
pub fn without_comment(line: &[char]) -> (res: Vec<char>)
    ensures
        res@ == uncommented(line@),
{
    proof {
        lemma_comment_cut(line@, 0, false, false);
    }
    let mut in_string = false;
    let mut escaped = false;
    let mut i: usize = 0;
    while i < line.len()
        invariant
            i <= line@.len(),
            comment_cut(line@, i as int, in_string, escaped) == comment_cut(line@, 0, false, false),
        decreases line@.len() - i,
    {
        let c = line[i];
        if escaped {
            escaped = false;
        } else if c == '\\' && in_string {
            escaped = true;
        } else if c == '"' {
            in_string = !in_string;
        } else if c == '#' && !in_string {
            return slice_chars(line, 0, i);
        }
        i += 1;
    }
    slice_chars(line, 0, line.len())
}

/// A dotted module name: identifiers separated by single dots.
pub open spec fn valid_module(s: Seq<char>) -> bool {
    &&& s.len() > 0
    &&& forall|k: int| 0 <= k < split_spec(s, '.').len() ==> is_ident(#[trigger] split_spec(s, '.')[k])
}

pub fn is_valid_module(name: &[char]) -> (res: bool)
    ensures
        res == valid_module(name@),
{
    if name.len() == 0 {
        return false;
    }
    let parts = split_chars(name, '.');
    let mut k: usize = 0;
    while k < parts.len()
        invariant
            k <= parts@.len(),
            parts@.len() == split_spec(name@, '.').len(),
            forall|j: int| 0 <= j < parts@.len() ==> #[trigger] parts@[j]@ == split_spec(name@, '.')[j],
            forall|j: int| 0 <= j < k ==> is_ident(#[trigger] split_spec(name@, '.')[j]),
        decreases parts@.len() - k,
    {
        if !is_valid_ident(&parts[k]) {
            assert(!is_ident(split_spec(name@, '.')[k as int]));
            return false;
        }
        k += 1;
    }
    true
}

/// A version such as `v1`.
pub open spec fn valid_version(v: Seq<char>) -> bool {
    crate::eval::valid_version(v)
}

/// The body of a double-quoted string from index `i`, with `\"` and `\\` unescaped and
/// other backslashes kept; defined only when the closing quote ends the text.
pub open spec fn unquote_from(s: Seq<char>, i: int, acc: Seq<char>) -> Option<Seq<char>>
    decreases s.len() - i,
{
    if i < 0 || i >= s.len() {
        None
    } else if s[i] == '\\' {
        if i + 1 >= s.len() {
            None
        } else if s[i + 1] == '"' {
            unquote_from(s, i + 2, acc.push('"'))
        } else if s[i + 1] == '\\' {
            unquote_from(s, i + 2, acc.push('\\'))
        } else {
            unquote_from(s, i + 2, acc.push('\\').push(s[i + 1]))
        }
    } else if s[i] == '"' {
        if i + 1 == s.len() {
            Some(acc)
        } else {
            None
        }
    } else {
        unquote_from(s, i + 1, acc.push(s[i]))
    }
}

/// A string literal that makes up the whole (trimmed) text.
pub open spec fn quoted(text: Seq<char>) -> Option<Seq<char>> {
    let t = trim(text);
    if t.len() > 0 && t[0] == '"' {
        unquote_from(t, 1, seq![])
    } else {
        None
    }
}

/// Reads a whole-text string literal.
pub fn parse_quoted_string(text: &[char]) -> (res: Option<Vec<char>>)
    ensures
        match res {
            Some(v) => quoted(text@) == Some(v@),
            None => quoted(text@) is None,
        },
{
    let t = trim_chars(text);
    if t.len() == 0 || t[0] != '"' {
        return None;
    }
    let mut value: Vec<char> = Vec::new();
    let mut i: usize = 1;
    while i < t.len()
        invariant
            1 <= i <= t@.len(),
            t@ == trim(text@),
            t@.len() > 0 && t@[0] == '"',
            unquote_from(t@, i as int, value@) == quoted(text@),
        decreases t@.len() - i,
    {
        let c = t[i];
        if c == '\\' {
            if i + 1 >= t.len() {
                return None;
            }
            let e = t[i + 1];
            if e == '"' {
                value.push('"');
            } else if e == '\\' {
                value.push('\\');
            } else {
                value.push('\\');
                value.push(e);
            }
            i += 2;
        } else if c == '"' {
            if i + 1 == t.len() {
                return Some(value);
            }
            return None;
        } else {
            value.push(c);
            i += 1;
        }
    }
    None
}

/// `intent "..."`
pub open spec fn intent_of(content: Seq<char>) -> Option<Seq<char>> {
    if starts_with(content, "intent "@) {
        quoted(content.skip(7))
    } else {
        None
    }
}

pub fn parse_intent(content: &[char]) -> (res: Option<Vec<char>>)
    ensures
        match res {
            Some(v) => intent_of(content@) == Some(v@),
            None => intent_of(content@) is None,
        },
{
    if !has_prefix_str(content, "intent ") {
        return None;
    }
    proof {
        reveal_strlit("intent ");
    }
    let rest = slice_chars(content, 7, content.len());
    parse_quoted_string(&rest)
}

/// The non-empty trimmed pieces, in order.
pub open spec fn nonempty_trimmed(parts: Seq<Seq<char>>) -> Seq<Seq<char>>
    decreases parts.len(),
{
    if parts.len() == 0 {
        seq![]
    } else if trim(parts.last()).len() == 0 {
        nonempty_trimmed(parts.drop_last())
    } else {
        nonempty_trimmed(parts.drop_last()).push(trim(parts.last()))
    }
}

/// The effects a declaration lists: `pure`, `[a, b]`, or a single name.
pub open spec fn effects_of(text: Seq<char>) -> Seq<Seq<char>> {
    if text == "pure"@ {
        seq!["pure"@]
    } else if starts_with(text, "["@) && ends_with(text, "]"@) && text.len() >= 2 {
        nonempty_trimmed(split_spec(text.subrange(1, text.len() - 1), ','))
    } else {
        seq![text]
    }
}

pub fn parse_effects(text: &[char]) -> (res: Vec<String>)
    ensures
        res@.map_values(|s: String| s@) == effects_of(text@),
{
    let t = string_of(text);
    if str_is(&t, "pure") {
        let mut v: Vec<String> = Vec::new();
        v.push(owned("pure"));
        assert(v@.map_values(|s: String| s@) =~= effects_of(text@));
        return v;
    }
    if has_prefix_str(text, "[") && has_suffix_str(text, "]") && text.len() >= 2 {
        let inner = slice_chars(text, 1, text.len() - 1);
        let parts = split_chars(&inner, ',');
        let ghost ps = split_spec(inner@, ',');
        let mut v: Vec<String> = Vec::new();
        let mut k: usize = 0;
        assert(v@.map_values(|s: String| s@) =~= Seq::<Seq<char>>::empty());
        while k < parts.len()
            invariant
                k <= parts@.len(),
                ps == split_spec(inner@, ','),
                parts@.len() == ps.len(),
                forall|j: int| 0 <= j < parts@.len() ==> #[trigger] parts@[j]@ == ps[j],
                v@.map_values(|s: String| s@) == nonempty_trimmed(ps.take(k as int)),
            decreases parts@.len() - k,
        {
            let p = trim_chars(&parts[k]);
            proof {
                assert(ps.take(k + 1).drop_last() =~= ps.take(k as int));
            }
            if p.len() > 0 {
                let ghost before = v@.map_values(|s: String| s@);
                v.push(string_of(&p));
                assert(v@.map_values(|s: String| s@) =~= before.push(p@));
            }
            k += 1;
        }
        assert(ps.take(parts@.len() as int) =~= ps);
        return v;
    }
    let mut v: Vec<String> = Vec::new();
    v.push(t);
    assert(v@.map_values(|s: String| s@) =~= effects_of(text@));
    v
}

/// Whether a string holds exactly the given text.
pub fn str_is(s: &String, lit: &str) -> (res: bool)
    ensures
        res == (s@ == lit@),
{
    crate::text::str_eq(s.as_str(), lit)
}

/// `kind "note"`, split at the first space; both parts non-empty.
pub open spec fn migration_of(content: Seq<char>) -> Option<(Seq<char>, Seq<char>)> {
    let i = find_from(content, ' ', 0);
    if i >= content.len() {
        None
    } else {
        let kind = trim(content.take(i));
        let note = trim(content.skip(i + 1));
        if kind.len() == 0 {
            None
        } else {
            match quoted(note) {
                None => None,
                Some(n) => if trim(n).len() == 0 {
                    None
                } else {
                    Some((kind, trim(n)))
                },
            }
        }
    }
}

pub fn parse_migration_record(content: &[char]) -> (res: Option<(Vec<char>, Vec<char>)>)
    ensures
        match res {
            Some((k, n)) => migration_of(content@) == Some((k@, n@)),
            None => migration_of(content@) is None,
        },
{
    let i = find_char(content, ' ', 0);
    if i >= content.len() {
        return None;
    }
    let kind = trim_chars(&slice_chars(content, 0, i));
    let note = trim_chars(&slice_chars(content, i + 1, content.len()));
    proof {
        assert(content@.subrange(0, i as int) == content@.take(i as int));
        assert(content@.subrange(i + 1, content@.len() as int) == content@.skip(i + 1));
    }
    if kind.len() == 0 {
        return None;
    }
    match parse_quoted_string(&note) {
        None => None,
        Some(n) => {
            let n = trim_chars(&n);
            if n.len() == 0 {
                None
            } else {
                Some((kind, n))
            }
        },
    }
}

// ---------------------------------------------------------------------------
// Function headers
// ---------------------------------------------------------------------------
pub struct FunctionHeader {
    pub public: bool,
    pub name: String,
    pub params: String,
    pub return_type: String,
}

/// `pub fn name(params) -> Type` or `fn name(params) -> Type`: visibility, name, the raw
/// parameter text and the return type.
pub open spec fn header_of(line: Seq<char>) -> Option<(bool, Seq<char>, Seq<char>, Seq<char>)> {
    let (public, rest) = if starts_with(line, "pub fn "@) {
        (true, line.skip(7))
    } else {
        (false, line.skip(3))
    };
    if !starts_with(line, "pub fn "@) && !starts_with(line, "fn "@) {
        None
    } else {
        let open = find_from(rest, '(', 0);
        let close = rfind_before(rest, ')', rest.len() as int);
        if open >= rest.len() || close < 0 || close < open {
            None
        } else {
            let name = trim(rest.take(open));
            let after = trim(rest.skip(close + 1));
            if !is_ident(name) || !starts_with(after, "->"@) {
                None
            } else {
                let ret = trim(after.skip(2));
                if ret.len() == 0 {
                    None
                } else {
                    Some((public, name, rest.subrange(open + 1, close), ret))
                }
            }
        }
    }
}

pub fn parse_function_header(line: &[char]) -> (res: Option<FunctionHeader>)
    ensures
        match (res, header_of(line@)) {
            (Some(h), Some((p, n, ps, r))) => h.public == p && h.name@ == n && h.params@ == ps
                && h.return_type@ == r,
            (None, None) => true,
            _ => false,
        },
{
    proof {
        reveal_strlit("pub fn ");
        reveal_strlit("fn ");
        reveal_strlit("->");
    }
    let (public, rest) = if has_prefix_str(line, "pub fn ") {
        (true, slice_chars(line, 7, line.len()))
    } else if has_prefix_str(line, "fn ") {
        (false, slice_chars(line, 3, line.len()))
    } else {
        return None;
    };
    let open = find_char(&rest, '(', 0);
    if open >= rest.len() {
        return None;
    }
    let close = match rfind_char(&rest, ')') {
        Some(c) => c,
        None => {
            return None;
        },
    };
    proof {
        lemma_rfind_before(rest@, ')', rest@.len() as int);
    }
    if close < open {
        return None;
    }
    let name = trim_chars(&slice_chars(&rest, 0, open));
    proof {
        assert(rest@.subrange(0, open as int) == rest@.take(open as int));
    }
    if !is_valid_ident(&name) {
        return None;
    }
    let after = trim_chars(&slice_chars(&rest, close + 1, rest.len()));
    proof {
        assert(rest@.subrange(close + 1, rest@.len() as int) == rest@.skip(close + 1));
    }
    if !has_prefix_str(&after, "->") {
        return None;
    }
    let ret = trim_chars(&slice_chars(&after, 2, after.len()));
    proof {
        assert(after@.subrange(2, after@.len() as int) == after@.skip(2));
    }
    if ret.len() == 0 {
        return None;
    }
    let params = slice_chars(&rest, open + 1, close);
    Some(
        FunctionHeader {
            public,
            name: string_of(&name),
            params: string_of(&params),
            return_type: string_of(&ret),
        },
    )
}


// ---------------------------------------------------------------------------
// Diagnostics with source locations
// ---------------------------------------------------------------------------
/// `path:line`
pub open spec fn loc(path: Seq<char>, line: int) -> Seq<char> {
    join2(path, ':', decimal(line as nat))
}

/// `d` is an error with the given code and message at `target`.
pub open spec fn reports(d: Diagnostic, code: Seq<char>, message: Seq<char>, target: Seq<char>) -> bool {
    &&& d.severity == Severity::Error
    &&& d.code@ == code
    &&& d.message@ == message
    &&& d.target is Some
    &&& d.target->0@ == target
}

/// Every diagnostic reports the (code, message, line) at the same index, at `path:line`.
pub open spec fn reports_all(ds: Seq<Diagnostic>, spec: Seq<(Seq<char>, Seq<char>, int)>, path: Seq<char>) -> bool {
    &&& ds.len() == spec.len()
    &&& forall|k: int|
        0 <= k < ds.len() ==> reports(
            #[trigger] ds[k],
            spec[k].0,
            spec[k].1,
            loc(path, spec[k].2),
        )
}

pub fn loc_string(path: &String, line: usize) -> (res: String)
    ensures
        res@ == loc(path@, line as int),
{
    let mut out = path.clone();
    crate::text::push_char(&mut out, ':');
    let n = usize_text(line);
    out.append(n.as_str());
    out
}

/// `a`, then `b`, then `c`.
pub fn text3(a: &str, b: &[char], c: &str) -> (res: String)
    ensures
        res@ == a@ + b@ + c@,
{
    let mut out = owned(a);
    append_chars(&mut out, b);
    out.append(c);
    out
}

fn error_at(code: &str, message: String, path: &String, line: usize) -> (d: Diagnostic)
    ensures
        reports(d, code@, message@, loc(path@, line as int)),
{
    Diagnostic::error(code, message.as_str(), Some(loc_string(path, line)))
}

proof fn lemma_reports_push(
    ds: Seq<Diagnostic>,
    spec: Seq<(Seq<char>, Seq<char>, int)>,
    path: Seq<char>,
    d: Diagnostic,
    e: (Seq<char>, Seq<char>, int),
)
    requires
        reports_all(ds, spec, path),
        reports(d, e.0, e.1, loc(path, e.2)),
    ensures
        reports_all(ds.push(d), spec.push(e), path),
{
    assert forall|k: int| 0 <= k < ds.push(d).len() implies reports(
        #[trigger] ds.push(d)[k],
        spec.push(e)[k].0,
        spec.push(e)[k].1,
        loc(path, spec.push(e)[k].2),
    ) by {
        if k < ds.len() {
            assert(ds.push(d)[k] == ds[k]);
            assert(spec.push(e)[k] == spec[k]);
        }
    }
}

// ---------------------------------------------------------------------------
// Parameters
// ---------------------------------------------------------------------------
pub open spec fn param_names(ps: Seq<(Seq<char>, Seq<char>)>) -> Seq<Seq<char>> {
    ps.map_values(|p: (Seq<char>, Seq<char>)| p.0)
}

/// Parameters and (code, message) problems from parameter pieces, in order.
pub open spec fn param_fold(parts: Seq<Seq<char>>) -> (Seq<(Seq<char>, Seq<char>)>, Seq<(Seq<char>, Seq<char>)>)
    decreases parts.len(),
{
    if parts.len() == 0 {
        (seq![], seq![])
    } else {
        let (ps, ds) = param_fold(parts.drop_last());
        let part = trim(parts.last());
        let i = find_from(part, ':', 0);
        if i >= part.len() {
            (ps, ds.push(("ParseError"@, "Invalid parameter syntax `"@ + part + "`."@)))
        } else {
            let name = trim(part.take(i));
            let ty = trim(part.skip(i + 1));
            if !is_ident(name) {
                (ps, ds.push(("ParseError"@, "Invalid parameter name `"@ + name + "`."@)))
            } else if !valid_type(ty) {
                (ps, ds.push(("ParseError"@, "Invalid parameter type `"@ + ty + "`."@)))
            } else if param_names(ps).contains(name) {
                (
                    ps,
                    ds.push(
                        (
                            "DuplicateParameter"@,
                            "Function parameter `"@ + name + "` is declared more than once."@,
                        ),
                    ),
                )
            } else {
                (ps.push((name, ty)), ds)
            }
        }
    }
}

/// The parameters of a parameter list and its problems.
pub open spec fn params_of(text: Seq<char>) -> (Seq<(Seq<char>, Seq<char>)>, Seq<(Seq<char>, Seq<char>)>) {
    if trim(text).len() == 0 {
        (seq![], seq![])
    } else {
        param_fold(split_commas(text))
    }
}

pub open spec fn param_views(ps: Seq<Param>) -> Seq<(Seq<char>, Seq<char>)> {
    ps.map_values(|p: Param| (p.name@, p.type_text@))
}

/// The problems as diagnostics at one line.
pub open spec fn at_line(ds: Seq<(Seq<char>, Seq<char>)>, line: int) -> Seq<(Seq<char>, Seq<char>, int)> {
    ds.map_values(|d: (Seq<char>, Seq<char>)| (d.0, d.1, line))
}

fn has_param(params: &Vec<Param>, name: &Vec<char>) -> (res: bool)
    ensures
        res == param_names(param_views(params@)).contains(name@),
{
    let mut i: usize = 0;
    while i < params.len()
        invariant
            i <= params@.len(),
            forall|k: int| 0 <= k < i ==> #[trigger] params@[k].name@ != name@,
        decreases params@.len() - i,
    {
        let n = chars_of(params[i].name.as_str());
        if crate::text::seq_eq(&n, name) {
            assert(param_names(param_views(params@))[i as int] == name@);
            return true;
        }
        i += 1;
    }
    proof {
        if param_names(param_views(params@)).contains(name@) {
            let k = choose|k: int| 0 <= k < param_names(param_views(params@)).len() && param_names(param_views(params@))[k] == name@;
            assert(params@[k].name@ == name@);
        }
    }
    false
}

/// Parses `name: Type, ...` into parameters, reporting malformed and repeated ones.
pub fn parse_params(text: &[char], path: &String, line: usize) -> (res: (Vec<Param>, Vec<Diagnostic>))
    ensures
        param_views(res.0@) == params_of(text@).0,
        reports_all(res.1@, at_line(params_of(text@).1, line as int), path@),
{
    let mut params: Vec<Param> = Vec::new();
    let mut diagnostics: Vec<Diagnostic> = Vec::new();
    let t = trim_chars(text);
    if t.len() == 0 {
        assert(param_views(params@) =~= Seq::<(Seq<char>, Seq<char>)>::empty());
        assert(at_line(params_of(text@).1, line as int) =~= Seq::<(Seq<char>, Seq<char>, int)>::empty());
        return (params, diagnostics);
    }
    let parts = split_top_level_commas(text);
    let ghost ps = split_commas(text@);
    let mut k: usize = 0;
    assert(param_views(params@) =~= Seq::<(Seq<char>, Seq<char>)>::empty());
    assert(at_line(param_fold(ps.take(0)).1, line as int) =~= Seq::<(Seq<char>, Seq<char>, int)>::empty());
    while k < parts.len()
        invariant
            k <= parts@.len(),
            ps == split_commas(text@),
            views(parts@) == ps,
            param_views(params@) == param_fold(ps.take(k as int)).0,
            reports_all(diagnostics@, at_line(param_fold(ps.take(k as int)).1, line as int), path@),
        decreases parts@.len() - k,
    {
        proof {
            assert(ps.take(k + 1).drop_last() =~= ps.take(k as int));
            assert(parts@[k as int]@ == ps[k as int]);
        }
        let ghost prev = param_fold(ps.take(k as int));
        let part = trim_chars(&parts[k]);
        let i = find_char(&part, ':', 0);
        if i >= part.len() {
            let d = error_at("ParseError", text3("Invalid parameter syntax `", &part, "`."), path, line);
            proof {
                lemma_reports_push(diagnostics@, at_line(prev.1, line as int), path@, d, ("ParseError"@, "Invalid parameter syntax `"@ + part@ + "`."@, line as int));
                assert(at_line(prev.1, line as int).push(("ParseError"@, "Invalid parameter syntax `"@ + part@ + "`."@, line as int)) =~= at_line(param_fold(ps.take(k + 1)).1, line as int));
            }
            diagnostics.push(d);
        } else {
            let name = trim_chars(&slice_chars(&part, 0, i));
            let ty = trim_chars(&slice_chars(&part, i + 1, part.len()));
            proof {
                assert(part@.subrange(0, i as int) == part@.take(i as int));
                assert(part@.subrange(i + 1, part@.len() as int) == part@.skip(i + 1));
            }
            if !is_valid_ident(&name) {
                let d = error_at("ParseError", text3("Invalid parameter name `", &name, "`."), path, line);
                proof {
                    let e = ("ParseError"@, "Invalid parameter name `"@ + name@ + "`."@, line as int);
                    lemma_reports_push(diagnostics@, at_line(prev.1, line as int), path@, d, e);
                    assert(at_line(prev.1, line as int).push(e) =~= at_line(param_fold(ps.take(k + 1)).1, line as int));
                }
                diagnostics.push(d);
            } else if !is_valid_type_name(&ty) {
                let d = error_at("ParseError", text3("Invalid parameter type `", &ty, "`."), path, line);
                proof {
                    let e = ("ParseError"@, "Invalid parameter type `"@ + ty@ + "`."@, line as int);
                    lemma_reports_push(diagnostics@, at_line(prev.1, line as int), path@, d, e);
                    assert(at_line(prev.1, line as int).push(e) =~= at_line(param_fold(ps.take(k + 1)).1, line as int));
                }
                diagnostics.push(d);
            } else if has_param(&params, &name) {
                let d = error_at("DuplicateParameter", text3("Function parameter `", &name, "` is declared more than once."), path, line);
                proof {
                    let e = ("DuplicateParameter"@, "Function parameter `"@ + name@ + "` is declared more than once."@, line as int);
                    lemma_reports_push(diagnostics@, at_line(prev.1, line as int), path@, d, e);
                    assert(at_line(prev.1, line as int).push(e) =~= at_line(param_fold(ps.take(k + 1)).1, line as int));
                }
                diagnostics.push(d);
            } else {
                let ghost before = param_views(params@);
                params.push(Param { name: string_of(&name), type_text: string_of(&ty) });
                assert(param_views(params@) =~= before.push((name@, ty@)));
            }
        }
        k += 1;
    }
    assert(ps.take(parts@.len() as int) =~= ps);
    (params, diagnostics)
}

// ---------------------------------------------------------------------------
// Type declarations
// ---------------------------------------------------------------------------
/// Record fields from field pieces starting at piece `k`, or the first problem.
pub open spec fn fields_from(parts: Seq<Seq<char>>, k: int, acc: Seq<(Seq<char>, Seq<char>)>) -> Result<Seq<(Seq<char>, Seq<char>)>, Seq<char>>
    decreases parts.len() - k,
{
    if k < 0 || k >= parts.len() {
        Ok(acc)
    } else {
        let field = trim(parts[k]);
        let i = find_from(field, ':', 0);
        if i >= field.len() {
            Err("Invalid record field syntax `"@ + field + "`."@)
        } else {
            let name = trim(field.take(i));
            let ty = trim(field.skip(i + 1));
            if !is_ident(name) {
                Err("Invalid record field name `"@ + name + "`."@)
            } else if !valid_type(ty) {
                Err("Invalid record field type `"@ + ty + "`."@)
            } else {
                fields_from(parts, k + 1, acc.push((name, ty)))
            }
        }
    }
}

/// Enum variants from `|`-separated pieces starting at piece `k`, or the first problem.
pub open spec fn variants_from(parts: Seq<Seq<char>>, k: int, acc: Seq<Seq<char>>) -> Result<Seq<Seq<char>>, Seq<char>>
    decreases parts.len() - k,
{
    if k < 0 || k >= parts.len() {
        Ok(acc)
    } else {
        let v = trim(parts[k]);
        if !is_ident(v) {
            Err("Invalid enum variant name `"@ + v + "`."@)
        } else {
            variants_from(parts, k + 1, acc.push(v))
        }
    }
}

/// A type declaration line: `None` when it does not start with `type `, else its name,
/// fields and variants, or the problem found.
pub open spec fn type_decl_of(stripped: Seq<char>) -> Option<Result<(Seq<char>, Seq<(Seq<char>, Seq<char>)>, Seq<Seq<char>>), Seq<char>>> {
    if !starts_with(stripped, "type "@) {
        None
    } else {
        let rest = stripped.skip(5);
        let eq = find_from(rest, '=', 0);
        if eq >= rest.len() {
            Some(Err("Invalid type declaration `"@ + stripped + "`."@))
        } else {
            let name = trim(rest.take(eq));
            let body = trim(rest.skip(eq + 1));
            if !is_ident(name) {
                Some(Err("Invalid type name `"@ + name + "`."@))
            } else if !starts_with(body, "{"@) {
                if body.len() == 0 {
                    Some(Err("Enum type `"@ + name + "` must declare at least one variant."@))
                } else {
                    match variants_from(split_spec(body, '|'), 0, seq![]) {
                        Ok(vs) => Some(Ok((name, seq![], vs))),
                        Err(m) => Some(Err(m)),
                    }
                }
            } else if !(ends_with(body, "}"@) && body.len() >= 2) {
                Some(Err("Type `"@ + name + "` must be a record literal shape or enum variant list."@))
            } else {
                let fields_text = body.subrange(1, body.len() - 1);
                if trim(fields_text).len() == 0 {
                    Some(Ok((name, seq![], seq![])))
                } else {
                    match fields_from(split_commas(fields_text), 0, seq![]) {
                        Ok(fs) => Some(Ok((name, fs, seq![]))),
                        Err(m) => Some(Err(m)),
                    }
                }
            }
        }
    }
}

pub open spec fn field_views(fs: Seq<RecordField>) -> Seq<(Seq<char>, Seq<char>)> {
    fs.map_values(|f: RecordField| (f.name@, f.type_text@))
}

pub open spec fn string_views(v: Seq<String>) -> Seq<Seq<char>> {
    v.map_values(|s: String| s@)
}

/// The declaration built from a parsed type line.
pub open spec fn decl_is(t: TypeDecl, d: (Seq<char>, Seq<(Seq<char>, Seq<char>)>, Seq<Seq<char>>), path: Seq<char>, module: Seq<char>, line: usize) -> bool {
    &&& t.name@ == d.0
    &&& t.module@ == module
    &&& t.source_path@ == path
    &&& t.line == line
    &&& field_views(t.fields@) == d.1
    &&& string_views(t.variants@) == d.2
}

fn parse_enum_decl(path: &String, module: &String, line: usize, name: &Vec<char>, body: &Vec<char>) -> (res: Result<TypeDecl, Diagnostic>)
    requires
        body@.len() > 0,
    ensures
        match (res, variants_from(split_spec(body@, '|'), 0, seq![])) {
            (Ok(t), Ok(vs)) => decl_is(t, (name@, seq![], vs), path@, module@, line),
            (Err(d), Err(m)) => reports(d, "ParseError"@, m, loc(path@, line as int)),
            _ => false,
        },
{
    let parts = split_chars(body, '|');
    let ghost ps = split_spec(body@, '|');
    let mut variants: Vec<String> = Vec::new();
    let mut k: usize = 0;
    assert(string_views(variants@) =~= Seq::<Seq<char>>::empty());
    while k < parts.len()
        invariant
            k <= parts@.len(),
            ps == split_spec(body@, '|'),
            parts@.len() == ps.len(),
            forall|j: int| 0 <= j < parts@.len() ==> #[trigger] parts@[j]@ == ps[j],
            variants_from(ps, 0, seq![]) == variants_from(ps, k as int, string_views(variants@)),
        decreases parts@.len() - k,
    {
        let v = trim_chars(&parts[k]);
        if !is_valid_ident(&v) {
            return Err(error_at("ParseError", text3("Invalid enum variant name `", &v, "`."), path, line));
        }
        let ghost before = string_views(variants@);
        variants.push(string_of(&v));
        assert(string_views(variants@) =~= before.push(v@));
        k += 1;
    }
    let t = TypeDecl {
        name: string_of(name),
        module: module.clone(),
        source_path: path.clone(),
        line,
        fields: Vec::new(),
        variants,
    };
    assert(field_views(t.fields@) =~= Seq::<(Seq<char>, Seq<char>)>::empty());
    Ok(t)
}

fn parse_fields(path: &String, line: usize, fields_text: &Vec<char>) -> (res: Result<Vec<RecordField>, Diagnostic>)
    ensures
        match (res, fields_from(split_commas(fields_text@), 0, seq![])) {
            (Ok(fs), Ok(sfs)) => field_views(fs@) == sfs,
            (Err(d), Err(m)) => reports(d, "ParseError"@, m, loc(path@, line as int)),
            _ => false,
        },
{
    let parts = split_top_level_commas(fields_text);
    let ghost ps = split_commas(fields_text@);
    let mut fields: Vec<RecordField> = Vec::new();
    let mut k: usize = 0;
    assert(field_views(fields@) =~= Seq::<(Seq<char>, Seq<char>)>::empty());
    while k < parts.len()
        invariant
            k <= parts@.len(),
            ps == split_commas(fields_text@),
            views(parts@) == ps,
            fields_from(ps, 0, seq![]) == fields_from(ps, k as int, field_views(fields@)),
        decreases parts@.len() - k,
    {
        proof {
            assert(parts@[k as int]@ == ps[k as int]);
        }
        let field = trim_chars(&parts[k]);
        let i = find_char(&field, ':', 0);
        if i >= field.len() {
            return Err(error_at("ParseError", text3("Invalid record field syntax `", &field, "`."), path, line));
        }
        let name = trim_chars(&slice_chars(&field, 0, i));
        let ty = trim_chars(&slice_chars(&field, i + 1, field.len()));
        proof {
            assert(field@.subrange(0, i as int) == field@.take(i as int));
            assert(field@.subrange(i + 1, field@.len() as int) == field@.skip(i + 1));
        }
        if !is_valid_ident(&name) {
            return Err(error_at("ParseError", text3("Invalid record field name `", &name, "`."), path, line));
        }
        if !is_valid_type_name(&ty) {
            return Err(error_at("ParseError", text3("Invalid record field type `", &ty, "`."), path, line));
        }
        let ghost before = field_views(fields@);
        fields.push(RecordField { name: string_of(&name), type_text: string_of(&ty) });
        assert(field_views(fields@) =~= before.push((name@, ty@)));
        k += 1;
    }
    Ok(fields)
}

/// Parses a `type Name = { field: Type }` or `type Name = A | B` line.
pub fn parse_type_decl(path: &String, module: &String, line: usize, stripped: &[char]) -> (res: Option<Result<TypeDecl, Diagnostic>>)
    ensures
        match (res, type_decl_of(stripped@)) {
            (None, None) => true,
            (Some(Ok(t)), Some(Ok(d))) => decl_is(t, d, path@, module@, line),
            (Some(Err(e)), Some(Err(m))) => reports(e, "ParseError"@, m, loc(path@, line as int)),
            _ => false,
        },
{
    proof {
        reveal_strlit("type ");
        reveal_strlit("{");
        reveal_strlit("}");
    }
    if !has_prefix_str(stripped, "type ") {
        return None;
    }
    let rest = slice_chars(stripped, 5, stripped.len());
    let eq = find_char(&rest, '=', 0);
    if eq >= rest.len() {
        return Some(Err(error_at("ParseError", text3("Invalid type declaration `", stripped, "`."), path, line)));
    }
    let name = trim_chars(&slice_chars(&rest, 0, eq));
    let body = trim_chars(&slice_chars(&rest, eq + 1, rest.len()));
    proof {
        assert(rest@.subrange(0, eq as int) == rest@.take(eq as int));
        assert(rest@.subrange(eq + 1, rest@.len() as int) == rest@.skip(eq + 1));
    }
    if !is_valid_ident(&name) {
        return Some(Err(error_at("ParseError", text3("Invalid type name `", &name, "`."), path, line)));
    }
    if !has_prefix_str(&body, "{") {
        if body.len() == 0 {
            return Some(Err(error_at("ParseError", text3("Enum type `", &name, "` must declare at least one variant."), path, line)));
        }
        return Some(parse_enum_decl(path, module, line, &name, &body));
    }
    if !(has_suffix_str(&body, "}") && body.len() >= 2) {
        return Some(Err(error_at("ParseError", text3("Type `", &name, "` must be a record literal shape or enum variant list."), path, line)));
    }
    let fields_text = slice_chars(&body, 1, body.len() - 1);
    let trimmed = trim_chars(&fields_text);
    if trimmed.len() == 0 {
        let t = TypeDecl {
            name: string_of(&name),
            module: module.clone(),
            source_path: path.clone(),
            line,
            fields: Vec::new(),
            variants: Vec::new(),
        };
        assert(field_views(t.fields@) =~= Seq::<(Seq<char>, Seq<char>)>::empty());
        assert(string_views(t.variants@) =~= Seq::<Seq<char>>::empty());
        return Some(Ok(t));
    }
    match parse_fields(path, line, &fields_text) {
        Ok(fields) => {
            let t = TypeDecl {
                name: string_of(&name),
                module: module.clone(),
                source_path: path.clone(),
                line,
                fields,
                variants: Vec::new(),
            };
            assert(string_views(t.variants@) =~= Seq::<Seq<char>>::empty());
            Some(Ok(t))
        },
        Err(d) => Some(Err(d)),
    }
}


// ---------------------------------------------------------------------------
// Function blocks
// ---------------------------------------------------------------------------
/// A line that starts a new top-level item and so ends a function block.
pub open spec fn starts_item(l: Seq<char>) -> bool {
    let st = trim(uncommented(l));
    &&& st.len() > 0
    &&& !starts_with(l, " "@)
    &&& (starts_with(st, "module "@) || starts_with(st, "use "@) || starts_with(st, "type "@)
        || starts_with(st, "pub fn "@) || starts_with(st, "fn "@))
}

/// Index of the first line at or after `i` that starts a new item, or the line count.
pub open spec fn block_end_from(lines: Seq<Seq<char>>, i: int) -> int
    decreases lines.len() - i,
{
    if i < 0 || i >= lines.len() {
        lines.len() as int
    } else if starts_item(lines[i]) {
        i
    } else {
        block_end_from(lines, i + 1)
    }
}

pub proof fn lemma_block_end(lines: Seq<Seq<char>>, i: int)
    requires
        0 <= i <= lines.len(),
    ensures
        i <= block_end_from(lines, i) <= lines.len(),
    decreases lines.len() - i,
{
    if i < lines.len() && !starts_item(lines[i]) {
        lemma_block_end(lines, i + 1);
    }
}

fn is_item_start(l: &Vec<char>) -> (res: bool)
    ensures
        res == starts_item(l@),
{
    let st = trim_chars(&without_comment(l));
    st.len() > 0 && !has_prefix_str(l, " ") && (has_prefix_str(&st, "module ") || has_prefix_str(
        &st,
        "use ",
    ) || has_prefix_str(&st, "type ") || has_prefix_str(&st, "pub fn ") || has_prefix_str(
        &st,
        "fn ",
    ))
}

/// Finds where the block of a function that starts at line `start` ends.
pub fn find_function_end(lines: &Vec<Vec<char>>, start: usize) -> (res: usize)
    requires
        start <= lines@.len(),
    ensures
        res == block_end_from(views(lines@), start as int),
        start <= res <= lines@.len(),
{
    proof {
        lemma_block_end(views(lines@), start as int);
    }
    let mut i = start;
    while i < lines.len()
        invariant
            start <= i <= lines@.len(),
            block_end_from(views(lines@), i as int) == block_end_from(views(lines@), start as int),
        decreases lines@.len() - i,
    {
        assert(views(lines@)[i as int] == lines@[i as int]@);
        if is_item_start(&lines[i]) {
            return i;
        }
        i += 1;
    }
    i
}

pub open spec fn block_sections() -> Seq<Seq<char>> {
    seq!["contract"@, "examples"@, "properties"@, "migration"@, "impl"@]
}

pub open spec fn migration_kinds() -> Seq<Seq<char>> {
    seq![
        "public-behavior-change"@,
        "capability-expansion"@,
        "evidence-weakening"@,
        "implementation-change"@,
        "impact-review"@,
    ]
}

/// What a function block has declared so far.
pub struct FnState {
    pub intent: Option<Seq<char>>,
    pub version: Seq<char>,
    pub version_explicit: bool,
    pub effects: Seq<Seq<char>>,
    pub requires: Seq<Seq<char>>,
    pub contracts: Seq<Seq<char>>,
    pub examples: Seq<Seq<char>>,
    pub example_lines: Seq<int>,
    pub properties: Seq<Seq<char>>,
    pub property_lines: Seq<int>,
    pub migrations: Seq<(Seq<char>, Seq<char>)>,
    pub implementation: Option<Seq<char>>,
    pub seen: Seq<Seq<char>>,
    pub current: Option<Seq<char>>,
    pub diags: Seq<(Seq<char>, Seq<char>, int)>,
}

/// Records that a section was seen, reporting a repeat.
pub open spec fn mark(st: FnState, section: Seq<char>, ln: int) -> FnState {
    let diags = if st.seen.contains(section) {
        st.diags.push(("DuplicateSection"@, "Duplicate `"@ + section + "` section."@, ln))
    } else {
        st.diags
    };
    FnState { seen: st.seen.push(section), diags, ..st }
}

pub open spec fn indentation_message() -> Seq<char> {
    "Function content must use two-space section indentation and four-space body indentation."@
}

/// A section header line (two-space indentation).
pub open spec fn section_step(st: FnState, content: Seq<char>, ln: int) -> FnState {
    if intent_of(content) is Some {
        FnState { intent: intent_of(content), current: None, ..mark(st, "intent"@, ln) }
    } else if starts_with(content, "version "@) {
        let m = mark(st, "version"@, ln);
        let v = trim(content.skip(8));
        if valid_version(v) {
            FnState { version: v, version_explicit: true, current: None, ..m }
        } else {
            FnState {
                current: None,
                diags: m.diags.push(("ParseError"@, "Invalid symbol version `"@ + v + "`."@, ln)),
                ..m
            }
        }
    } else if starts_with(content, "effects "@) {
        FnState {
            effects: effects_of(trim(content.skip(8))),
            current: None,
            ..mark(st, "effects"@, ln)
        }
    } else if block_sections().contains(content) {
        FnState { current: Some(content), ..mark(st, content, ln) }
    } else {
        FnState {
            current: None,
            diags: st.diags.push(
                ("UnknownSection"@, "Unknown function section `"@ + content + "`."@, ln),
            ),
            ..st
        }
    }
}

/// A body line (four-space indentation) of section `section`.
pub open spec fn body_step(st: FnState, section: Seq<char>, content: Seq<char>, ln: int) -> FnState {
    if section == "contract"@ {
        let c = trim(content);
        if starts_with(c, "ensures "@) {
            FnState { contracts: st.contracts.push(trim(c.skip(8))), ..st }
        } else if starts_with(c, "requires "@) {
            FnState { requires: st.requires.push(trim(c.skip(9))), ..st }
        } else {
            FnState {
                diags: st.diags.push(
                    ("UnsupportedContractClause"@, "Unsupported contract clause: "@ + c, ln),
                ),
                ..st
            }
        }
    } else if section == "examples"@ {
        FnState {
            examples: st.examples.push(trim(content)),
            example_lines: st.example_lines.push(ln),
            ..st
        }
    } else if section == "properties"@ {
        FnState {
            properties: st.properties.push(content),
            property_lines: st.property_lines.push(ln),
            ..st
        }
    } else if section == "migration"@ {
        match migration_of(trim(content)) {
            Some((kind, note)) => if migration_kinds().contains(kind) {
                FnState { migrations: st.migrations.push((kind, note)), ..st }
            } else {
                FnState {
                    diags: st.diags.push(
                        (
                            "UnsupportedMigrationKind"@,
                            "Unsupported migration kind `"@ + kind + "`."@,
                            ln,
                        ),
                    ),
                    ..st
                }
            },
            None => FnState {
                diags: st.diags.push(
                    (
                        "UnsupportedMigrationRecord"@,
                        "Unsupported migration record: "@ + trim(content),
                        ln,
                    ),
                ),
                ..st
            },
        }
    } else if section == "impl"@ {
        FnState {
            implementation: Some(
                match st.implementation {
                    Some(cur) => cur + seq!['\n'] + content,
                    None => trim(content),
                },
            ),
            ..st
        }
    } else {
        st
    }
}

/// One line of a function block.
pub open spec fn fn_step(st: FnState, line: Seq<char>, ln: int) -> FnState {
    let raw = crate::text::trim_end(uncommented(line));
    if trim(raw).len() == 0 {
        st
    } else if starts_with(raw, "  "@) && !starts_with(raw, "    "@) {
        section_step(st, trim(raw.skip(2)), ln)
    } else if st.current is Some && starts_with(raw, "    "@) {
        body_step(st, st.current->0, crate::text::trim_end(raw.skip(4)), ln)
    } else {
        FnState { diags: st.diags.push(("IndentationError"@, indentation_message(), ln)), ..st }
    }
}

/// The block's lines from offset `k` on, where offset 0 is on line `line + 1`.
pub open spec fn fn_fold(st: FnState, block: Seq<Seq<char>>, line: int, k: int) -> FnState
    decreases block.len() - k,
{
    if k < 0 || k >= block.len() {
        st
    } else {
        fn_fold(fn_step(st, block[k], line + k + 1), block, line, k + 1)
    }
}

/// The state before the first block line: the header's problems already reported.
pub open spec fn initial_state(ret: Seq<char>, params_text: Seq<char>, line: int) -> FnState {
    let pd = at_line(params_of(params_text).1, line);
    FnState {
        intent: None,
        version: "v1"@,
        version_explicit: false,
        effects: seq![],
        requires: seq![],
        contracts: seq![],
        examples: seq![],
        example_lines: seq![],
        properties: seq![],
        property_lines: seq![],
        migrations: seq![],
        implementation: None,
        seen: seq![],
        current: None,
        diags: if valid_type(ret) {
            pd
        } else {
            pd.push(("ParseError"@, "Invalid return type `"@ + ret + "`."@, line))
        },
    }
}

pub open spec fn migration_views(ms: Seq<MigrationRecord>) -> Seq<(Seq<char>, Seq<char>)> {
    ms.map_values(|m: MigrationRecord| (m.kind@, m.note@))
}

pub open spec fn line_views(ls: Seq<usize>) -> Seq<int> {
    ls.map_values(|l: usize| l as int)
}

/// The function's declared sections agree with a block state.
pub open spec fn holds_state(f: Function, st: FnState) -> bool {
    &&& crate::eval::opt_view(f.intent) == st.intent
    &&& f.version@ == st.version
    &&& f.version_explicit == st.version_explicit
    &&& string_views(f.effects@) == st.effects
    &&& string_views(f.requires@) == st.requires
    &&& string_views(f.contracts@) == st.contracts
    &&& string_views(f.examples@) == st.examples
    &&& line_views(f.example_lines@) == st.example_lines
    &&& string_views(f.properties@) == st.properties
    &&& line_views(f.property_lines@) == st.property_lines
    &&& migration_views(f.migrations@) == st.migrations
    &&& crate::eval::opt_view(f.implementation) == st.implementation
}

struct FnParse {
    function: Function,
    seen: Vec<String>,
    current: Option<String>,
    diagnostics: Vec<Diagnostic>,
}

impl FnParse {
    spec fn holds(&self, st: FnState, path: Seq<char>) -> bool {
        &&& holds_state(self.function, st)
        &&& string_views(self.seen@) == st.seen
        &&& crate::eval::opt_view(self.current) == st.current
        &&& reports_all(self.diagnostics@, st.diags, path)
    }

    spec fn same_header(&self, other: FnParse) -> bool {
        &&& self.function.name == other.function.name
        &&& self.function.module == other.function.module
        &&& self.function.public == other.function.public
        &&& self.function.params == other.function.params
        &&& self.function.return_type == other.function.return_type
        &&& self.function.source_path == other.function.source_path
        &&& self.function.line == other.function.line
    }
}

fn seen_contains(seen: &Vec<String>, section: &str) -> (res: bool)
    ensures
        res == string_views(seen@).contains(section@),
{
    let mut i: usize = 0;
    while i < seen.len()
        invariant
            i <= seen@.len(),
            forall|k: int| 0 <= k < i ==> #[trigger] seen@[k]@ != section@,
        decreases seen@.len() - i,
    {
        if str_is(&seen[i], section) {
            assert(string_views(seen@)[i as int] == section@);
            return true;
        }
        i += 1;
    }
    proof {
        if string_views(seen@).contains(section@) {
            let k = choose|k: int| 0 <= k < string_views(seen@).len() && string_views(seen@)[k] == section@;
            assert(seen@[k]@ == section@);
        }
    }
    false
}

/// Records that a section was seen, reporting a repeated section.
fn mark_section(state: &mut FnParse, section: &str, path: &String, line: usize, Ghost(st): Ghost<FnState>)
    requires
        old(state).holds(st, path@),
    ensures
        final(state).holds(mark(st, section@, line as int), path@),
        final(state).same_header(*old(state)),
        final(state).current == old(state).current,
{
    if seen_contains(&state.seen, section) {
        let d = error_at("DuplicateSection", text3("Duplicate `", &chars_of(section), "` section."), path, line);
        proof {
            lemma_reports_push(state.diagnostics@, st.diags, path@, d, ("DuplicateSection"@, "Duplicate `"@ + section@ + "` section."@, line as int));
        }
        state.diagnostics.push(d);
    }
    let ghost before = string_views(state.seen@);
    state.seen.push(owned(section));
    assert(string_views(state.seen@) =~= before.push(section@));
}

fn push_diag(state: &mut FnParse, code: &str, message: String, path: &String, line: usize, Ghost(st): Ghost<FnState>)
    requires
        old(state).holds(st, path@),
    ensures
        final(state).holds(FnState { diags: st.diags.push((code@, message@, line as int)), ..st }, path@),
        final(state).same_header(*old(state)),
        final(state).current == old(state).current,
{
    let d = error_at(code, message, path, line);
    proof {
        lemma_reports_push(state.diagnostics@, st.diags, path@, d, (code@, message@, line as int));
    }
    state.diagnostics.push(d);
}

fn push_string(v: &mut Vec<String>, s: String)
    ensures
        string_views(final(v)@) == string_views(old(v)@).push(s@),
{
    let ghost before = string_views(v@);
    v.push(s);
    assert(string_views(v@) =~= before.push(s@));
}

fn push_line(v: &mut Vec<usize>, l: usize)
    ensures
        line_views(final(v)@) == line_views(old(v)@).push(l as int),
{
    let ghost before = line_views(v@);
    v.push(l);
    assert(line_views(v@) =~= before.push(l as int));
}

fn is_block_section(content: &Vec<char>) -> (res: bool)
    ensures
        res == block_sections().contains(content@),
{
    let s = string_of(content);
    let r = str_is(&s, "contract") || str_is(&s, "examples") || str_is(&s, "properties") || str_is(&s, "migration") || str_is(&s, "impl");
    proof {
        let l = block_sections();
        if l.contains(content@) {
            let k = choose|k: int| 0 <= k < l.len() && l[k] == content@;
            assert(k == 0 || k == 1 || k == 2 || k == 3 || k == 4);
        }
        if r {
            if content@ == l[0] { assert(l.contains(l[0])); }
            if content@ == l[1] { assert(l.contains(l[1])); }
            if content@ == l[2] { assert(l.contains(l[2])); }
            if content@ == l[3] { assert(l.contains(l[3])); }
            if content@ == l[4] { assert(l.contains(l[4])); }
        }
    }
    r
}

fn is_migration_kind(kind: &Vec<char>) -> (res: bool)
    ensures
        res == migration_kinds().contains(kind@),
{
    let s = string_of(kind);
    let r = str_is(&s, "public-behavior-change") || str_is(&s, "capability-expansion") || str_is(&s, "evidence-weakening") || str_is(&s, "implementation-change") || str_is(&s, "impact-review");
    proof {
        let l = migration_kinds();
        if l.contains(kind@) {
            let k = choose|k: int| 0 <= k < l.len() && l[k] == kind@;
            assert(k == 0 || k == 1 || k == 2 || k == 3 || k == 4);
        }
        if r {
            if kind@ == l[0] { assert(l.contains(l[0])); }
            if kind@ == l[1] { assert(l.contains(l[1])); }
            if kind@ == l[2] { assert(l.contains(l[2])); }
            if kind@ == l[3] { assert(l.contains(l[3])); }
            if kind@ == l[4] { assert(l.contains(l[4])); }
        }
    }
    r
}

fn section_step_exec(state: &mut FnParse, content: Vec<char>, path: &String, ln: usize, Ghost(st): Ghost<FnState>)
    requires
        old(state).holds(st, path@),
    ensures
        final(state).holds(section_step(st, content@, ln as int), path@),
        final(state).same_header(*old(state)),
{
    proof {
        reveal_strlit("version ");
        reveal_strlit("effects ");
    }
    if let Some(intent) = parse_intent(&content) {
        mark_section(state, "intent", path, ln, Ghost(st));
        state.function.intent = Some(string_of(&intent));
        state.current = None;
        return;
    }
    if has_prefix_str(&content, "version ") {
        mark_section(state, "version", path, ln, Ghost(st));
        let v = trim_chars(&slice_chars(&content, 8, content.len()));
        assert(content@.subrange(8, content@.len() as int) == content@.skip(8));
        if crate::eval::is_valid_version(&v) {
            state.function.version = string_of(&v);
            state.function.version_explicit = true;
            state.current = None;
        } else {
            state.current = None;
            push_diag(state, "ParseError", text3("Invalid symbol version `", &v, "`."), path, ln, Ghost(FnState { current: None, ..mark(st, "version"@, ln as int) }));
        }
        return;
    }
    if has_prefix_str(&content, "effects ") {
        mark_section(state, "effects", path, ln, Ghost(st));
        let e = trim_chars(&slice_chars(&content, 8, content.len()));
        assert(content@.subrange(8, content@.len() as int) == content@.skip(8));
        state.function.effects = parse_effects(&e);
        state.current = None;
        proof {
            assert(string_views(state.function.effects@) == state.function.effects@.map_values(|s: String| s@));
        }
        return;
    }
    if is_block_section(&content) {
        let name = string_of(&content);
        mark_section(state, name.as_str(), path, ln, Ghost(st));
        state.current = Some(name);
        return;
    }
    state.current = None;
    push_diag(state, "UnknownSection", text3("Unknown function section `", &content, "`."), path, ln, Ghost(FnState { current: None, ..st }));
}

fn body_step_exec(state: &mut FnParse, section: &String, content: Vec<char>, path: &String, ln: usize, Ghost(st): Ghost<FnState>)
    requires
        old(state).holds(st, path@),
    ensures
        final(state).holds(body_step(st, section@, content@, ln as int), path@),
        final(state).same_header(*old(state)),
        final(state).current == old(state).current,
{
    proof {
        reveal_strlit("ensures ");
        reveal_strlit("requires ");
    }
    if str_is(section, "contract") {
        let c = trim_chars(&content);
        if has_prefix_str(&c, "ensures ") {
            let e = trim_chars(&slice_chars(&c, 8, c.len()));
            assert(c@.subrange(8, c@.len() as int) == c@.skip(8));
            push_string(&mut state.function.contracts, string_of(&e));
        } else if has_prefix_str(&c, "requires ") {
            let r = trim_chars(&slice_chars(&c, 9, c.len()));
            assert(c@.subrange(9, c@.len() as int) == c@.skip(9));
            push_string(&mut state.function.requires, string_of(&r));
        } else {
            let mut m = owned("Unsupported contract clause: ");
            append_chars(&mut m, &c);
            push_diag(state, "UnsupportedContractClause", m, path, ln, Ghost(st));
        }
    } else if str_is(section, "examples") {
        let e = trim_chars(&content);
        push_string(&mut state.function.examples, string_of(&e));
        push_line(&mut state.function.example_lines, ln);
    } else if str_is(section, "properties") {
        push_string(&mut state.function.properties, string_of(&content));
        push_line(&mut state.function.property_lines, ln);
    } else if str_is(section, "migration") {
        let t = trim_chars(&content);
        match parse_migration_record(&t) {
            Some((kind, note)) => {
                if is_migration_kind(&kind) {
                    let ghost before = migration_views(state.function.migrations@);
                    state.function.migrations.push(MigrationRecord { kind: string_of(&kind), note: string_of(&note) });
                    assert(migration_views(state.function.migrations@) =~= before.push((kind@, note@)));
                } else {
                    push_diag(state, "UnsupportedMigrationKind", text3("Unsupported migration kind `", &kind, "`."), path, ln, Ghost(st));
                }
            },
            None => {
                let mut m = owned("Unsupported migration record: ");
                append_chars(&mut m, &t);
                push_diag(state, "UnsupportedMigrationRecord", m, path, ln, Ghost(st));
            },
        }
    } else if str_is(section, "impl") {
        let next = match &state.function.implementation {
            Some(cur) => {
                let mut n = cur.clone();
                crate::text::push_char(&mut n, '\n');
                append_chars(&mut n, &content);
                assert(n@ =~= cur@ + seq!['\n'] + content@);
                n
            },
            None => string_of(&trim_chars(&content)),
        };
        state.function.implementation = Some(next);
    }
}

fn fn_step_exec(state: &mut FnParse, line: &Vec<char>, path: &String, ln: usize, Ghost(st): Ghost<FnState>)
    requires
        old(state).holds(st, path@),
    ensures
        final(state).holds(fn_step(st, line@, ln as int), path@),
        final(state).same_header(*old(state)),
{
    proof {
        reveal_strlit("  ");
        reveal_strlit("    ");
    }
    let raw = crate::text::trim_end_chars(&without_comment(line));
    let t = trim_chars(&raw);
    if t.len() == 0 {
        return;
    }
    if has_prefix_str(&raw, "  ") && !has_prefix_str(&raw, "    ") {
        let content = trim_chars(&slice_chars(&raw, 2, raw.len()));
        assert(raw@.subrange(2, raw@.len() as int) == raw@.skip(2));
        section_step_exec(state, content, path, ln, Ghost(st));
        return;
    }
    if state.current.is_some() && has_prefix_str(&raw, "    ") {
        let content = crate::text::trim_end_chars(&slice_chars(&raw, 4, raw.len()));
        assert(raw@.subrange(4, raw@.len() as int) == raw@.skip(4));
        let section = match &state.current {
            Some(s) => s.clone(),
            None => String::new(),
        };
        body_step_exec(state, &section, content, path, ln, Ghost(st));
        return;
    }
    push_diag(state, "IndentationError", owned("Function content must use two-space section indentation and four-space body indentation."), path, ln, Ghost(st));
}

/// Parses one function: its header's parameters and return type, then its block of
/// section lines, which start on line `line + 1`.
pub fn parse_function(path: &String, module: &String, line: usize, header: FunctionHeader, block: &[Vec<char>]) -> (res: (Option<Function>, Vec<Diagnostic>))
    requires
        line + block@.len() <= usize::MAX,
    ensures
        res.0 is Some,
        ({
            let f = res.0->0;
            let st = fn_fold(initial_state(header.return_type@, header.params@, line as int), views(block@), line as int, 0);
            &&& f.name@ == header.name@
            &&& f.module@ == module@
            &&& f.public == header.public
            &&& param_views(f.params@) == params_of(header.params@).0
            &&& f.return_type@ == header.return_type@
            &&& f.source_path@ == path@
            &&& f.line == line
            &&& holds_state(f, st)
            &&& reports_all(res.1@, st.diags, path@)
        }),
{
    let params_text = chars_of(header.params.as_str());
    let (params, mut diagnostics) = parse_params(&params_text, path, line);
    let ret = chars_of(header.return_type.as_str());
    let ghost pd = at_line(params_of(header.params@).1, line as int);
    if !is_valid_type_name(&ret) {
        let d = error_at("ParseError", text3("Invalid return type `", &ret, "`."), path, line);
        proof {
            lemma_reports_push(diagnostics@, pd, path@, d, ("ParseError"@, "Invalid return type `"@ + ret@ + "`."@, line as int));
        }
        diagnostics.push(d.with_repair("Use `fn name(args) -> Type`."));
    }
    let mut state = FnParse {
        function: Function {
            name: header.name,
            module: module.clone(),
            public: header.public,
            version: owned("v1"),
            version_explicit: false,
            params,
            return_type: header.return_type,
            source_path: path.clone(),
            line,
            intent: None,
            requires: Vec::new(),
            contracts: Vec::new(),
            examples: Vec::new(),
            example_lines: Vec::new(),
            properties: Vec::new(),
            property_lines: Vec::new(),
            migrations: Vec::new(),
            effects: Vec::new(),
            implementation: None,
        },
        seen: Vec::new(),
        current: None,
        diagnostics,
    };
    let ghost init = initial_state(header.return_type@, header.params@, line as int);
    proof {
        assert(string_views(state.function.effects@) =~= Seq::<Seq<char>>::empty());
        assert(string_views(state.function.requires@) =~= Seq::<Seq<char>>::empty());
        assert(string_views(state.function.contracts@) =~= Seq::<Seq<char>>::empty());
        assert(string_views(state.function.examples@) =~= Seq::<Seq<char>>::empty());
        assert(string_views(state.function.properties@) =~= Seq::<Seq<char>>::empty());
        assert(line_views(state.function.example_lines@) =~= Seq::<int>::empty());
        assert(line_views(state.function.property_lines@) =~= Seq::<int>::empty());
        assert(migration_views(state.function.migrations@) =~= Seq::<(Seq<char>, Seq<char>)>::empty());
        assert(string_views(state.seen@) =~= Seq::<Seq<char>>::empty());
        assert(state.holds(init, path@));
    }
    let ghost first = state;
    let ghost mut cur = init;
    let mut k: usize = 0;
    while k < block.len()
        invariant
            k <= block@.len(),
            line + block@.len() <= usize::MAX,
            fn_fold(init, views(block@), line as int, 0) == fn_fold(cur, views(block@), line as int, k as int),
            state.holds(cur, path@),
            state.same_header(first),
        decreases block@.len() - k,
    {
        let ln = line + k + 1;
        assert(views(block@)[k as int] == block@[k as int]@);
        fn_step_exec(&mut state, &block[k], path, ln, Ghost(cur));
        proof {
            cur = fn_step(cur, block@[k as int]@, ln as int);
        }
        k += 1;
    }
    (Some(state.function), state.diagnostics)
}


// ---------------------------------------------------------------------------
// Source files
// ---------------------------------------------------------------------------
/// What a source file has produced so far: the current module, each function's
/// (module, header line, header, block end), each type's (module, line, declaration),
/// and the problems found.
pub struct SrcState {
    pub module: Seq<char>,
    pub fns: Seq<(Seq<char>, int, (bool, Seq<char>, Seq<char>, Seq<char>), int)>,
    pub types: Seq<(Seq<char>, int, (Seq<char>, Seq<(Seq<char>, Seq<char>)>, Seq<Seq<char>>))>,
    pub diags: Seq<(Seq<char>, Seq<char>, int)>,
}

/// One top-level line at index `i`: the next state and the index of the next line to read.
pub open spec fn top_step(st: SrcState, lines: Seq<Seq<char>>, i: int) -> (SrcState, int) {
    let stripped = trim(uncommented(lines[i]));
    let ln = i + 1;
    if stripped.len() == 0 {
        (st, i + 1)
    } else if starts_with(stripped, "module "@) {
        let name = trim(stripped.skip(7));
        if valid_module(name) {
            (SrcState { module: name, ..st }, i + 1)
        } else {
            (
                SrcState {
                    diags: st.diags.push(
                        ("ParseError"@, "Invalid module name `"@ + name + "`."@, ln),
                    ),
                    ..st
                },
                i + 1,
            )
        }
    } else if starts_with(stripped, "use "@) {
        let dep = trim(stripped.skip(4));
        if valid_module(dep) {
            (st, i + 1)
        } else {
            (
                SrcState {
                    diags: st.diags.push(
                        ("ParseError"@, "Invalid module dependency `"@ + dep + "`."@, ln),
                    ),
                    ..st
                },
                i + 1,
            )
        }
    } else if type_decl_of(stripped) is Some {
        match type_decl_of(stripped)->0 {
            Ok(d) => (SrcState { types: st.types.push((st.module, ln, d)), ..st }, i + 1),
            Err(m) => (SrcState { diags: st.diags.push(("ParseError"@, m, ln)), ..st }, i + 1),
        }
    } else if header_of(stripped) is Some {
        let h = header_of(stripped)->0;
        let end = block_end_from(lines, i + 1);
        let fst = fn_fold(initial_state(h.3, h.2, ln), lines.subrange(i + 1, end), ln, 0);
        (SrcState { fns: st.fns.push((st.module, ln, h, end)), diags: st.diags + fst.diags, ..st }, end)
    } else {
        (
            SrcState {
                diags: st.diags.push(
                    ("ParseError"@, "Unexpected top-level syntax: "@ + stripped, ln),
                ),
                ..st
            },
            i + 1,
        )
    }
}

pub proof fn lemma_top_step(st: SrcState, lines: Seq<Seq<char>>, i: int)
    requires
        0 <= i < lines.len(),
    ensures
        i < top_step(st, lines, i).1 <= lines.len(),
{
    lemma_block_end(lines, i + 1);
}

/// The lines from index `i` on.
pub open spec fn top_fold(st: SrcState, lines: Seq<Seq<char>>, i: int) -> SrcState
    decreases lines.len() - i,
{
    if i < 0 || i >= lines.len() {
        st
    } else {
        proof {
            lemma_top_step(st, lines, i);
        }
        let (next, j) = top_step(st, lines, i);
        top_fold(next, lines, j)
    }
}

/// What a whole source text produces.
pub open spec fn source_state(source: Seq<char>) -> SrcState {
    top_fold(SrcState { module: "main"@, fns: seq![], types: seq![], diags: seq![] }, lines_spec(source), 0)
}

/// `f` is the function parsed from the recorded header and block.
pub open spec fn fn_from(f: Function, path: Seq<char>, lines: Seq<Seq<char>>, e: (Seq<char>, int, (bool, Seq<char>, Seq<char>, Seq<char>), int)) -> bool {
    let (module, line, h, end) = e;
    let st = fn_fold(initial_state(h.3, h.2, line), lines.subrange(line, end), line, 0);
    &&& f.name@ == h.1
    &&& f.module@ == module
    &&& f.public == h.0
    &&& param_views(f.params@) == params_of(h.2).0
    &&& f.return_type@ == h.3
    &&& f.source_path@ == path
    &&& f.line == line
    &&& holds_state(f, st)
}

/// `t` is the type declared by the recorded line.
pub open spec fn type_from(t: TypeDecl, path: Seq<char>, e: (Seq<char>, int, (Seq<char>, Seq<(Seq<char>, Seq<char>)>, Seq<Seq<char>>))) -> bool {
    let (module, line, d) = e;
    &&& t.name@ == d.0
    &&& t.module@ == module
    &&& t.source_path@ == path
    &&& t.line == line
    &&& field_views(t.fields@) == d.1
    &&& string_views(t.variants@) == d.2
}

pub open spec fn program_holds(p: Program, ds: Seq<Diagnostic>, st: SrcState, path: Seq<char>, lines: Seq<Seq<char>>) -> bool {
    &&& p.functions@.len() == st.fns.len()
    &&& forall|k: int| 0 <= k < st.fns.len() ==> fn_from(#[trigger] p.functions@[k], path, lines, st.fns[k])
    &&& p.types@.len() == st.types.len()
    &&& forall|k: int| 0 <= k < st.types.len() ==> type_from(#[trigger] p.types@[k], path, st.types[k])
    &&& reports_all(ds, st.diags, path)
}

proof fn lemma_reports_append(
    a: Seq<Diagnostic>,
    sa: Seq<(Seq<char>, Seq<char>, int)>,
    b: Seq<Diagnostic>,
    sb: Seq<(Seq<char>, Seq<char>, int)>,
    path: Seq<char>,
)
    requires
        reports_all(a, sa, path),
        reports_all(b, sb, path),
    ensures
        reports_all(a + b, sa + sb, path),
{
    assert forall|k: int| 0 <= k < (a + b).len() implies reports(
        #[trigger] (a + b)[k],
        (sa + sb)[k].0,
        (sa + sb)[k].1,
        loc(path, (sa + sb)[k].2),
    ) by {
        if k < a.len() {
            assert((a + b)[k] == a[k]);
            assert((sa + sb)[k] == sa[k]);
        } else {
            assert((a + b)[k] == b[k - a.len()]);
            assert((sa + sb)[k] == sb[k - a.len()]);
        }
    }
}

/// Parses one Serow source text.
pub fn parse_source(source_path: &str, source: &str) -> (res: (Program, Vec<Diagnostic>))
    ensures
        program_holds(res.0, res.1@, source_state(source@), source_path@, lines_spec(source@)),
{
    proof {
        reveal_strlit("module ");
        reveal_strlit("use ");
    }
    let path = owned(source_path);
    let cs = chars_of(source);
    let lines = crate::text::lines_of(&cs);
    let ghost ls = lines_spec(source@);
    proof {
        assert(views(lines@) =~= ls);
    }
    let mut program = Program::new();
    let mut diagnostics: Vec<Diagnostic> = Vec::new();
    let mut module = owned("main");
    let mut index: usize = 0;
    let ghost mut st = SrcState { module: "main"@, fns: seq![], types: seq![], diags: seq![] };
    assert(reports_all(diagnostics@, st.diags, path@));
    while index < lines.len()
        invariant
            index <= lines@.len(),
            views(lines@) == ls,
            ls == lines_spec(source@),
            path@ == source_path@,
            source_state(source@) == top_fold(st, ls, index as int),
            module@ == st.module,
            program_holds(program, diagnostics@, st, path@, ls),
        decreases lines@.len() - index,
    {
        proof {
            reveal_strlit("module ");
            reveal_strlit("use ");
            lemma_top_step(st, ls, index as int);
            assert(ls[index as int] == lines@[index as int]@);
        }
        let ghost prev = st;
        let ghost step = top_step(st, ls, index as int);
        let stripped = trim_chars(&without_comment(&lines[index]));
        let ln = index + 1;
        if stripped.len() == 0 {
            index += 1;
            continue;
        }
        if has_prefix_str(&stripped, "module ") {
            let name = trim_chars(&slice_chars(&stripped, 7, stripped.len()));
            assert(stripped@.subrange(7, stripped@.len() as int) == stripped@.skip(7));
            if is_valid_module(&name) {
                module = string_of(&name);
                program.add_module(module.as_str(), source_path);
                proof {
                    st = SrcState { module: name@, ..st };
                }
            } else {
                let d = error_at("ParseError", text3("Invalid module name `", &name, "`."), &path, ln);
                proof {
                    lemma_reports_push(diagnostics@, st.diags, path@, d, ("ParseError"@, "Invalid module name `"@ + name@ + "`."@, ln as int));
                    st = step.0;
                }
                diagnostics.push(d);
            }
            index += 1;
            continue;
        }
        if has_prefix_str(&stripped, "use ") {
            let dep = trim_chars(&slice_chars(&stripped, 4, stripped.len()));
            assert(stripped@.subrange(4, stripped@.len() as int) == stripped@.skip(4));
            if is_valid_module(&dep) {
                program.add_module_dependency(
                    module.as_str(),
                    ModuleDependency { module: string_of(&dep), source_path: path.clone(), line: ln },
                );
            } else {
                let d = error_at("ParseError", text3("Invalid module dependency `", &dep, "`."), &path, ln);
                proof {
                    lemma_reports_push(diagnostics@, st.diags, path@, d, ("ParseError"@, "Invalid module dependency `"@ + dep@ + "`."@, ln as int));
                    st = step.0;
                }
                diagnostics.push(d);
            }
            index += 1;
            continue;
        }
        match parse_type_decl(&path, &module, ln, &stripped) {
            Some(Ok(t)) => {
                program.add_type(t);
                proof {
                    st = step.0;
                    assert(type_from(program.types@.last(), path@, st.types.last()));
                    assert forall|k: int| 0 <= k < st.types.len() implies type_from(#[trigger] program.types@[k], path@, st.types[k]) by {
                        if k < prev.types.len() {
                            assert(program.types@[k] == program.types@.drop_last()[k]);
                        }
                    }
                }
                index += 1;
                continue;
            },
            Some(Err(d)) => {
                proof {
                    lemma_reports_push(diagnostics@, st.diags, path@, d, ("ParseError"@, type_decl_of(stripped@)->0->Err_0, ln as int));
                    st = step.0;
                }
                diagnostics.push(d);
                index += 1;
                continue;
            },
            None => {},
        }
        match parse_function_header(&stripped) {
            Some(header) => {
                let end = find_function_end(&lines, index + 1);
                let block = &lines[index + 1..end];
                proof {
                    assert(views(block@) =~= ls.subrange(index + 1, end as int));
                }
                let (function, mut function_diagnostics) = parse_function(&path, &module, ln, header, block);
                let ghost fd = function_diagnostics@;
                let ghost before = diagnostics@;
                diagnostics.append(&mut function_diagnostics);
                proof {
                    let h = header_of(stripped@)->0;
                    let fst = fn_fold(initial_state(h.3, h.2, ln as int), ls.subrange(index + 1, end as int), ln as int, 0);
                    lemma_reports_append(before, st.diags, fd, fst.diags, path@);
                    assert(diagnostics@ =~= before + fd);
                }
                if let Some(function) = function {
                    program.add_function(function);
                }
                proof {
                    st = step.0;
                    assert forall|k: int| 0 <= k < st.fns.len() implies fn_from(#[trigger] program.functions@[k], path@, ls, st.fns[k]) by {
                        if k < prev.fns.len() {
                            assert(program.functions@[k] == program.functions@.drop_last()[k]);
                        }
                    }
                }
                index = end;
            },
            None => {
                let mut m = owned("Unexpected top-level syntax: ");
                append_chars(&mut m, &stripped);
                let d = error_at("ParseError", m, &path, ln);
                proof {
                    lemma_reports_push(diagnostics@, st.diags, path@, d, ("ParseError"@, "Unexpected top-level syntax: "@ + stripped@, ln as int));
                    st = step.0;
                }
                diagnostics.push(d.with_repair("Use `module <name>`, `use <module>`, `type Name = { field: Type }`, `type Name = Variant | Other`, or `pub fn name(args) -> Type`."));
                index += 1;
            },
        }
    }
    (program, diagnostics)
}

} // verus!
