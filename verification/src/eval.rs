//! Expression tokens, call references and function resolution.
use vstd::prelude::*;
use vstd::string::*;

pub use crate::evaluator::{CallResult, Evaluator};
pub use crate::values::Value;

use crate::intrinsics::{intrinsic_functions, is_intrinsic_list};
use crate::model::{copy_opt_string, same_function, symbol_text, Function};
use crate::text::{
    chars_of, decimal, has_prefix_str, is_alnum, is_alpha, is_digit, is_ws, join_chars,
    join_spec, lines_of, lines_spec, split_chars, split_spec, starts_with, string_of, str_eq,
    usize_text, views, whitespace,
};

verus! {

// ---------------------------------------------------------------------------
// Call references
// ---------------------------------------------------------------------------
#[derive(Clone, Debug, PartialEq, Eq)]
pub struct CallReference {
    pub raw: String,
    pub module: Option<String>,
    pub name: String,
    pub version: Option<String>,
}

/// `vN` with at least one digit.
pub open spec fn valid_version(v: Seq<char>) -> bool {
    &&& v.len() >= 2
    &&& v[0] == 'v'
    &&& forall|i: int| 1 <= i < v.len() ==> is_digit(#[trigger] v[i])
}

pub open spec fn opt_view(o: Option<String>) -> Option<Seq<char>> {
    match o {
        Some(s) => Some(s@),
        None => None,
    }
}

/// The text of a reference without its leading `@`.
pub open spec fn symbol_part(raw: Seq<char>) -> Seq<char> {
    if raw.len() > 0 && raw[0] == '@' {
        raw.drop_first()
    } else {
        raw
    }
}

/// The (module, name, version) that a reference names.
pub open spec fn reference_parts(raw: Seq<char>) -> (Option<Seq<char>>, Seq<char>, Option<
    Seq<char>,
>) {
    let sym = symbol_part(raw);
    let parts = split_spec(sym, '.');
    let n = parts.len();
    if n >= 3 && valid_version(parts[n - 1]) {
        (Some(join_spec(parts.take(n - 2), "."@)), parts[n - 2], Some(parts[n - 1]))
    } else if n >= 2 {
        (Some(join_spec(parts.take(n - 1), "."@)), parts[n - 1], None)
    } else {
        (None, sym, None)
    }
}

pub open spec fn parsed_reference(r: CallReference, raw: Seq<char>) -> bool {
    let (m, n, v) = reference_parts(raw);
    &&& r.raw@ == raw
    &&& opt_view(r.module) == m
    &&& r.name@ == n
    &&& opt_view(r.version) == v
}

/// Whether text is a version such as `v1`.
pub fn is_valid_version(version: &[char]) -> (res: bool)
    ensures
        res == valid_version(version@),
{
    if version.len() < 2 || version[0] != 'v' {
        return false;
    }
    let mut i: usize = 1;
    while i < version.len()
        invariant
            1 <= i <= version@.len(),
            forall|j: int| 1 <= j < i ==> is_digit(#[trigger] version@[j]),
        decreases version@.len() - i,
    {
        if !crate::text::ascii_digit(version[i]) {
            return false;
        }
        i += 1;
    }
    true
}

impl CallReference {
    /// A field-wise copy.
    pub fn clone_reference(&self) -> (res: CallReference)
        ensures
            res == *self,
    {
        CallReference {
            raw: self.raw.clone(),
            module: copy_opt_string(&self.module),
            name: self.name.clone(),
            version: copy_opt_string(&self.version),
        }
    }

    /// Splits `@module.name.vN`, `module.name` or `name` into its parts.
    pub fn parse(raw: &str) -> (res: Self)
        ensures
            parsed_reference(res, raw@),
    {
        let cs = chars_of(raw);
        let sym = if cs.len() > 0 && cs[0] == '@' {
            crate::text::slice_chars(&cs, 1, cs.len())
        } else {
            cs
        };
        assert(sym@ == symbol_part(raw@));
        let parts = split_chars(&sym, '.');
        let n = parts.len();
        let ghost ps = split_spec(sym@, '.');
        proof {
            assert(views(parts@) =~= ps);
        }
        let dot: [char; 1] = ['.'];
        assert(dot@ =~= "."@) by {
            reveal_strlit(".");
        }
        if n >= 3 && is_valid_version(&parts[n - 1]) {
            let module_chars = join_chars(&parts[0..n - 2], &dot);
            proof {
                assert(views(parts@.subrange(0, n - 2)) =~= ps.take(n - 2));
            }
            return CallReference {
                raw: crate::text::owned(raw),
                module: Some(string_of(&module_chars)),
                name: string_of(&parts[n - 2]),
                version: Some(string_of(&parts[n - 1])),
            };
        }
        if n >= 2 {
            let module_chars = join_chars(&parts[0..n - 1], &dot);
            proof {
                assert(views(parts@.subrange(0, n - 1)) =~= ps.take(n - 1));
            }
            return CallReference {
                raw: crate::text::owned(raw),
                module: Some(string_of(&module_chars)),
                name: string_of(&parts[n - 1]),
                version: None,
            };
        }
        CallReference {
            raw: crate::text::owned(raw),
            module: None,
            name: string_of(&sym),
            version: None,
        }
    }

    /// A reference is qualified when it names a module or starts with `@`.
    pub fn is_qualified(&self) -> (res: bool)
        ensures
            res == (self.module.is_some() || starts_with(self.raw@, "@"@)),
    {
        let cs = chars_of(self.raw.as_str());
        self.module.is_some() || has_prefix_str(&cs, "@")
    }
}

/// Splitting yields at least one piece, and more than one exactly when the separator
/// occurs.
pub proof fn lemma_split_len(s: Seq<char>, c: char)
    ensures
        split_spec(s, c).len() >= 1,
        split_spec(s, c).len() >= 2 <==> s.contains(c),
    decreases s.len(),
{
    crate::text::lemma_find_from(s, c, 0);
    let i = crate::text::find_from(s, c, 0);
    if i < s.len() {
        lemma_split_len(s.skip(i + 1), c);
        assert(s[i] == c);
    } else {
        assert forall|j: int| 0 <= j < s.len() implies s[j] != c by {}
    }
}

/// A reference is qualified exactly when its text starts with `@` or holds a dot: the
/// module part that parsing finds is there exactly when the text holds a dot.
pub proof fn law_qualified_reference(raw: Seq<char>)
    ensures
        (reference_parts(raw).0 is Some || starts_with(raw, "@"@)) <==> (starts_with(raw, "@"@)
            || raw.contains('.')),
{
    reveal_strlit("@");
    let sym = symbol_part(raw);
    lemma_split_len(sym, '.');
    if raw.len() > 0 && raw[0] == '@' {
        assert(raw.take(1) =~= "@"@);
        assert(starts_with(raw, "@"@));
    } else {
        assert(sym == raw);
    }
}

/// Whether function `f` is what reference `r` names.
pub open spec fn matches_reference(f: Function, r: CallReference) -> bool {
    if starts_with(r.raw@, "@"@) {
        symbol_text(f) == r.raw@
    } else {
        &&& (r.module.is_some() ==> r.module.unwrap()@ == f.module@)
        &&& f.name@ == r.name@
        &&& (r.version.is_some() ==> r.version.unwrap()@ == f.version@)
    }
}

/// A function's full symbol, parsed as a call reference, names that function.
pub proof fn law_symbol_reference_round_trip(f: Function, r: CallReference)
    requires
        parsed_reference(r, symbol_text(f)),
    ensures
        matches_reference(f, r),
{
    reveal_strlit("@");
    assert(symbol_text(f).take(1) =~= "@"@);
}

/// A function's symbol parses back to exactly its module, name and version, when its name
/// holds no dot and its version is a version such as `v1`.
pub proof fn law_symbol_parses_back(f: Function, r: CallReference)
    requires
        parsed_reference(r, symbol_text(f)),
        !f.name@.contains('.'),
        valid_version(f.version@),
    ensures
        r.raw@ == symbol_text(f),
        opt_view(r.module) == Some(f.module@),
        r.name@ == f.name@,
        opt_view(r.version) == Some(f.version@),
{
    let m = f.module@;
    let n = f.name@;
    let v = f.version@;
    let body = m + seq!['.'] + n + seq!['.'] + v;
    assert(symbol_part(symbol_text(f)) =~= body);
    assert(!v.contains('.')) by {
        if v.contains('.') {
            let j = choose|j: int| 0 <= j < v.len() && v[j] == '.';
            if j > 0 {
                assert(is_digit(v[j]));
            }
        }
    }
    crate::text::lemma_split_concat(m, n + seq!['.'] + v, '.');
    assert(body =~= m + seq!['.'] + (n + seq!['.'] + v));
    crate::text::lemma_split_concat(n, v, '.');
    crate::text::lemma_split_single(n, '.');
    crate::text::lemma_split_single(v, '.');
    lemma_split_len(m, '.');
    crate::text::lemma_join_split(m, '.');
    let parts = split_spec(body, '.');
    let sm = split_spec(m, '.');
    assert(parts =~= sm + seq![n] + seq![v]);
    let k = parts.len();
    assert(parts[k - 1] == v);
    assert(parts[k - 2] == n);
    assert(parts.take(k - 2) =~= sm);
    assert(seq!['.'] =~= "."@) by {
        reveal_strlit(".");
    }
}

proof fn lemma_matching_unique(fs: Seq<Function>, k: int, n: int)
    requires
        0 <= k < fs.len(),
        0 <= n <= fs.len(),
        forall|j: int| 0 <= j < fs.len() && j != k ==> symbol_text(#[trigger] fs[j]) != symbol_text(fs[k]),
    ensures
        matching(fs.take(n), symbol_text(fs[k])) == (if k < n { seq![fs[k]] } else { Seq::<Function>::empty() }),
    decreases n,
{
    reveal_strlit("@");
    let sym = symbol_text(fs[k]);
    assert(sym.take(1) =~= "@"@);
    if n > 0 {
        lemma_matching_unique(fs, k, n - 1);
        assert(fs.take(n).drop_last() =~= fs.take(n - 1));
        assert(fs.take(n).last() == fs[n - 1]);
    } else {
        assert(fs.take(0) =~= Seq::<Function>::empty());
    }
}

/// A function whose symbol no other function of the program shares is what its symbol
/// resolves to.
pub proof fn law_unique_symbol_resolves(fs: Seq<Function>, ins: Seq<Function>, k: int, res: Result<Function, String>)
    requires
        0 <= k < fs.len(),
        forall|j: int| 0 <= j < fs.len() && j != k ==> symbol_text(#[trigger] fs[j]) != symbol_text(fs[k]),
        resolves_to(res, symbol_text(fs[k]), fs, ins),
    ensures
        res is Ok,
        same_function(res->Ok_0, fs[k]),
{
    lemma_matching_unique(fs, k, fs.len() as int);
    assert(fs.take(fs.len() as int) =~= fs);
}

/// Whether function `f` is what reference text `text` names.
pub open spec fn matches_text(f: Function, text: Seq<char>) -> bool {
    let (m, n, v) = reference_parts(text);
    if starts_with(text, "@"@) {
        symbol_text(f) == text
    } else {
        &&& (m.is_some() ==> m.unwrap() == f.module@)
        &&& f.name@ == n
        &&& (v.is_some() ==> v.unwrap() == f.version@)
    }
}

fn function_matches_reference(function: &Function, reference: &CallReference) -> (res: bool)
    ensures
        res == matches_reference(*function, *reference),
{
    let raw = chars_of(reference.raw.as_str());
    if has_prefix_str(&raw, "@") {
        let s = function.symbol();
        return s == reference.raw;
    }
    if let Some(module) = &reference.module {
        if *module != function.module {
            return false;
        }
    }
    if function.name != reference.name {
        return false;
    }
    if let Some(version) = &reference.version {
        return *version == function.version;
    }
    true
}

/// The functions that reference `r` names, in order.
pub open spec fn matching(fs: Seq<Function>, text: Seq<char>) -> Seq<Function>
    decreases fs.len(),
{
    if fs.len() == 0 {
        seq![]
    } else if matches_text(fs.last(), text) {
        matching(fs.drop_last(), text).push(fs.last())
    } else {
        matching(fs.drop_last(), text)
    }
}

/// The message for a reference that names several functions.
pub open spec fn ambiguous_message(text: Seq<char>, many: Seq<Function>) -> Seq<char> {
    "Ambiguous function `"@ + text + "` resolves to "@ + decimal(many.len()) + " candidates: "@
        + join_spec(many.map_values(|f: Function| symbol_text(f)), ", "@) + "."@
}

/// How a reference resolves against the program's functions, then the intrinsics.
pub open spec fn resolves_to(
    res: Result<Function, String>,
    text: Seq<char>,
    fs: Seq<Function>,
    intrinsics: Seq<Function>,
) -> bool {
    let m = matching(fs, text);
    let im = matching(intrinsics, text);
    if m.len() == 1 {
        res is Ok && same_function(res->Ok_0, m[0])
    } else if m.len() > 1 {
        res is Err && res->Err_0@ == ambiguous_message(text, m)
    } else if im.len() == 1 {
        res is Ok && same_function(res->Ok_0, im[0])
    } else if im.len() > 1 {
        res is Err && res->Err_0@ == ambiguous_message(text, im)
    } else {
        res is Err && res->Err_0@ == "Unknown function `"@ + text + "`."@
    }
}

fn matching_indices(fs: &[Function], r: &CallReference) -> (res: Vec<usize>)
    requires
        parsed_reference(*r, r.raw@),
    ensures
        res@.len() == matching(fs@, r.raw@).len(),
        forall|k: int|
            0 <= k < res@.len() ==> res@[k] < fs@.len() && fs@[#[trigger] res@[k] as int]
                == matching(fs@, r.raw@)[k],
{
    let mut res: Vec<usize> = Vec::new();
    let mut i: usize = 0;
    while i < fs.len()
        invariant
            i <= fs@.len(),
            parsed_reference(*r, r.raw@),
            res@.len() == matching(fs@.take(i as int), r.raw@).len(),
            forall|k: int|
                0 <= k < res@.len() ==> res@[k] < i && fs@[#[trigger] res@[k] as int] == matching(
                    fs@.take(i as int),
                    r.raw@,
                )[k],
        decreases fs@.len() - i,
    {
        proof {
            assert(fs@.take(i + 1).drop_last() =~= fs@.take(i as int));
            assert(fs@.take(i + 1).last() == fs@[i as int]);
        }
        if function_matches_reference(&fs[i], r) {
            res.push(i);
        }
        i += 1;
    }
    assert(fs@.take(fs@.len() as int) =~= fs@);
    res
}

fn ambiguity_error(text: &str, fs: &[Function], idx: &Vec<usize>, ghost_many: Ghost<Seq<Function>>) -> (res: String)
    requires
        idx@.len() == ghost_many@.len(),
        forall|k: int| 0 <= k < idx@.len() ==> idx@[k] < fs@.len() && fs@[#[trigger] idx@[k] as int] == ghost_many@[k],
    ensures
        res@ == ambiguous_message(text@, ghost_many@),
{
    let mut syms: Vec<String> = Vec::new();
    let mut k: usize = 0;
    while k < idx.len()
        invariant
            k <= idx@.len(),
            idx@.len() == ghost_many@.len(),
            forall|j: int| 0 <= j < idx@.len() ==> idx@[j] < fs@.len() && fs@[#[trigger] idx@[j] as int] == ghost_many@[j],
            syms@.len() == k,
            forall|j: int| 0 <= j < k ==> #[trigger] syms@[j]@ == symbol_text(ghost_many@[j]),
        decreases idx@.len() - k,
    {
        syms.push(fs[idx[k]].symbol());
        k += 1;
    }
    let joined = crate::text::join_strings(&syms, ", ");
    assert(syms@.map_values(|p: String| p@) =~= ghost_many@.map_values(|f: Function| symbol_text(f)));
    let mut m = crate::text::owned("Ambiguous function `");
    m.append(text);
    m.append("` resolves to ");
    let count = usize_text(idx.len());
    m.append(count.as_str());
    m.append(" candidates: ");
    m.append(joined.as_str());
    m.append(".");
    m
}

/// Resolves a reference against the program's functions, then the given intrinsics.
pub fn resolve_in(reference_text: &str, functions: &[Function], intrinsics: &[Function]) -> (res: Result<Function, String>)
    ensures
        resolves_to(res, reference_text@, functions@, intrinsics@),
{
    let reference = CallReference::parse(reference_text);
    let idx = matching_indices(functions, &reference);
    if idx.len() == 1 {
        let r = Ok(functions[idx[0]].copy());
        assert(resolves_to(r, reference_text@, functions@, intrinsics@));
        return r;
    }
    if idx.len() > 1 {
        let r = Err(ambiguity_error(reference_text, functions, &idx, Ghost(matching(functions@, reference.raw@))));
        assert(resolves_to(r, reference_text@, functions@, intrinsics@));
        return r;
    }
    let jdx = matching_indices(intrinsics, &reference);
    if jdx.len() == 1 {
        let r = Ok(intrinsics[jdx[0]].copy());
        assert(resolves_to(r, reference_text@, functions@, intrinsics@));
        return r;
    }
    if jdx.len() > 1 {
        let r = Err(ambiguity_error(reference_text, intrinsics, &jdx, Ghost(matching(intrinsics@, reference.raw@))));
        assert(resolves_to(r, reference_text@, functions@, intrinsics@));
        return r;
    }
    let mut m = crate::text::owned("Unknown function `");
    m.append(reference_text);
    m.append("`.");
    let r = Err(m);
    assert(resolves_to(r, reference_text@, functions@, intrinsics@));
    r
}

/// Finds the one function a reference names: among the program's functions first, then
/// among the intrinsics.
pub fn resolve_function(reference_text: &str, functions: &[Function]) -> (res: Result<Function, String>)
    ensures
        exists|ins: Seq<Function>|
            is_intrinsic_list(ins) && resolves_to(res, reference_text@, functions@, ins),
{
    let intrinsics = intrinsic_functions();
    resolve_in(reference_text, functions, intrinsics.as_slice())
}

/// The function a reference resolves to, if it resolves.
pub open spec fn resolution(fs: Seq<Function>, ins: Seq<Function>, text: Seq<char>) -> Option<Function> {
    let m = matching(fs, text);
    let im = matching(ins, text);
    if m.len() == 1 {
        Some(m[0])
    } else if m.len() > 1 {
        None
    } else if im.len() == 1 {
        Some(im[0])
    } else {
        None
    }
}

pub proof fn lemma_resolution(res: Result<Function, String>, text: Seq<char>, fs: Seq<Function>, ins: Seq<Function>)
    requires
        resolves_to(res, text, fs, ins),
    ensures
        res is Ok <==> resolution(fs, ins, text) is Some,
        res is Ok ==> same_function(res->Ok_0, resolution(fs, ins, text)->0),
{
}


// ---------------------------------------------------------------------------
// Tokens
// ---------------------------------------------------------------------------
#[derive(Clone, Debug, PartialEq, Eq)]
pub enum Token {
    Int(i64),
    Text(String),
    Unit,
    Ident(String),
    True,
    False,
    If,
    Then,
    Else,
    Match,
    Let,
    Update,
    While,
    Do,
    With,
    And,
    Or,
    Not,
    Plus,
    Minus,
    Star,
    SlashSlash,
    Percent,
    EqEq,
    NotEq,
    Lt,
    LtEq,
    Gt,
    GtEq,
    Arrow,
    Assign,
    Semicolon,
    LParen,
    RParen,
    LBracket,
    RBracket,
    LBrace,
    RBrace,
    Comma,
    Colon,
    Dot,
}

/// A token as the specification sees it: text payloads as character sequences.
pub enum SpecToken {
    Int(int),
    Text(Seq<char>),
    Ident(Seq<char>),
    /// Any payload-free token, given by its exec form.
    Plain(Token),
}

impl View for Token {
    type V = SpecToken;

    open spec fn view(&self) -> SpecToken {
        match self {
            Token::Int(v) => SpecToken::Int(*v as int),
            Token::Text(s) => SpecToken::Text(s@),
            Token::Ident(s) => SpecToken::Ident(s@),
            _ => SpecToken::Plain(*self),
        }
    }
}

pub open spec fn token_views(ts: Seq<Token>) -> Seq<SpecToken> {
    ts.map_values(|t: Token| t@)
}

/// The token a word stands for: a keyword, or else an identifier.
pub open spec fn word_token(w: Seq<char>) -> SpecToken {
    if w == "true"@ {
        SpecToken::Plain(Token::True)
    } else if w == "false"@ {
        SpecToken::Plain(Token::False)
    } else if w == "if"@ {
        SpecToken::Plain(Token::If)
    } else if w == "then"@ {
        SpecToken::Plain(Token::Then)
    } else if w == "else"@ {
        SpecToken::Plain(Token::Else)
    } else if w == "match"@ {
        SpecToken::Plain(Token::Match)
    } else if w == "let"@ {
        SpecToken::Plain(Token::Let)
    } else if w == "set"@ {
        SpecToken::Plain(Token::Update)
    } else if w == "while"@ {
        SpecToken::Plain(Token::While)
    } else if w == "do"@ {
        SpecToken::Plain(Token::Do)
    } else if w == "with"@ {
        SpecToken::Plain(Token::With)
    } else if w == "and"@ {
        SpecToken::Plain(Token::And)
    } else if w == "or"@ {
        SpecToken::Plain(Token::Or)
    } else if w == "not"@ {
        SpecToken::Plain(Token::Not)
    } else if w == "unit"@ {
        SpecToken::Plain(Token::Unit)
    } else {
        SpecToken::Ident(w)
    }
}

/// Characters that continue a run: digits (0), identifier characters (1), or identifier
/// characters and dots (2).
pub open spec fn run_char(kind: int, c: char) -> bool {
    if kind == 0 {
        is_digit(c)
    } else if kind == 1 {
        is_alnum(c) || c == '_'
    } else {
        is_alnum(c) || c == '_' || c == '.'
    }
}

/// End of the run of `kind` characters starting at `i`.
pub open spec fn run_end(s: Seq<char>, i: int, kind: int) -> int
    decreases s.len() - i,
{
    if 0 <= i < s.len() && run_char(kind, s[i]) {
        run_end(s, i + 1, kind)
    } else {
        i
    }
}

pub proof fn lemma_run_end(s: Seq<char>, i: int, kind: int)
    requires
        0 <= i <= s.len(),
    ensures
        i <= run_end(s, i, kind) <= s.len(),
        forall|j: int| i <= j < run_end(s, i, kind) ==> run_char(kind, #[trigger] s[j]),
    decreases s.len() - i,
{
    if i < s.len() && run_char(kind, s[i]) {
        lemma_run_end(s, i + 1, kind);
    }
}

/// The value of a run of decimal digits.
pub open spec fn digits_value(d: Seq<char>) -> int
    decreases d.len(),
{
    if d.len() == 0 {
        0
    } else {
        digits_value(d.drop_last()) * 10 + (d.last() as int - '0' as int)
    }
}

/// A string literal body starting at `i`: its text and the index after the closing quote.
pub open spec fn scan_text(s: Seq<char>, i: int) -> Result<(Seq<char>, int), Seq<char>>
    decreases s.len() - i,
{
    if i < 0 || i >= s.len() {
        Err("Unterminated string literal."@)
    } else if s[i] == '"' {
        Ok((seq![], i + 1))
    } else if s[i] == '\\' {
        if i + 1 >= s.len() {
            Err("Unterminated string escape."@)
        } else {
            match scan_text(s, i + 2) {
                Ok((t, e)) => Ok((seq![s[i + 1]] + t, e)),
                Err(m) => Err(m),
            }
        }
    } else {
        match scan_text(s, i + 1) {
            Ok((t, e)) => Ok((seq![s[i]] + t, e)),
            Err(m) => Err(m),
        }
    }
}

pub proof fn lemma_scan_text(s: Seq<char>, i: int)
    requires
        0 <= i,
    ensures
        scan_text(s, i) is Ok ==> i < scan_text(s, i)->Ok_0.1 <= s.len(),
    decreases s.len() - i,
{
    if 0 <= i < s.len() {
        if s[i] == '\\' && i + 1 < s.len() {
            lemma_scan_text(s, i + 2);
        } else if s[i] != '"' && s[i] != '\\' {
            lemma_scan_text(s, i + 1);
        }
    }
}

/// One lexing step at index `i`: skip a character, emit a token and advance past it, or
/// fail.
pub enum Lexed {
    Skip,
    Emit(SpecToken, int),
    Fail(Seq<char>),
}

pub open spec fn next_is(s: Seq<char>, i: int, c: char) -> bool {
    i + 1 < s.len() && s[i + 1] == c
}

pub open spec fn unexpected(c: char) -> Seq<char> {
    "Unexpected character `"@ + seq![c] + "`."@
}

/// Operators and punctuation at `i`.
pub open spec fn punct_step(s: Seq<char>, i: int) -> Lexed {
    let c = s[i];
    let one = |t: Token| Lexed::Emit(SpecToken::Plain(t), i + 1);
    let two = |t: Token| Lexed::Emit(SpecToken::Plain(t), i + 2);
    if c == '+' {
        one(Token::Plus)
    } else if c == '-' {
        if next_is(s, i, '>') { two(Token::Arrow) } else { one(Token::Minus) }
    } else if c == '*' {
        one(Token::Star)
    } else if c == '%' {
        one(Token::Percent)
    } else if c == '(' {
        one(Token::LParen)
    } else if c == ')' {
        one(Token::RParen)
    } else if c == '[' {
        one(Token::LBracket)
    } else if c == ']' {
        one(Token::RBracket)
    } else if c == '{' {
        one(Token::LBrace)
    } else if c == '}' {
        one(Token::RBrace)
    } else if c == ',' {
        one(Token::Comma)
    } else if c == ':' {
        one(Token::Colon)
    } else if c == '.' {
        one(Token::Dot)
    } else if c == ';' {
        one(Token::Semicolon)
    } else if c == '/' && next_is(s, i, '/') {
        two(Token::SlashSlash)
    } else if c == '=' {
        if next_is(s, i, '=') { two(Token::EqEq) } else { one(Token::Assign) }
    } else if c == '!' && next_is(s, i, '=') {
        two(Token::NotEq)
    } else if c == '<' {
        if next_is(s, i, '=') { two(Token::LtEq) } else { one(Token::Lt) }
    } else if c == '>' {
        if next_is(s, i, '=') { two(Token::GtEq) } else { one(Token::Gt) }
    } else {
        Lexed::Fail(unexpected(c))
    }
}

pub open spec fn int_too_large() -> Seq<char> {
    "Invalid integer literal: number too large to fit in target type"@
}

/// The lexing step at index `i` (which is inside `s`).
pub open spec fn lex_step(s: Seq<char>, i: int) -> Lexed {
    let c = s[i];
    if is_ws(c) {
        Lexed::Skip
    } else if is_digit(c) {
        let e = run_end(s, i + 1, 0);
        let v = digits_value(s.subrange(i, e));
        if v <= i64::MAX {
            Lexed::Emit(SpecToken::Int(v), e)
        } else {
            Lexed::Fail(int_too_large())
        }
    } else if c == '"' {
        match scan_text(s, i + 1) {
            Ok((t, e)) => Lexed::Emit(SpecToken::Text(t), e),
            Err(m) => Lexed::Fail(m),
        }
    } else if c == '@' {
        let e = run_end(s, i + 1, 2);
        let id = s.subrange(i, e);
        if id.len() == 1 || id.last() == '.' {
            Lexed::Fail("Invalid qualified identifier `"@ + id + "`."@)
        } else {
            Lexed::Emit(SpecToken::Ident(id), e)
        }
    } else if is_alpha(c) || c == '_' {
        let e = run_end(s, i + 1, 1);
        Lexed::Emit(word_token(s.subrange(i, e)), e)
    } else {
        punct_step(s, i)
    }
}

pub proof fn lemma_lex_step(s: Seq<char>, i: int)
    requires
        0 <= i < s.len(),
    ensures
        lex_step(s, i) matches Lexed::Emit(_, e) ==> i < e <= s.len(),
{
    lemma_run_end(s, i + 1, 0);
    lemma_run_end(s, i + 1, 1);
    lemma_run_end(s, i + 1, 2);
    lemma_scan_text(s, i + 1);
}

/// The tokens of `s` from index `i` on, or the first lexing error.
pub open spec fn lex_from(s: Seq<char>, i: int) -> Result<Seq<SpecToken>, Seq<char>>
    decreases s.len() - i,
{
    if i < 0 || i >= s.len() {
        Ok(seq![])
    } else {
        proof {
            lemma_lex_step(s, i);
        }
        match lex_step(s, i) {
            Lexed::Skip => lex_from(s, i + 1),
            Lexed::Emit(t, e) => match lex_from(s, e) {
                Ok(rest) => Ok(seq![t] + rest),
                Err(m) => Err(m),
            },
            Lexed::Fail(m) => Err(m),
        }
    }
}

/// The tokens of an expression, or the first lexing error.
pub open spec fn lex(s: Seq<char>) -> Result<Seq<SpecToken>, Seq<char>> {
    lex_from(s, 0)
}

pub open spec fn prepend(p: Seq<SpecToken>, r: Result<Seq<SpecToken>, Seq<char>>) -> Result<
    Seq<SpecToken>,
    Seq<char>,
> {
    match r {
        Ok(t) => Ok(p + t),
        Err(m) => Err(m),
    }
}

fn run_end_exec(s: &Vec<char>, i: usize, kind: u8) -> (e: usize)
    requires
        i <= s@.len(),
        kind <= 2,
    ensures
        e == run_end(s@, i as int, kind as int),
        i <= e <= s@.len(),
{
    proof {
        lemma_run_end(s@, i as int, kind as int);
    }
    let mut j = i;
    while j < s.len()
        invariant
            i <= j <= s@.len(),
            kind <= 2,
            run_end(s@, j as int, kind as int) == run_end(s@, i as int, kind as int),
        decreases s@.len() - j,
    {
        let c = s[j];
        let ok = if kind == 0 {
            crate::text::ascii_digit(c)
        } else if kind == 1 {
            crate::text::ascii_alnum(c) || c == '_'
        } else {
            crate::text::ascii_alnum(c) || c == '_' || c == '.'
        };
        if !ok {
            return j;
        }
        j += 1;
    }
    j
}

proof fn lemma_digits_value_mono(d: Seq<char>, k: int)
    requires
        0 <= k <= d.len(),
        forall|j: int| 0 <= j < d.len() ==> is_digit(#[trigger] d[j]),
    ensures
        digits_value(d) >= digits_value(d.take(k)),
        digits_value(d) >= 0,
    decreases d.len(),
{
    if d.len() > 0 {
        if k == d.len() {
            assert(d.take(k) =~= d);
            lemma_digits_value_mono(d.drop_last(), 0);
        } else {
            assert(d.drop_last().take(k) =~= d.take(k));
            lemma_digits_value_mono(d.drop_last(), k);
        }
    } else {
        assert(d.take(k) =~= d);
    }
}

fn digits_exec(s: &Vec<char>, start: usize, end: usize) -> (res: Option<i64>)
    requires
        start <= end <= s@.len(),
        forall|j: int| start <= j < end ==> is_digit(#[trigger] s@[j]),
    ensures
        match res {
            Some(v) => v as int == digits_value(s@.subrange(start as int, end as int)),
            None => digits_value(s@.subrange(start as int, end as int)) > i64::MAX,
        },
{
    let mut v: i64 = 0;
    let mut k = start;
    assert(s@.subrange(start as int, start as int) =~= Seq::<char>::empty());
    while k < end
        invariant
            start <= k <= end <= s@.len(),
            forall|j: int| start <= j < end ==> is_digit(#[trigger] s@[j]),
            0 <= v,
            v as int == digits_value(s@.subrange(start as int, k as int)),
        decreases end - k,
    {
        let d: i64 = (s[k] as u32 - '0' as u32) as i64;
        proof {
            assert(s@.subrange(start as int, k + 1).drop_last() =~= s@.subrange(start as int, k as int));
            assert(is_digit(s@[k as int]));
        }
        if v > (i64::MAX - d) / 10 {
            proof {
                let full = s@.subrange(start as int, end as int);
                assert(full.take(k + 1 - start) =~= s@.subrange(start as int, k + 1));
                assert forall|j: int| 0 <= j < full.len() implies is_digit(#[trigger] full[j]) by {
                    assert(full[j] == s@[start + j]);
                }
                lemma_digits_value_mono(full, k + 1 - start);
                assert(v * 10 + d > i64::MAX) by (nonlinear_arith)
                    requires v > (i64::MAX - d) / 10, 0 <= d <= 9;
            }
            return None;
        }
        proof {
            assert(v * 10 + d <= i64::MAX) by (nonlinear_arith)
                requires v <= (i64::MAX - d) / 10, 0 <= d <= 9, 0 <= v;
        }
        v = v * 10 + d;
        k += 1;
    }
    Some(v)
}

fn scan_text_exec(s: &Vec<char>, i: usize) -> (res: Result<(Vec<char>, usize), String>)
    requires
        i <= s@.len(),
    ensures
        match (res, scan_text(s@, i as int)) {
            (Ok((t, e)), Ok((ts, es))) => t@ == ts && e as int == es,
            (Err(m), Err(ms)) => m@ == ms,
            _ => false,
        },
{
    let mut out: Vec<char> = Vec::new();
    let mut k = i;
    loop
        invariant
            i <= k <= s@.len(),
            match scan_text(s@, i as int) {
                Ok((ts, es)) => scan_text(s@, k as int) is Ok && ts == out@ + scan_text(
                    s@,
                    k as int,
                )->Ok_0.0 && es == scan_text(s@, k as int)->Ok_0.1,
                Err(ms) => scan_text(s@, k as int) == Err::<(Seq<char>, int), Seq<char>>(ms),
            },
        decreases s@.len() - k,
    {
        if k >= s.len() {
            return Err(crate::text::owned("Unterminated string literal."));
        }
        let c = s[k];
        if c == '"' {
            assert(out@ + Seq::<char>::empty() =~= out@);
            return Ok((out, k + 1));
        }
        if c == '\\' {
            if k + 1 >= s.len() {
                return Err(crate::text::owned("Unterminated string escape."));
            }
            let ghost before = out@;
            out.push(s[k + 1]);
            proof {
                if scan_text(s@, i as int) is Ok {
                    let rest = scan_text(s@, k + 2)->Ok_0.0;
                    assert(before + (seq![s@[k + 1]] + rest) =~= out@ + rest);
                }
            }
            k += 2;
        } else {
            let ghost before = out@;
            out.push(c);
            proof {
                if scan_text(s@, i as int) is Ok {
                    let rest = scan_text(s@, k + 1)->Ok_0.0;
                    assert(before + (seq![c] + rest) =~= out@ + rest);
                }
            }
            k += 1;
        }
    }
}

fn word_token_exec(w: Vec<char>) -> (t: Token)
    ensures
        t@ == word_token(w@),
{
    let s = string_of(&w);
    let r = s.as_str();
    if str_eq(r, "true") {
        Token::True
    } else if str_eq(r, "false") {
        Token::False
    } else if str_eq(r, "if") {
        Token::If
    } else if str_eq(r, "then") {
        Token::Then
    } else if str_eq(r, "else") {
        Token::Else
    } else if str_eq(r, "match") {
        Token::Match
    } else if str_eq(r, "let") {
        Token::Let
    } else if str_eq(r, "set") {
        Token::Update
    } else if str_eq(r, "while") {
        Token::While
    } else if str_eq(r, "do") {
        Token::Do
    } else if str_eq(r, "with") {
        Token::With
    } else if str_eq(r, "and") {
        Token::And
    } else if str_eq(r, "or") {
        Token::Or
    } else if str_eq(r, "not") {
        Token::Not
    } else if str_eq(r, "unit") {
        Token::Unit
    } else {
        Token::Ident(s)
    }
}

fn lex_step_exec(s: &Vec<char>, i: usize) -> (res: Result<Option<(Token, usize)>, String>)
    requires
        i < s@.len(),
    ensures
        match (res, lex_step(s@, i as int)) {
            (Ok(None), Lexed::Skip) => true,
            (Ok(Some((t, e))), Lexed::Emit(ts, es)) => t@ == ts && e as int == es,
            (Err(m), Lexed::Fail(ms)) => m@ == ms,
            _ => false,
        },
{
    let n = s.len();
    let c = s[i];
    if whitespace(c) {
        return Ok(None);
    }
    if crate::text::ascii_digit(c) {
        let e = run_end_exec(s, i + 1, 0);
        proof {
            lemma_run_end(s@, i + 1, 0);
        }
        return match digits_exec(s, i, e) {
            Some(v) => Ok(Some((Token::Int(v), e))),
            None => Err(crate::text::owned("Invalid integer literal: number too large to fit in target type")),
        };
    }
    if c == '"' {
        return match scan_text_exec(s, i + 1) {
            Ok((t, e)) => Ok(Some((Token::Text(string_of(&t)), e))),
            Err(m) => Err(m),
        };
    }
    if c == '@' {
        let e = run_end_exec(s, i + 1, 2);
        let id = crate::text::slice_chars(s, i, e);
        if id.len() == 1 || id[id.len() - 1] == '.' {
            let mut m = crate::text::owned("Invalid qualified identifier `");
            crate::text::append_chars(&mut m, &id);
            m.append("`.");
            return Err(m);
        }
        return Ok(Some((Token::Ident(string_of(&id)), e)));
    }
    if crate::text::ascii_alpha(c) || c == '_' {
        let e = run_end_exec(s, i + 1, 1);
        let w = crate::text::slice_chars(s, i, e);
        return Ok(Some((word_token_exec(w), e)));
    }
    let next_gt = i + 1 < s.len() && s[i + 1] == '>';
    let next_eq = i + 1 < s.len() && s[i + 1] == '=';
    let next_slash = i + 1 < s.len() && s[i + 1] == '/';
    let (t, w): (Token, usize) = if c == '+' {
        (Token::Plus, 1)
    } else if c == '-' {
        if next_gt { (Token::Arrow, 2) } else { (Token::Minus, 1) }
    } else if c == '*' {
        (Token::Star, 1)
    } else if c == '%' {
        (Token::Percent, 1)
    } else if c == '(' {
        (Token::LParen, 1)
    } else if c == ')' {
        (Token::RParen, 1)
    } else if c == '[' {
        (Token::LBracket, 1)
    } else if c == ']' {
        (Token::RBracket, 1)
    } else if c == '{' {
        (Token::LBrace, 1)
    } else if c == '}' {
        (Token::RBrace, 1)
    } else if c == ',' {
        (Token::Comma, 1)
    } else if c == ':' {
        (Token::Colon, 1)
    } else if c == '.' {
        (Token::Dot, 1)
    } else if c == ';' {
        (Token::Semicolon, 1)
    } else if c == '/' && next_slash {
        (Token::SlashSlash, 2)
    } else if c == '=' {
        if next_eq { (Token::EqEq, 2) } else { (Token::Assign, 1) }
    } else if c == '!' && next_eq {
        (Token::NotEq, 2)
    } else if c == '<' {
        if next_eq { (Token::LtEq, 2) } else { (Token::Lt, 1) }
    } else if c == '>' {
        if next_eq { (Token::GtEq, 2) } else { (Token::Gt, 1) }
    } else {
        let mut m = crate::text::owned("Unexpected character `");
        crate::text::push_char(&mut m, c);
        m.append("`.");
        assert(m@ =~= unexpected(c));
        return Err(m);
    };
    Ok(Some((t, i + w)))
}

/// Splits an expression into tokens.
pub fn tokenize(expression: &str) -> (res: Result<Vec<Token>, String>)
    ensures
        match (res, lex(expression@)) {
            (Ok(ts), Ok(spec)) => token_views(ts@) == spec,
            (Err(m), Err(ms)) => m@ == ms,
            _ => false,
        },
{
    let s = chars_of(expression);
    let mut tokens: Vec<Token> = Vec::new();
    let mut i: usize = 0;
    assert(token_views(tokens@) =~= Seq::<SpecToken>::empty());
    while i < s.len()
        invariant
            i <= s@.len(),
            s@ == expression@,
            lex(s@) == prepend(token_views(tokens@), lex_from(s@, i as int)),
        decreases s@.len() - i,
    {
        proof {
            lemma_lex_step(s@, i as int);
        }
        match lex_step_exec(&s, i) {
            Ok(None) => {
                i += 1;
            },
            Ok(Some((t, e))) => {
                let ghost before = token_views(tokens@);
                tokens.push(t);
                proof {
                    assert(token_views(tokens@) =~= before.push(t@));
                    match lex_from(s@, e as int) {
                        Ok(rest) => {
                            assert(before + (seq![t@] + rest) =~= before.push(t@) + rest);
                        },
                        Err(_) => {},
                    }
                }
                i = e;
            },
            Err(m) => {
                return Err(m);
            },
        }
    }
    proof {
        assert(token_views(tokens@) + Seq::<SpecToken>::empty() =~= token_views(tokens@));
    }
    Ok(tokens)
}


// ---------------------------------------------------------------------------
// Match bodies and branches
// ---------------------------------------------------------------------------
/// Index of the `{` that opens a match body, scanning from `i` with the given depths.
pub open spec fn body_start_from(ts: Seq<Token>, i: int, paren: int, bracket: int) -> Result<
    int,
    Seq<char>,
>
    decreases ts.len() - i,
{
    if i < 0 || i >= ts.len() {
        Err("Expected `{` after match expression."@)
    } else {
        match ts[i] {
            Token::LParen => body_start_from(ts, i + 1, paren + 1, bracket),
            Token::LBracket => body_start_from(ts, i + 1, paren, bracket + 1),
            Token::RParen => if paren == 0 {
                Err("Unexpected `)` before match body."@)
            } else {
                body_start_from(ts, i + 1, paren - 1, bracket)
            },
            Token::RBracket => if bracket == 0 {
                Err("Unexpected `]` before match body."@)
            } else {
                body_start_from(ts, i + 1, paren, bracket - 1)
            },
            Token::LBrace => if paren == 0 && bracket == 0 {
                Ok(i)
            } else {
                body_start_from(ts, i + 1, paren, bracket)
            },
            _ => body_start_from(ts, i + 1, paren, bracket),
        }
    }
}

/// Finds the `{` that opens the body of a match, outside any parentheses or brackets.
pub fn find_match_body_start(tokens: &[Token], start: usize) -> (res: Result<usize, String>)
    requires
        start <= tokens@.len(),
    ensures
        match (res, body_start_from(tokens@, start as int, 0, 0)) {
            (Ok(i), Ok(si)) => i as int == si,
            (Err(m), Err(ms)) => m@ == ms,
            _ => false,
        },
{
    let mut paren: usize = 0;
    let mut bracket: usize = 0;
    let mut i = start;
    while i < tokens.len()
        invariant
            start <= i <= tokens@.len(),
            paren + bracket <= i - start,
            body_start_from(tokens@, i as int, paren as int, bracket as int) == body_start_from(
                tokens@,
                start as int,
                0,
                0,
            ),
        decreases tokens@.len() - i,
    {
        match &tokens[i] {
            Token::LParen => {
                paren += 1;
            },
            Token::LBracket => {
                bracket += 1;
            },
            Token::RParen => {
                if paren == 0 {
                    return Err(crate::text::owned("Unexpected `)` before match body."));
                }
                paren -= 1;
            },
            Token::RBracket => {
                if bracket == 0 {
                    return Err(crate::text::owned("Unexpected `]` before match body."));
                }
                bracket -= 1;
            },
            Token::LBrace => {
                if paren == 0 && bracket == 0 {
                    return Ok(i);
                }
            },
            _ => {},
        }
        i += 1;
    }
    Err(crate::text::owned("Expected `{` after match expression."))
}

/// Index of the `,` or `}` that ends a match branch, scanning from `i` with the given
/// depths.
pub open spec fn branch_end_from(ts: Seq<Token>, i: int, paren: int, bracket: int, brace: int) -> Result<
    int,
    Seq<char>,
>
    decreases ts.len() - i,
{
    if i < 0 || i >= ts.len() {
        Err("Expected `,` or `}` after match branch expression."@)
    } else {
        let top = paren == 0 && bracket == 0 && brace == 0;
        match ts[i] {
            Token::LParen => branch_end_from(ts, i + 1, paren + 1, bracket, brace),
            Token::LBracket => branch_end_from(ts, i + 1, paren, bracket + 1, brace),
            Token::RParen => if paren == 0 {
                Err("Unexpected `)` in match branch."@)
            } else {
                branch_end_from(ts, i + 1, paren - 1, bracket, brace)
            },
            Token::RBracket => if bracket == 0 {
                Err("Unexpected `]` in match branch."@)
            } else {
                branch_end_from(ts, i + 1, paren, bracket - 1, brace)
            },
            Token::LBrace => branch_end_from(ts, i + 1, paren, bracket, brace + 1),
            Token::RBrace => if top {
                Ok(i)
            } else if brace == 0 {
                Err("Unexpected `}` in match branch."@)
            } else {
                branch_end_from(ts, i + 1, paren, bracket, brace - 1)
            },
            Token::Comma => if top {
                Ok(i)
            } else {
                branch_end_from(ts, i + 1, paren, bracket, brace)
            },
            _ => branch_end_from(ts, i + 1, paren, bracket, brace),
        }
    }
}

/// Finds the `,` or `}` that ends a match branch, outside any nesting.
pub fn find_match_branch_end(tokens: &[Token], start: usize) -> (res: Result<usize, String>)
    requires
        start <= tokens@.len(),
    ensures
        match (res, branch_end_from(tokens@, start as int, 0, 0, 0)) {
            (Ok(i), Ok(si)) => i as int == si,
            (Err(m), Err(ms)) => m@ == ms,
            _ => false,
        },
{
    let mut paren: usize = 0;
    let mut bracket: usize = 0;
    let mut brace: usize = 0;
    let mut i = start;
    while i < tokens.len()
        invariant
            start <= i <= tokens@.len(),
            paren + bracket + brace <= i - start,
            branch_end_from(tokens@, i as int, paren as int, bracket as int, brace as int)
                == branch_end_from(tokens@, start as int, 0, 0, 0),
        decreases tokens@.len() - i,
    {
        let top = paren == 0 && bracket == 0 && brace == 0;
        match &tokens[i] {
            Token::LParen => {
                paren += 1;
            },
            Token::LBracket => {
                bracket += 1;
            },
            Token::RParen => {
                if paren == 0 {
                    return Err(crate::text::owned("Unexpected `)` in match branch."));
                }
                paren -= 1;
            },
            Token::RBracket => {
                if bracket == 0 {
                    return Err(crate::text::owned("Unexpected `]` in match branch."));
                }
                bracket -= 1;
            },
            Token::LBrace => {
                brace += 1;
            },
            Token::RBrace => {
                if top {
                    return Ok(i);
                }
                if brace == 0 {
                    return Err(crate::text::owned("Unexpected `}` in match branch."));
                }
                brace -= 1;
            },
            Token::Comma => {
                if top {
                    return Ok(i);
                }
            },
            _ => {},
        }
        i += 1;
    }
    Err(crate::text::owned("Expected `,` or `}` after match branch expression."))
}

// ---------------------------------------------------------------------------
// Called functions
// ---------------------------------------------------------------------------
/// A dotted name continued from `next`: `acc.part.part...` and the index after it.
pub open spec fn dotted_name(ts: Seq<SpecToken>, next: int, acc: Seq<char>) -> (Seq<char>, int)
    decreases ts.len() - next,
{
    if 0 <= next && next + 1 < ts.len() && ts[next] == SpecToken::Plain(Token::Dot)
        && ts[next + 1] is Ident {
        dotted_name(ts, next + 2, acc + "."@ + ts[next + 1]->Ident_0)
    } else {
        (acc, next)
    }
}

pub proof fn lemma_dotted_name(ts: Seq<SpecToken>, next: int, acc: Seq<char>)
    requires
        0 <= next <= ts.len(),
    ensures
        next <= dotted_name(ts, next, acc).1 <= ts.len(),
    decreases ts.len() - next,
{
    if 0 <= next && next + 1 < ts.len() && ts[next] == SpecToken::Plain(Token::Dot)
        && ts[next + 1] is Ident {
        lemma_dotted_name(ts, next + 2, acc + "."@ + ts[next + 1]->Ident_0);
    }
}

/// The call names found in tokens from `i` on, added to `calls` without repeats.
pub open spec fn scan_calls(ts: Seq<SpecToken>, i: int, calls: Seq<Seq<char>>) -> Seq<Seq<char>>
    decreases ts.len() - i,
{
    if i < 0 || i >= ts.len() {
        calls
    } else if ts[i] is Ident {
        let d = dotted_name(ts, i + 1, ts[i]->Ident_0);
        proof {
            lemma_dotted_name(ts, i + 1, ts[i]->Ident_0);
        }
        let name = d.0;
        let next = d.1;
        let is_call = next < ts.len() && ts[next] == SpecToken::Plain(Token::LParen);
        let calls2 = if is_call && !calls.contains(name) {
            calls.push(name)
        } else {
            calls
        };
        if next >= ts.len() {
            calls2
        } else {
            scan_calls(ts, next + 1, calls2)
        }
    } else {
        scan_calls(ts, i + 1, calls)
    }
}

/// The call names of an expression's lines from line `k` on, or the first lexing error.
pub open spec fn scan_lines(lines: Seq<Seq<char>>, k: int, calls: Seq<Seq<char>>) -> Result<
    Seq<Seq<char>>,
    Seq<char>,
>
    decreases lines.len() - k,
{
    if k < 0 || k >= lines.len() {
        Ok(calls)
    } else {
        match lex(lines[k]) {
            Err(m) => Err(m),
            Ok(ts) => scan_lines(lines, k + 1, scan_calls(ts, 0, calls)),
        }
    }
}

/// The names an expression calls, in first-call order.
pub open spec fn call_names(expression: Seq<char>) -> Result<Seq<Seq<char>>, Seq<char>> {
    scan_lines(lines_spec(expression), 0, seq![])
}

fn contains_name(calls: &Vec<CallReference>, name: &String) -> (res: bool)
    ensures
        res == exists|k: int| 0 <= k < calls@.len() && #[trigger] calls@[k].raw@ == name@,
{
    let mut i: usize = 0;
    while i < calls.len()
        invariant
            i <= calls@.len(),
            forall|k: int| 0 <= k < i ==> #[trigger] calls@[k].raw@ != name@,
        decreases calls@.len() - i,
    {
        if calls[i].raw == *name {
            return true;
        }
        i += 1;
    }
    false
}

pub open spec fn raw_names(calls: Seq<CallReference>) -> Seq<Seq<char>> {
    calls.map_values(|c: CallReference| c.raw@)
}

pub open spec fn all_parsed(calls: Seq<CallReference>) -> bool {
    forall|k: int| 0 <= k < calls.len() ==> parsed_reference(#[trigger] calls[k], calls[k].raw@)
}

fn scan_calls_exec(tokens: &Vec<Token>, calls: &mut Vec<CallReference>)
    requires
        all_parsed(old(calls)@),
    ensures
        all_parsed(final(calls)@),
        raw_names(final(calls)@) == scan_calls(token_views(tokens@), 0, raw_names(old(calls)@)),
{
    let ghost ts = token_views(tokens@);
    let mut i: usize = 0;
    while i < tokens.len()
        invariant
            ts == token_views(tokens@),
            i <= tokens@.len(),
            all_parsed(calls@),
            scan_calls(ts, 0, raw_names(old(calls)@)) == scan_calls(ts, i as int, raw_names(calls@)),
        decreases tokens@.len() - i,
    {
        match &tokens[i] {
            Token::Ident(first) => {
                let mut name = first.clone();
                let mut next = i + 1;
                proof {
                    lemma_dotted_name(ts, i + 1, ts[i as int]->Ident_0);
                }
                let last = tokens.len() - 1;
                while next < last
                    invariant
                        ts == token_views(tokens@),
                        last + 1 == tokens@.len(),
                        tokens@.len() <= usize::MAX,
                        i < next <= tokens@.len(),
                        dotted_name(ts, next as int, name@) == dotted_name(
                            ts,
                            i + 1,
                            ts[i as int]->Ident_0,
                        ),
                    ensures
                        i < next <= tokens@.len(),
                        dotted_name(ts, next as int, name@) == dotted_name(
                            ts,
                            i + 1,
                            ts[i as int]->Ident_0,
                        ),
                        dotted_name(ts, next as int, name@) == (name@, next as int),
                    decreases tokens@.len() - next,
                {
                    proof {
                        assert(ts[next as int] == tokens@[next as int]@);
                        assert(ts[next + 1] == tokens@[next + 1]@);
                    }
                    let is_dot = match &tokens[next] {
                        Token::Dot => true,
                        _ => false,
                    };
                    if !is_dot {
                        assert(ts[next as int] != SpecToken::Plain(Token::Dot));
                        break;
                    }
                    match &tokens[next + 1] {
                        Token::Ident(part) => {
                            let ghost before = name@;
                            crate::text::push_char(&mut name, '.');
                            name.append(part.as_str());
                            proof {
                                assert(name@ =~= before + "."@ + ts[next + 1]->Ident_0) by {
                                    reveal_strlit(".");
                                }
                            }
                        },
                        _ => {
                            assert(!(ts[next + 1] is Ident));
                            break;
                        },
                    }
                    next += 2;
                }
                let is_call = next < tokens.len() && match &tokens[next] {
                    Token::LParen => true,
                    _ => false,
                };
                if is_call && !contains_name(calls, &name) {
                    let ghost before = calls@;
                    let r = CallReference::parse(name.as_str());
                    calls.push(r);
                    proof {
                        assert(raw_names(calls@) =~= raw_names(before).push(name@));
                        if raw_names(before).contains(name@) {
                            let k = choose|k: int| 0 <= k < raw_names(before).len() && raw_names(before)[k] == name@;
                            assert(before[k].raw@ == name@);
                        }
                    }
                } else {
                    proof {
                        if is_call {
                            let k = choose|k: int| 0 <= k < calls@.len() && #[trigger] calls@[k].raw@ == name@;
                            assert(raw_names(calls@)[k] == name@);
                        }
                    }
                }
                if next < tokens.len() {
                    i = next + 1;
                } else {
                    i = next;
                }
            },
            _ => {
                i += 1;
            },
        }
    }
}

/// The functions an expression calls, each once, in first-call order; or the first
/// tokenizing error among its lines.
pub fn called_functions(expression: &str) -> (res: Result<Vec<CallReference>, String>)
    ensures
        match (res, call_names(expression@)) {
            (Ok(calls), Ok(names)) => raw_names(calls@) == names && all_parsed(calls@),
            (Err(m), Err(ms)) => m@ == ms,
            _ => false,
        },
{
    let cs = chars_of(expression);
    let lines = lines_of(&cs);
    let ghost ls = lines_spec(expression@);
    let mut calls: Vec<CallReference> = Vec::new();
    let mut k: usize = 0;
    assert(raw_names(calls@) =~= Seq::<Seq<char>>::empty());
    while k < lines.len()
        invariant
            k <= lines@.len(),
            ls == lines_spec(expression@),
            lines@.len() == ls.len(),
            forall|j: int| 0 <= j < lines@.len() ==> #[trigger] lines@[j]@ == ls[j],
            all_parsed(calls@),
            call_names(expression@) == scan_lines(ls, k as int, raw_names(calls@)),
        decreases lines@.len() - k,
    {
        let line = string_of(&lines[k]);
        match tokenize(line.as_str()) {
            Ok(tokens) => {
                scan_calls_exec(&tokens, &mut calls);
            },
            Err(m) => {
                return Err(m);
            },
        }
        k += 1;
    }
    Ok(calls)
}

} // verus!
