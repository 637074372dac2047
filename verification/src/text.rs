//! Character-level text utilities shared by the parser, checker and formatter.
//!
//! Every function here works on sequences of `char` and states its result over
//! `Seq<char>` views, so the rest of the library can speak of source text exactly.
use vstd::prelude::*;
use vstd::string::*;

verus! {

broadcast use vstd::string::group_string_axioms;

/// Appends one character to a string.
///
/// Calls `String::push`; the contract claims that the string afterwards reads as the old
/// characters followed by `c`.
#[verifier::external_body]
pub(crate) fn push_char(s: &mut String, c: char)
    ensures
        final(s)@ == old(s)@.push(c),
{
    s.push(c);
}

// ---------------------------------------------------------------------------
// Character classes
// ---------------------------------------------------------------------------
/// Unicode `White_Space`, as `char::is_whitespace` decides it.
pub open spec fn is_ws(c: char) -> bool {
    ||| c == ' '
    ||| ('\t' <= c && c <= '\r')
    ||| c == '\u{85}'
    ||| c == '\u{A0}'
    ||| c == '\u{1680}'
    ||| ('\u{2000}' <= c && c <= '\u{200A}')
    ||| c == '\u{2028}'
    ||| c == '\u{2029}'
    ||| c == '\u{202F}'
    ||| c == '\u{205F}'
    ||| c == '\u{3000}'
}

pub open spec fn is_digit(c: char) -> bool {
    '0' <= c && c <= '9'
}

pub open spec fn is_alpha(c: char) -> bool {
    ('a' <= c && c <= 'z') || ('A' <= c && c <= 'Z')
}

pub open spec fn is_alnum(c: char) -> bool {
    is_alpha(c) || is_digit(c)
}

pub open spec fn lower_char(c: char) -> char {
    if 'A' <= c && c <= 'Z' {
        ((c as u32) + 32) as char
    } else {
        c
    }
}

pub fn whitespace(c: char) -> (b: bool)
    ensures
        b == is_ws(c),
{
    c == ' ' || ('\t' <= c && c <= '\r') || c == '\u{85}' || c == '\u{A0}' || c == '\u{1680}'
        || ('\u{2000}' <= c && c <= '\u{200A}') || c == '\u{2028}' || c == '\u{2029}' || c
        == '\u{202F}' || c == '\u{205F}' || c == '\u{3000}'
}

pub fn ascii_digit(c: char) -> (b: bool)
    ensures
        b == is_digit(c),
{
    '0' <= c && c <= '9'
}

pub fn ascii_alpha(c: char) -> (b: bool)
    ensures
        b == is_alpha(c),
{
    ('a' <= c && c <= 'z') || ('A' <= c && c <= 'Z')
}

pub fn ascii_alnum(c: char) -> (b: bool)
    ensures
        b == is_alnum(c),
{
    ascii_alpha(c) || ascii_digit(c)
}

pub fn ascii_lower(c: char) -> (r: char)
    ensures
        r == lower_char(c),
{
    if 'A' <= c && c <= 'Z' {
        let v: u32 = (c as u32) + 32;
        assert(0x61 <= v <= 0x7a);
        char_from_ascii(v)
    } else {
        c
    }
}

fn char_from_ascii(v: u32) -> (c: char)
    requires
        v < 0x80,
    ensures
        c == v as char,
{
    let b: u8 = v as u8;
    b as char
}

// ---------------------------------------------------------------------------
// Conversions
// ---------------------------------------------------------------------------
/// The characters of a string slice, in order.
pub fn chars_of(s: &str) -> (res: Vec<char>)
    ensures
        res@ == s@,
{
    let mut res: Vec<char> = Vec::new();
    for c in it: s.chars()
        invariant
            it.seq() == s@,
            res@ == it.seq().take(it.index() as int),
    {
        res.push(c);
    }
    res
}

/// A string made of the given characters.
pub fn string_of(cs: &[char]) -> (res: String)
    ensures
        res@ == cs@,
{
    let mut res = String::new();
    let mut i: usize = 0;
    while i < cs.len()
        invariant
            i <= cs@.len(),
            res@ == cs@.take(i as int),
        decreases cs@.len() - i,
    {
        push_char(&mut res, cs[i]);
        assert(cs@.take(i + 1) == cs@.take(i as int).push(cs@[i as int]));
        i += 1;
    }
    assert(cs@.take(cs@.len() as int) == cs@);
    res
}

/// A fresh string equal to a string slice.
pub fn owned(s: &str) -> (res: String)
    ensures
        res@ == s@,
{
    String::from_str(s)
}

/// Appends a string slice to a string.
pub fn append_str(out: &mut String, s: &str)
    ensures
        final(out)@ == old(out)@ + s@,
{
    out.append(s);
}

/// Appends characters to a string.
pub fn append_chars(out: &mut String, cs: &[char])
    ensures
        final(out)@ == old(out)@ + cs@,
{
    let ghost start = out@;
    let mut i: usize = 0;
    while i < cs.len()
        invariant
            i <= cs@.len(),
            out@ == start + cs@.take(i as int),
        decreases cs@.len() - i,
    {
        push_char(out, cs[i]);
        assert(cs@.take(i + 1) == cs@.take(i as int).push(cs@[i as int]));
        i += 1;
    }
    assert(cs@.take(cs@.len() as int) == cs@);
}

/// Two strings hold the same characters.
pub fn str_eq(a: &str, b: &str) -> (res: bool)
    ensures
        res == (a@ == b@),
{
    let x = chars_of(a);
    let y = chars_of(b);
    seq_eq(&x, &y)
}

/// Two character slices hold the same characters.
pub fn seq_eq(a: &[char], b: &[char]) -> (res: bool)
    ensures
        res == (a@ == b@),
{
    if a.len() != b.len() {
        return false;
    }
    let mut i: usize = 0;
    while i < a.len()
        invariant
            a@.len() == b@.len(),
            i <= a@.len(),
            forall|j: int| 0 <= j < i ==> a@[j] == b@[j],
        decreases a@.len() - i,
    {
        if a[i] != b[i] {
            return false;
        }
        i += 1;
    }
    assert(a@ =~= b@);
    true
}

// ---------------------------------------------------------------------------
// Prefixes, suffixes and searching
// ---------------------------------------------------------------------------
pub open spec fn starts_with(s: Seq<char>, p: Seq<char>) -> bool {
    p.len() <= s.len() && s.take(p.len() as int) == p
}

pub open spec fn ends_with(s: Seq<char>, p: Seq<char>) -> bool {
    p.len() <= s.len() && s.skip(s.len() - p.len()) == p
}

/// `p` occurs in `s` starting at index `i`.
pub open spec fn occurs_at(s: Seq<char>, p: Seq<char>, i: int) -> bool {
    0 <= i && i + p.len() <= s.len() && s.subrange(i, i + p.len()) == p
}

pub open spec fn contains_seq(s: Seq<char>, p: Seq<char>) -> bool {
    exists|i: int| occurs_at(s, p, i)
}

pub fn has_prefix(s: &[char], p: &[char]) -> (res: bool)
    ensures
        res == starts_with(s@, p@),
{
    if p.len() > s.len() {
        return false;
    }
    let mut i: usize = 0;
    while i < p.len()
        invariant
            p@.len() <= s@.len(),
            i <= p@.len(),
            forall|j: int| 0 <= j < i ==> s@[j] == p@[j],
        decreases p@.len() - i,
    {
        if s[i] != p[i] {
            assert(s@.take(p@.len() as int)[i as int] != p@[i as int]);
            return false;
        }
        i += 1;
    }
    assert(s@.take(p@.len() as int) =~= p@);
    true
}

pub fn has_prefix_str(s: &[char], p: &str) -> (res: bool)
    ensures
        res == starts_with(s@, p@),
{
    let pc = chars_of(p);
    has_prefix(s, &pc)
}

pub fn has_suffix(s: &[char], p: &[char]) -> (res: bool)
    ensures
        res == ends_with(s@, p@),
{
    if p.len() > s.len() {
        return false;
    }
    let off = s.len() - p.len();
    let mut i: usize = 0;
    while i < p.len()
        invariant
            p@.len() <= s@.len(),
            off == s@.len() - p@.len(),
            off + p@.len() == s.len(),
            i <= p@.len(),
            forall|j: int| 0 <= j < i ==> s@[off + j] == p@[j],
        decreases p@.len() - i,
    {
        if s[off + i] != p[i] {
            assert(s@.skip(off as int)[i as int] != p@[i as int]);
            return false;
        }
        i += 1;
    }
    assert(s@.skip(off as int) =~= p@);
    true
}

pub fn has_suffix_str(s: &[char], p: &str) -> (res: bool)
    ensures
        res == ends_with(s@, p@),
{
    let pc = chars_of(p);
    has_suffix(s, &pc)
}

/// Index of the first occurrence of `c` at or after `from`, or `s.len()`.
pub open spec fn find_from(s: Seq<char>, c: char, from: int) -> int
    decreases s.len() - from,
{
    if from < 0 || from >= s.len() {
        s.len() as int
    } else if s[from] == c {
        from
    } else {
        find_from(s, c, from + 1)
    }
}

pub proof fn lemma_find_from(s: Seq<char>, c: char, from: int)
    requires
        0 <= from <= s.len(),
    ensures
        from <= find_from(s, c, from) <= s.len(),
        forall|j: int| from <= j < find_from(s, c, from) ==> s[j] != c,
        find_from(s, c, from) < s.len() ==> s[find_from(s, c, from)] == c,
    decreases s.len() - from,
{
    if from < s.len() && s[from] != c {
        lemma_find_from(s, c, from + 1);
    }
}

/// First index holding `c`, if any.
pub fn find_char(s: &[char], c: char, from: usize) -> (res: usize)
    requires
        from <= s@.len(),
    ensures
        res == find_from(s@, c, from as int),
        from <= res <= s@.len(),
        forall|j: int| from <= j < res ==> s@[j] != c,
        res < s@.len() ==> s@[res as int] == c,
{
    proof {
        lemma_find_from(s@, c, from as int);
    }
    let mut i = from;
    while i < s.len()
        invariant
            from <= i <= s@.len(),
            find_from(s@, c, i as int) == find_from(s@, c, from as int),
            forall|j: int| from <= j < i ==> s@[j] != c,
        decreases s@.len() - i,
    {
        if s[i] == c {
            return i;
        }
        i += 1;
    }
    i
}

/// Index of the last occurrence of `c` before `end`, or -1.
pub open spec fn rfind_before(s: Seq<char>, c: char, end: int) -> int
    decreases end,
{
    if end <= 0 || end > s.len() {
        -1
    } else if s[end - 1] == c {
        end - 1
    } else {
        rfind_before(s, c, end - 1)
    }
}

pub proof fn lemma_rfind_before(s: Seq<char>, c: char, end: int)
    requires
        0 <= end <= s.len(),
    ensures
        -1 <= rfind_before(s, c, end) < end,
        forall|j: int| rfind_before(s, c, end) < j < end ==> s[j] != c,
        rfind_before(s, c, end) >= 0 ==> s[rfind_before(s, c, end)] == c,
    decreases end,
{
    if end > 0 && s[end - 1] != c {
        lemma_rfind_before(s, c, end - 1);
    }
}

/// Last index holding `c`, if any.
pub fn rfind_char(s: &[char], c: char) -> (res: Option<usize>)
    ensures
        match res {
            Some(i) => i == rfind_before(s@, c, s@.len() as int),
            None => rfind_before(s@, c, s@.len() as int) == -1,
        },
{
    proof {
        lemma_rfind_before(s@, c, s@.len() as int);
    }
    let mut end = s.len();
    while end > 0
        invariant
            end <= s@.len(),
            rfind_before(s@, c, end as int) == rfind_before(s@, c, s@.len() as int),
        decreases end,
    {
        if s[end - 1] == c {
            return Some(end - 1);
        }
        end -= 1;
    }
    None
}

/// Whether `p` occurs in `s`.
pub fn contains_chars(s: &[char], p: &[char]) -> (res: bool)
    ensures
        res == contains_seq(s@, p@),
{
    if p.len() > s.len() {
        assert forall|i: int| !occurs_at(s@, p@, i) by {}
        return false;
    }
    if p.len() == 0 {
        assert(s@.subrange(0, 0) =~= p@);
        assert(occurs_at(s@, p@, 0));
        return true;
    }
    let last = s.len() - p.len();
    let mut i: usize = 0;
    while i <= last
        invariant
            p@.len() <= s@.len(),
            last == s@.len() - p@.len(),
            last + p@.len() == s.len(),
            p@.len() > 0,
            i <= last + 1,
            forall|k: int| 0 <= k < i ==> !occurs_at(s@, p@, k),
        decreases last + 1 - i,
    {
        if occurs(s, p, i) {
            return true;
        }
        i += 1;
    }
    assert forall|k: int| !occurs_at(s@, p@, k) by {
        if 0 <= k && k + p@.len() <= s@.len() {
            assert(k < i);
        }
    }
    false
}

fn occurs(s: &[char], p: &[char], at: usize) -> (res: bool)
    requires
        at + p@.len() <= s@.len(),
    ensures
        res == occurs_at(s@, p@, at as int),
{
    let n = s.len();
    let mut j: usize = 0;
    while j < p.len()
        invariant
            at + p@.len() <= s@.len(),
            n == s@.len(),
            j <= p@.len(),
            forall|k: int| 0 <= k < j ==> s@[at + k] == p@[k],
        decreases p@.len() - j,
    {
        if s[at + j] != p[j] {
            assert(s@.subrange(at as int, at + p@.len())[j as int] != p@[j as int]);
            return false;
        }
        j += 1;
    }
    assert(s@.subrange(at as int, at + p@.len()) =~= p@);
    true
}

pub fn contains_str(s: &[char], p: &str) -> (res: bool)
    ensures
        res == contains_seq(s@, p@),
{
    let pc = chars_of(p);
    contains_chars(s, &pc)
}

// ---------------------------------------------------------------------------
// Trimming
// ---------------------------------------------------------------------------
/// Index of the first non-whitespace character at or after `i`.
pub open spec fn skip_ws_from(s: Seq<char>, i: int) -> int
    decreases s.len() - i,
{
    if 0 <= i < s.len() && is_ws(s[i]) {
        skip_ws_from(s, i + 1)
    } else {
        i
    }
}

/// One past the last non-whitespace character before `end`.
pub open spec fn trim_end_to(s: Seq<char>, end: int) -> int
    decreases end,
{
    if 0 < end <= s.len() && is_ws(s[end - 1]) {
        trim_end_to(s, end - 1)
    } else {
        end
    }
}

pub open spec fn trim_start(s: Seq<char>) -> Seq<char> {
    s.skip(skip_ws_from(s, 0))
}

pub open spec fn trim_end(s: Seq<char>) -> Seq<char> {
    s.take(trim_end_to(s, s.len() as int))
}

pub open spec fn trim(s: Seq<char>) -> Seq<char> {
    trim_end(trim_start(s))
}

pub proof fn lemma_skip_ws_from(s: Seq<char>, i: int)
    requires
        0 <= i <= s.len(),
    ensures
        i <= skip_ws_from(s, i) <= s.len(),
        forall|j: int| i <= j < skip_ws_from(s, i) ==> is_ws(s[j]),
        skip_ws_from(s, i) < s.len() ==> !is_ws(s[skip_ws_from(s, i)]),
    decreases s.len() - i,
{
    if i < s.len() && is_ws(s[i]) {
        lemma_skip_ws_from(s, i + 1);
    }
}

pub proof fn lemma_trim_end_to(s: Seq<char>, end: int)
    requires
        0 <= end <= s.len(),
    ensures
        0 <= trim_end_to(s, end) <= end,
        forall|j: int| trim_end_to(s, end) <= j < end ==> is_ws(s[j]),
        trim_end_to(s, end) > 0 ==> !is_ws(s[trim_end_to(s, end) - 1]),
    decreases end,
{
    if 0 < end && is_ws(s[end - 1]) {
        lemma_trim_end_to(s, end - 1);
    }
}

/// Index of the first non-whitespace character at or after `from`.
pub fn skip_ws(s: &[char], from: usize) -> (res: usize)
    requires
        from <= s@.len(),
    ensures
        res == skip_ws_from(s@, from as int),
        from <= res <= s@.len(),
{
    proof {
        lemma_skip_ws_from(s@, from as int);
    }
    let mut i = from;
    while i < s.len() && whitespace(s[i])
        invariant
            from <= i <= s@.len(),
            skip_ws_from(s@, i as int) == skip_ws_from(s@, from as int),
        decreases s@.len() - i,
    {
        i += 1;
    }
    i
}

fn trim_end_index(s: &[char]) -> (res: usize)
    ensures
        res == trim_end_to(s@, s@.len() as int),
        res <= s@.len(),
{
    proof {
        lemma_trim_end_to(s@, s@.len() as int);
    }
    let mut e = s.len();
    while e > 0 && whitespace(s[e - 1])
        invariant
            e <= s@.len(),
            trim_end_to(s@, e as int) == trim_end_to(s@, s@.len() as int),
        decreases e,
    {
        e -= 1;
    }
    e
}

/// The characters of `s[from..to]`.
pub fn slice_chars(s: &[char], from: usize, to: usize) -> (res: Vec<char>)
    requires
        from <= to <= s@.len(),
    ensures
        res@ == s@.subrange(from as int, to as int),
{
    let mut res: Vec<char> = Vec::new();
    let mut i = from;
    while i < to
        invariant
            from <= i <= to <= s@.len(),
            res@ == s@.subrange(from as int, i as int),
        decreases to - i,
    {
        res.push(s[i]);
        assert(s@.subrange(from as int, i + 1) == s@.subrange(from as int, i as int).push(
            s@[i as int],
        ));
        i += 1;
    }
    res
}

pub fn trim_start_chars(s: &[char]) -> (res: Vec<char>)
    ensures
        res@ == trim_start(s@),
{
    let i = skip_ws(s, 0);
    slice_chars(s, i, s.len())
}

pub fn trim_end_chars(s: &[char]) -> (res: Vec<char>)
    ensures
        res@ == trim_end(s@),
{
    let e = trim_end_index(s);
    slice_chars(s, 0, e)
}

pub fn trim_chars(s: &[char]) -> (res: Vec<char>)
    ensures
        res@ == trim(s@),
{
    let t = trim_start_chars(s);
    trim_end_chars(&t)
}

/// The trimmed text of a string slice, as a string.
pub fn trim_str(s: &str) -> (res: String)
    ensures
        res@ == trim(s@),
{
    let cs = chars_of(s);
    let t = trim_chars(&cs);
    string_of(&t)
}

pub proof fn lemma_trim_empty_iff(s: Seq<char>)
    ensures
        trim(s).len() == 0 <==> (forall|j: int| 0 <= j < s.len() ==> is_ws(s[j])),
{
    lemma_skip_ws_from(s, 0);
    let t = trim_start(s);
    lemma_trim_end_to(t, t.len() as int);
    if trim(s).len() == 0 {
        assert forall|j: int| 0 <= j < s.len() implies is_ws(s[j]) by {
            if j >= skip_ws_from(s, 0) {
                assert(t[j - skip_ws_from(s, 0)] == s[j]);
            }
        }
    } else {
        if skip_ws_from(s, 0) == s.len() {
            assert(t.len() == 0);
        }
    }
}

// ---------------------------------------------------------------------------
// Splitting
// ---------------------------------------------------------------------------
/// `s` split at every `c`, as `str::split` does: always at least one piece.
pub open spec fn split_spec(s: Seq<char>, c: char) -> Seq<Seq<char>>
    decreases s.len(),
{
    let i = find_from(s, c, 0);
    proof {
        lemma_find_from(s, c, 0);
    }
    if i >= s.len() {
        seq![s]
    } else {
        seq![s.take(i)] + split_spec(s.skip(i + 1), c)
    }
}

/// The first position of `c` in `s`, or its length.
pub proof fn lemma_find_first(s: Seq<char>, c: char, i: int)
    requires
        0 <= i <= s.len(),
        forall|j: int| 0 <= j < i ==> s[j] != c,
        i < s.len() ==> s[i] == c,
    ensures
        find_from(s, c, 0) == i,
{
    lemma_find_from(s, c, 0);
    let f = find_from(s, c, 0);
    if f < i {
        assert(s[f] == c);
    }
    if f > i {
        assert(s[i] != c);
    }
}

/// A text without the separator is one piece.
pub proof fn lemma_split_single(s: Seq<char>, c: char)
    requires
        !s.contains(c),
    ensures
        split_spec(s, c) == seq![s],
{
    assert forall|j: int| 0 <= j < s.len() implies s[j] != c by {
        if s[j] == c {
            assert(s.contains(c));
        }
    }
    lemma_find_first(s, c, s.len() as int);
}

/// Splitting two texts joined by the separator gives the pieces of each.
pub proof fn lemma_split_concat(a: Seq<char>, b: Seq<char>, c: char)
    ensures
        split_spec(a + seq![c] + b, c) == split_spec(a, c) + split_spec(b, c),
    decreases a.len(),
{
    let t = a + seq![c] + b;
    lemma_find_from(a, c, 0);
    let p = find_from(a, c, 0);
    if p < a.len() {
        assert forall|j: int| 0 <= j < p implies t[j] != c by {
            assert(t[j] == a[j]);
        }
        assert(t[p] == a[p]);
        lemma_find_first(t, c, p);
        let rest = a.skip(p + 1);
        assert(t.skip(p + 1) =~= rest + seq![c] + b);
        assert(t.take(p) =~= a.take(p));
        lemma_split_concat(rest, b, c);
        assert(split_spec(a, c) == seq![a.take(p)] + split_spec(rest, c));
        assert(split_spec(t, c) == seq![t.take(p)] + split_spec(t.skip(p + 1), c));
        assert(split_spec(t, c) =~= split_spec(a, c) + split_spec(b, c));
    } else {
        let n = a.len() as int;
        assert forall|j: int| 0 <= j < n implies t[j] != c by {
            assert(t[j] == a[j]);
        }
        assert(t[n] == c);
        lemma_find_first(t, c, n);
        assert(t.take(n) =~= a);
        assert(t.skip(n + 1) =~= b);
        assert(split_spec(a, c) == seq![a]);
        assert(split_spec(t, c) =~= split_spec(a, c) + split_spec(b, c));
    }
}

/// Joining a first piece to the rest.
pub proof fn lemma_join_front(x: Seq<char>, rest: Seq<Seq<char>>, sep: Seq<char>)
    requires
        rest.len() > 0,
    ensures
        join_spec(seq![x] + rest, sep) == x + sep + join_spec(rest, sep),
    decreases rest.len(),
{
    let all = seq![x] + rest;
    if rest.len() == 1 {
        assert(all.drop_last() =~= seq![x]);
        assert(all.last() == rest[0]);
        assert(join_spec(rest, sep) == rest[0]);
        assert(join_spec(seq![x], sep) == x);
        assert(join_spec(all, sep) == join_spec(all.drop_last(), sep) + sep + all.last());
    } else {
        lemma_join_front(x, rest.drop_last(), sep);
        assert(all.drop_last() =~= seq![x] + rest.drop_last());
        assert(all.last() == rest.last());
        assert(join_spec(all, sep) == join_spec(all.drop_last(), sep) + sep + all.last());
        assert(join_spec(rest, sep) == join_spec(rest.drop_last(), sep) + sep + rest.last());
        assert(x + sep + join_spec(rest, sep) =~= (x + sep + join_spec(rest.drop_last(), sep)) + sep + rest.last());
    }
}

/// Joining the pieces of a text with its separator gives the text back.
pub proof fn lemma_join_split(s: Seq<char>, c: char)
    ensures
        join_spec(split_spec(s, c), seq![c]) == s,
    decreases s.len(),
{
    lemma_find_from(s, c, 0);
    let i = find_from(s, c, 0);
    if i < s.len() {
        let rest = s.skip(i + 1);
        lemma_join_split(rest, c);
        crate::eval::lemma_split_len(rest, c);
        lemma_join_front(s.take(i), split_spec(rest, c), seq![c]);
        assert(s =~= s.take(i) + seq![c] + rest);
    } else {
        assert(join_spec(seq![s], seq![c]) == s);
    }
}

/// Splits `s` at every occurrence of `c`.
pub fn split_chars(s: &[char], c: char) -> (res: Vec<Vec<char>>)
    ensures
        res@.len() == split_spec(s@, c).len(),
        forall|k: int| 0 <= k < res@.len() ==> #[trigger] res@[k]@ == split_spec(s@, c)[k],
{
    let mut res: Vec<Vec<char>> = Vec::new();
    let mut start: usize = 0;
    assert(s@.skip(0) =~= s@);
    assert(views(res@) =~= Seq::<Seq<char>>::empty());
    loop
        invariant
            start <= s@.len(),
            split_spec(s@, c) == views(res@) + split_spec(s@.skip(start as int), c),
        decreases s@.len() - start,
    {
        let i = find_char(s, c, start);
        let ghost rest = s@.skip(start as int);
        proof {
            lemma_find_shift(s@, c, start as int);
        }
        if i >= s.len() {
            let piece = slice_chars(s, start, s.len());
            proof {
                assert(piece@ == rest);
                assert(views(res@.push(piece)) == views(res@).push(piece@));
            }
            res.push(piece);
            proof {
                assert(split_spec(s@, c) == views(res@));
            }
            proof {
                lemma_views_index(res@);
            }
            return res;
        }
        let piece = slice_chars(s, start, i);
        proof {
            assert(piece@ == rest.take(i - start));
            assert(rest.skip(i - start + 1) =~= s@.skip(i + 1));
            assert(views(res@.push(piece)) == views(res@).push(piece@));
            assert(views(res@).push(piece@) + split_spec(s@.skip(i + 1), c) =~= views(res@) + (
            seq![piece@] + split_spec(s@.skip(i + 1), c)));
        }
        res.push(piece);
        start = i + 1;
    }
}

pub open spec fn views(v: Seq<Vec<char>>) -> Seq<Seq<char>> {
    v.map_values(|x: Vec<char>| x@)
}

pub proof fn lemma_views_index(v: Seq<Vec<char>>)
    ensures
        views(v).len() == v.len(),
        forall|k: int| 0 <= k < v.len() ==> #[trigger] v[k]@ == views(v)[k],
{
}

proof fn lemma_find_shift(s: Seq<char>, c: char, start: int)
    requires
        0 <= start <= s.len(),
    ensures
        find_from(s.skip(start), c, 0) == find_from(s, c, start) - start,
    decreases s.len() - start,
{
    lemma_find_shift_gen(s, c, start, 0);
}

proof fn lemma_find_shift_gen(s: Seq<char>, c: char, start: int, k: int)
    requires
        0 <= start <= s.len(),
        0 <= k <= s.len() - start,
    ensures
        find_from(s.skip(start), c, k) == find_from(s, c, start + k) - start,
    decreases s.len() - start - k,
{
    if k < s.len() - start {
        assert(s.skip(start)[k] == s[start + k]);
        lemma_find_shift_gen(s, c, start, k + 1);
    }
}

/// `s` split into lines as `str::lines` does: at `\n`, dropping a final `\r` from each
/// line, and with no empty line after a final terminator.
pub open spec fn lines_spec(s: Seq<char>) -> Seq<Seq<char>>
    decreases s.len(),
{
    if s.len() == 0 {
        seq![]
    } else {
        let i = find_from(s, '\n', 0);
        proof {
            lemma_find_from(s, '\n', 0);
        }
        if i >= s.len() {
            seq![strip_cr(s)]
        } else {
            seq![strip_cr(s.take(i))] + lines_spec(s.skip(i + 1))
        }
    }
}

pub open spec fn strip_cr(s: Seq<char>) -> Seq<char> {
    if s.len() > 0 && s.last() == '\r' {
        s.drop_last()
    } else {
        s
    }
}

fn strip_cr_chars(s: Vec<char>) -> (res: Vec<char>)
    ensures
        res@ == strip_cr(s@),
{
    let mut s = s;
    if s.len() > 0 && s[s.len() - 1] == '\r' {
        s.pop();
    }
    s
}

/// Splits text into lines as `str::lines` does.
pub fn lines_of(s: &[char]) -> (res: Vec<Vec<char>>)
    ensures
        res@.len() == lines_spec(s@).len(),
        forall|k: int| 0 <= k < res@.len() ==> #[trigger] res@[k]@ == lines_spec(s@)[k],
{
    let mut res: Vec<Vec<char>> = Vec::new();
    let mut start: usize = 0;
    assert(s@.skip(0) =~= s@);
    assert(views(res@) =~= Seq::<Seq<char>>::empty());
    loop
        invariant
            start <= s@.len(),
            lines_spec(s@) == views(res@) + lines_spec(s@.skip(start as int)),
        decreases s@.len() - start,
    {
        let ghost rest = s@.skip(start as int);
        if start == s.len() {
            assert(rest.len() == 0);
            assert(views(res@) + lines_spec(rest) =~= views(res@));
            proof {
                lemma_views_index(res@);
            }
            return res;
        }
        let i = find_char(s, '\n', start);
        proof {
            lemma_find_shift(s@, '\n', start as int);
        }
        if i >= s.len() {
            let piece = strip_cr_chars(slice_chars(s, start, s.len()));
            proof {
                assert(s@.subrange(start as int, s@.len() as int) == rest);
                assert(views(res@.push(piece)) == views(res@).push(piece@));
            }
            res.push(piece);
            proof {
                lemma_views_index(res@);
            }
            return res;
        }
        let piece = strip_cr_chars(slice_chars(s, start, i));
        proof {
            assert(s@.subrange(start as int, i as int) == rest.take(i - start));
            assert(rest.skip(i - start + 1) =~= s@.skip(i + 1));
            assert(views(res@.push(piece)) == views(res@).push(piece@));
            assert(views(res@).push(piece@) + lines_spec(s@.skip(i + 1)) =~= views(res@) + (seq![
                piece@,
            ] + lines_spec(s@.skip(i + 1))));
        }
        res.push(piece);
        start = i + 1;
    }
}

/// The pieces joined with `sep` between neighbours.
pub open spec fn join_spec(parts: Seq<Seq<char>>, sep: Seq<char>) -> Seq<char>
    decreases parts.len(),
{
    if parts.len() == 0 {
        seq![]
    } else if parts.len() == 1 {
        parts[0]
    } else {
        join_spec(parts.drop_last(), sep) + sep + parts.last()
    }
}

/// Joins strings with a separator, as `[String]::join` does.
pub fn join_strings(parts: &[String], sep: &str) -> (res: String)
    ensures
        res@ == join_spec(parts@.map_values(|p: String| p@), sep@),
{
    let ghost pv = parts@.map_values(|p: String| p@);
    let mut res = String::new();
    let mut i: usize = 0;
    while i < parts.len()
        invariant
            i <= parts@.len(),
            pv == parts@.map_values(|p: String| p@),
            res@ == join_spec(pv.take(i as int), sep@),
        decreases parts@.len() - i,
    {
        proof {
            assert(pv.take(i + 1).drop_last() =~= pv.take(i as int));
        }
        if i > 0 {
            res.append(sep);
        } else {
            assert(pv.take(0) =~= Seq::<Seq<char>>::empty());
        }
        res.append(parts[i].as_str());
        i += 1;
    }
    assert(pv.take(parts@.len() as int) =~= pv);
    res
}

/// Joins character sequences with a separator.
pub fn join_chars(parts: &[Vec<char>], sep: &[char]) -> (res: Vec<char>)
    ensures
        res@ == join_spec(views(parts@), sep@),
{
    let ghost pv = views(parts@);
    let mut res: Vec<char> = Vec::new();
    let mut i: usize = 0;
    while i < parts.len()
        invariant
            i <= parts@.len(),
            pv == views(parts@),
            res@ == join_spec(pv.take(i as int), sep@),
        decreases parts@.len() - i,
    {
        proof {
            assert(pv.take(i + 1).drop_last() =~= pv.take(i as int));
        }
        if i > 0 {
            extend(&mut res, sep);
        } else {
            assert(pv.take(0) =~= Seq::<Seq<char>>::empty());
        }
        extend(&mut res, &parts[i]);
        i += 1;
    }
    assert(pv.take(parts@.len() as int) =~= pv);
    res
}

/// Appends characters to a character vector.
pub fn extend(out: &mut Vec<char>, cs: &[char])
    ensures
        final(out)@ == old(out)@ + cs@,
{
    let ghost start = out@;
    let mut i: usize = 0;
    while i < cs.len()
        invariant
            i <= cs@.len(),
            out@ == start + cs@.take(i as int),
        decreases cs@.len() - i,
    {
        out.push(cs[i]);
        assert(cs@.take(i + 1) == cs@.take(i as int).push(cs@[i as int]));
        i += 1;
    }
    assert(cs@.take(cs@.len() as int) == cs@);
}


// ---------------------------------------------------------------------------
// Ordering of texts
// ---------------------------------------------------------------------------
/// `a` sorts strictly before `b`: lexicographic order of characters, as `str` orders.
pub open spec fn seq_less(a: Seq<char>, b: Seq<char>) -> bool
    decreases a.len(),
{
    if a.len() == 0 {
        b.len() > 0
    } else if b.len() == 0 {
        false
    } else if a[0] != b[0] {
        a[0] < b[0]
    } else {
        seq_less(a.drop_first(), b.drop_first())
    }
}

pub proof fn lemma_seq_less_total(a: Seq<char>, b: Seq<char>)
    ensures
        seq_less(a, b) || seq_less(b, a) || a == b,
        !(seq_less(a, b) && seq_less(b, a)),
        !seq_less(a, a),
    decreases a.len(),
{
    if a.len() > 0 && b.len() > 0 && a[0] == b[0] {
        lemma_seq_less_total(a.drop_first(), b.drop_first());
        if a.drop_first() == b.drop_first() {
            assert forall|i: int| 0 <= i < a.len() implies a[i] == b[i] by {
                if i > 0 {
                    assert(a[i] == a.drop_first()[i - 1]);
                    assert(b[i] == b.drop_first()[i - 1]);
                }
            }
            assert(a =~= b);
        }
    }
    if a.len() > 0 {
        lemma_seq_less_total(a.drop_first(), a.drop_first());
    }
    if a.len() == 0 && b.len() == 0 {
        assert(a =~= b);
    }

}

pub proof fn lemma_seq_less_trans(a: Seq<char>, b: Seq<char>, c: Seq<char>)
    requires
        seq_less(a, b),
        seq_less(b, c),
    ensures
        seq_less(a, c),
    decreases a.len(),
{
    if a.len() > 0 && b.len() > 0 && c.len() > 0 && a[0] == b[0] && b[0] == c[0] {
        lemma_seq_less_trans(a.drop_first(), b.drop_first(), c.drop_first());
    }
}

/// Strictly increasing, hence without repeats.
pub open spec fn strictly_sorted(v: Seq<Seq<char>>) -> bool {
    forall|i: int, j: int| 0 <= i < j < v.len() ==> seq_less(v[i], v[j])
}

/// Which of two texts sorts first.
pub fn text_less(a: &[char], b: &[char]) -> (res: bool)
    ensures
        res == seq_less(a@, b@),
{
    let mut i: usize = 0;
    assert(a@.skip(0) =~= a@);
    assert(b@.skip(0) =~= b@);
    while i < a.len() && i < b.len()
        invariant
            i <= a@.len(),
            i <= b@.len(),
            seq_less(a@, b@) == seq_less(a@.skip(i as int), b@.skip(i as int)),
        decreases a@.len() - i,
    {
        proof {
            assert(a@.skip(i as int).drop_first() =~= a@.skip(i + 1));
            assert(b@.skip(i as int).drop_first() =~= b@.skip(i + 1));
        }
        if a[i] != b[i] {
            return a[i] < b[i];
        }
        i += 1;
    }
    b.len() > i
}

/// Inserts a text into a strictly sorted list unless it is already there.
pub fn insert_sorted_unique(v: &mut Vec<Vec<char>>, x: Vec<char>)
    requires
        strictly_sorted(views(old(v)@)),
    ensures
        strictly_sorted(views(final(v)@)),
        views(final(v)@).to_set() == views(old(v)@).to_set().insert(x@),
{
    let ghost old_views = views(v@);
    let mut p: usize = 0;
    while p < v.len()
        invariant
            p <= v@.len(),
            views(v@) == old_views,
            strictly_sorted(old_views),
            forall|k: int| 0 <= k < p ==> seq_less(old_views[k], x@),
        ensures
            p <= v@.len(),
            views(v@) == old_views,
            forall|k: int| 0 <= k < p ==> seq_less(old_views[k], x@),
            p == v@.len() || !seq_less(old_views[p as int], x@),
        decreases v@.len() - p,
    {
        assert(views(v@)[p as int] == v@[p as int]@);
        if !text_less(&v[p], &x) {
            break;
        }
        p += 1;
    }
    proof {
        if p < v@.len() {
            assert(views(v@)[p as int] == v@[p as int]@);
        }
    }
    if p < v.len() && crate::text::seq_eq(&v[p], &x) {
        proof {
            assert(old_views[p as int] == x@);
            assert(old_views.to_set().insert(x@) =~= old_views.to_set());
        }
        return;
    }
    proof {
        if p < v@.len() {
            lemma_seq_less_total(old_views[p as int], x@);
        }
    }
    v.insert(p, x);
    proof {
        let nv = views(v@);
        assert(nv =~= old_views.insert(p as int, x@));
        assert forall|i: int, j: int| 0 <= i < j < nv.len() implies seq_less(nv[i], nv[j]) by {
            if j < p {
            } else if j == p {
            } else if i < p {
                if j == p + 1 {
                    lemma_seq_less_trans(nv[i], x@, nv[j]);
                } else {
                    assert(seq_less(x@, old_views[p as int]));
                    lemma_seq_less_trans(x@, old_views[p as int], nv[j]);
                    lemma_seq_less_trans(nv[i], x@, nv[j]);
                }
            } else if i == p {
                if j > p + 1 {
                    lemma_seq_less_trans(x@, old_views[p as int], nv[j]);
                }
            } else {
            }
        }
        assert(nv.to_set() =~= old_views.to_set().insert(x@)) by {
            assert forall|e: Seq<char>| nv.to_set().contains(e) <==> old_views.to_set().insert(x@).contains(e) by {
                if nv.to_set().contains(e) {
                    let k = choose|k: int| 0 <= k < nv.len() && nv[k] == e;
                    if k < p {
                        assert(old_views[k] == e);
                    } else if k > p {
                        assert(old_views[k - 1] == e);
                    }
                }
                if old_views.to_set().contains(e) {
                    let k = choose|k: int| 0 <= k < old_views.len() && old_views[k] == e;
                    if k < p {
                        assert(nv[k] == e);
                    } else {
                        assert(nv[k + 1] == e);
                    }
                }
                if e == x@ {
                    assert(nv[p as int] == e);
                }
            }
        }
    }
}


/// The elements of a finite set of texts, sorted, each once.
pub open spec fn sorted_of(s: Set<Seq<char>>) -> Seq<Seq<char>> {
    choose|v: Seq<Seq<char>>| strictly_sorted(v) && v.to_set() == s
}

/// Two strictly sorted lists with the same elements are equal.
pub proof fn lemma_sorted_unique(a: Seq<Seq<char>>, b: Seq<Seq<char>>)
    requires
        strictly_sorted(a),
        strictly_sorted(b),
        a.to_set() == b.to_set(),
    ensures
        a == b,
    decreases a.len(),
{
    if a.len() == 0 {
        if b.len() > 0 {
            assert(b.to_set().contains(b[0]));
        }
        assert(a =~= b);
    } else {
        assert(a.to_set().contains(a[0]));
        assert(b.len() > 0);
        assert(b.to_set().contains(b[0]));
        let ka = choose|k: int| 0 <= k < a.len() && a[k] == b[0];
        let kb = choose|k: int| 0 <= k < b.len() && b[k] == a[0];
        lemma_seq_less_total(a[0], b[0]);
        if a[0] != b[0] {
            if seq_less(a[0], b[0]) {
                assert(kb > 0);
                assert(seq_less(b[0], b[kb]));
                lemma_seq_less_total(a[0], b[0]);
            } else {
                assert(ka > 0);
                assert(seq_less(a[0], a[ka]));
            }
        }
        let ta = a.drop_first();
        let tb = b.drop_first();
        assert(strictly_sorted(ta)) by {
            assert forall|i: int, j: int| 0 <= i < j < ta.len() implies seq_less(ta[i], ta[j]) by {
                assert(ta[i] == a[i + 1] && ta[j] == a[j + 1]);
            }
        }
        assert(strictly_sorted(tb)) by {
            assert forall|i: int, j: int| 0 <= i < j < tb.len() implies seq_less(tb[i], tb[j]) by {
                assert(tb[i] == b[i + 1] && tb[j] == b[j + 1]);
            }
        }
        assert(ta.to_set() =~= tb.to_set()) by {
            assert forall|e: Seq<char>| ta.to_set().contains(e) <==> tb.to_set().contains(e) by {
                if ta.to_set().contains(e) {
                    let i = choose|i: int| 0 <= i < ta.len() && ta[i] == e;
                    assert(a[i + 1] == e);
                    assert(seq_less(a[0], a[i + 1]));
                    lemma_seq_less_total(a[0], e);
                    assert(b.to_set().contains(e));
                    let j = choose|j: int| 0 <= j < b.len() && b[j] == e;
                    assert(j != 0);
                    assert(tb[j - 1] == e);
                }
                if tb.to_set().contains(e) {
                    let i = choose|i: int| 0 <= i < tb.len() && tb[i] == e;
                    assert(b[i + 1] == e);
                    assert(seq_less(b[0], b[i + 1]));
                    lemma_seq_less_total(b[0], e);
                    assert(a.to_set().contains(e));
                    let j = choose|j: int| 0 <= j < a.len() && a[j] == e;
                    assert(j != 0);
                    assert(ta[j - 1] == e);
                }
            }
        }
        lemma_sorted_unique(ta, tb);
        assert(a =~= b) by {
            assert forall|i: int| 0 <= i < a.len() implies a[i] == b[i] by {
                if i > 0 {
                    assert(a[i] == ta[i - 1]);
                    assert(b[i] == tb[i - 1]);
                }
            }
        }
    }
}

/// A strictly sorted list is the sorted list of its elements.
pub proof fn lemma_sorted_of(v: Seq<Seq<char>>)
    requires
        strictly_sorted(v),
    ensures
        sorted_of(v.to_set()) == v,
{
    let w = sorted_of(v.to_set());
    assert(strictly_sorted(w) && w.to_set() == v.to_set());
    lemma_sorted_unique(w, v);
}

/// `a` sorts before or equal to `b`.
pub open spec fn seq_le(a: Seq<char>, b: Seq<char>) -> bool {
    !seq_less(b, a)
}

/// `perm` lists every index below `n` exactly once.
pub open spec fn is_permutation(perm: Seq<usize>, n: int) -> bool {
    &&& perm.len() == n
    &&& forall|k: int| 0 <= k < perm.len() ==> perm[k] < n
    &&& forall|i: int, j: int| 0 <= i < j < perm.len() ==> perm[i] != perm[j]
}

/// Listing `keys` in the order `perm` gives a non-decreasing sequence, and equal keys keep
/// their original order.
pub open spec fn stably_sorted_by(perm: Seq<usize>, keys: Seq<Seq<char>>) -> bool {
    forall|i: int, j: int|
        0 <= i < j < perm.len() ==> {
            &&& seq_le(keys[perm[i] as int], keys[perm[j] as int])
            &&& (keys[perm[i] as int] == keys[perm[j] as int] ==> perm[i] < perm[j])
        }
}

/// What a stable sort order says of two of its positions.
pub proof fn lemma_stable_at(perm: Seq<usize>, keys: Seq<Seq<char>>, i: int, j: int)
    requires
        stably_sorted_by(perm, keys),
        0 <= i < j < perm.len(),
    ensures
        seq_le(keys[perm[i] as int], keys[perm[j] as int]),
        keys[perm[i] as int] == keys[perm[j] as int] ==> perm[i] < perm[j],
{
    assert({
        &&& seq_le(keys[perm[i] as int], keys[perm[j] as int])
        &&& (keys[perm[i] as int] == keys[perm[j] as int] ==> perm[i] < perm[j])
    });
}

pub proof fn lemma_less_le_trans(a: Seq<char>, b: Seq<char>, c: Seq<char>)
    requires
        seq_less(a, b),
        seq_le(b, c),
    ensures
        seq_less(a, c),
{
    lemma_seq_less_total(b, c);
    if b != c {
        lemma_seq_less_trans(a, b, c);
    }
}

/// The order in which to list items so that their keys are sorted, keeping equal keys in
/// their original order (as a stable sort does).
pub fn sort_order(keys: &Vec<Vec<char>>) -> (perm: Vec<usize>)
    ensures
        is_permutation(perm@, keys@.len() as int),
        stably_sorted_by(perm@, views(keys@)),
{
    let ghost kv = views(keys@);
    let mut perm: Vec<usize> = Vec::new();
    let mut i: usize = 0;
    while i < keys.len()
        invariant
            i <= keys@.len(),
            kv == views(keys@),
            perm@.len() == i,
            forall|k: int| 0 <= k < perm@.len() ==> perm@[k] < i,
            forall|a: int, b: int| 0 <= a < b < perm@.len() ==> perm@[a] != perm@[b],
            stably_sorted_by(perm@, kv),
        decreases keys@.len() - i,
    {
        let mut p: usize = 0;
        while p < perm.len()
            invariant
                p <= perm@.len(),
                i < keys@.len(),
                kv == views(keys@),
                forall|k: int| 0 <= k < perm@.len() ==> perm@[k] < i,
                forall|k: int| 0 <= k < p ==> seq_le(kv[perm@[k] as int], kv[i as int]),
            ensures
                p <= perm@.len(),
                forall|k: int| 0 <= k < p ==> seq_le(kv[perm@[k] as int], kv[i as int]),
                p == perm@.len() || seq_less(kv[i as int], kv[perm@[p as int] as int]),
            decreases perm@.len() - p,
        {
            assert(kv[perm@[p as int] as int] == keys@[perm@[p as int] as int]@);
            assert(kv[i as int] == keys@[i as int]@);
            if text_less(&keys[i], &keys[perm[p]]) {
                break;
            }
            p += 1;
        }
        let ghost old_perm = perm@;
        perm.insert(p, i);
        proof {
            let np = perm@;
            assert(np =~= old_perm.insert(p as int, i));
            assert forall|a: int, b: int| 0 <= a < b < np.len() implies {
                &&& seq_le(kv[np[a] as int], kv[np[b] as int])
                &&& (kv[np[a] as int] == kv[np[b] as int] ==> np[a] < np[b])
            } by {
                if b < p {
                    assert(np[a] == old_perm[a] && np[b] == old_perm[b]);
                    assert(seq_le(kv[old_perm[a] as int], kv[old_perm[b] as int]));
                } else if b == p {
                    assert(np[a] == old_perm[a]);
                    assert(np[b] == i);
                    assert(seq_le(kv[old_perm[a] as int], kv[i as int]));
                } else if a < p {
                    assert(np[a] == old_perm[a] && np[b] == old_perm[b - 1]);
                    assert(seq_le(kv[old_perm[a] as int], kv[old_perm[b - 1] as int]));
                } else if a == p {
                    assert(np[a] == i);
                    assert(np[b] == old_perm[b - 1]);
                    if b - 1 > p {
                        assert(seq_le(kv[old_perm[p as int] as int], kv[old_perm[b - 1] as int]));
                        lemma_less_le_trans(kv[i as int], kv[old_perm[p as int] as int], kv[old_perm[b - 1] as int]);
                    }
                    assert(seq_less(kv[i as int], kv[np[b] as int]));
                    lemma_seq_less_total(kv[i as int], kv[np[b] as int]);
                } else {
                    assert(np[a] == old_perm[a - 1] && np[b] == old_perm[b - 1]);
                    assert(seq_le(kv[old_perm[a - 1] as int], kv[old_perm[b - 1] as int]));
                }
            }
        }
        i += 1;
    }
    perm
}

// ---------------------------------------------------------------------------
// Numbers
// ---------------------------------------------------------------------------
pub open spec fn digit_char(d: nat) -> char {
    ((d % 10) + 48) as char
}

/// Decimal digits of `n`, most significant first, with no leading zeros.
pub open spec fn decimal(n: nat) -> Seq<char>
    decreases n,
{
    if n < 10 {
        seq![digit_char(n)]
    } else {
        decimal(n / 10).push(digit_char(n % 10))
    }
}

/// The decimal text of a number, as `usize::to_string` gives it.
pub fn usize_text(n: usize) -> (res: String)
    ensures
        res@ == decimal(n as nat),
    decreases n,
{
    if n < 10 {
        let mut s = String::new();
        push_char(&mut s, digit(n));
        assert(s@ =~= seq![digit_char(n as nat)]);
        s
    } else {
        let mut s = usize_text(n / 10);
        push_char(&mut s, digit(n % 10));
        assert(n % 10 % 10 == n % 10);
        s
    }
}

fn digit(d: usize) -> (c: char)
    requires
        d < 10,
    ensures
        c == digit_char(d as nat),
{
    let v: u32 = (d as u32) + 48;
    char_from_ascii(v)
}


/// A 64-bit unsigned number in decimal.
pub fn u64_text(n: u64) -> (res: String)
    ensures
        res@ == decimal(n as nat),
    decreases n,
{
    if n < 10 {
        let mut s = String::new();
        let c = digit(n as usize);
        push_char(&mut s, c);
        assert(s@ =~= seq![digit_char(n as nat)]);
        s
    } else {
        let mut s = u64_text(n / 10);
        let c = digit((n % 10) as usize);
        push_char(&mut s, c);
        assert(n % 10 % 10 == n % 10);
        s
    }
}

/// An integer in decimal, with a leading `-` when negative.
pub open spec fn int_text(v: int) -> Seq<char> {
    if v < 0 {
        seq!['-'] + decimal((-v) as nat)
    } else {
        decimal(v as nat)
    }
}

/// A 64-bit signed number in decimal, as `i64::to_string` gives it.
pub fn i64_text(v: i64) -> (res: String)
    ensures
        res@ == int_text(v as int),
{
    if v < 0 {
        let mut out = String::new();
        push_char(&mut out, '-');
        let m: u64 = if v == i64::MIN {
            9223372036854775808u64
        } else {
            (-v) as u64
        };
        assert(m as int == -(v as int));
        let digits = u64_text(m);
        out.append(digits.as_str());
        assert(out@ =~= seq!['-'] + decimal((-(v as int)) as nat));
        out
    } else {
        u64_text(v as u64)
    }
}

} // verus!
