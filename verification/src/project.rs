//! Project configuration: the module architecture and project versions.
use vstd::prelude::*;
use vstd::string::*;

use crate::text::{
    chars_of, find_char, find_from, has_prefix_str, lemma_find_from, lemma_skip_ws_from, lines_of, lines_spec, skip_ws,
    skip_ws_from, slice_chars, starts_with, str_eq, string_of, trim, trim_chars, trim_end, trim_start, trim_start_chars,
};

verus! {

#[derive(Clone, Debug, PartialEq, Eq)]
pub struct ModulePolicy {
    pub module: String,
    pub may_depend_on: Vec<String>,
}

#[derive(Clone, Debug, PartialEq, Eq)]
pub struct Architecture {
    pub modules: Vec<ModulePolicy>,
}

impl Default for Architecture {
    fn default() -> (res: Self)
        ensures
            res.modules@.len() == 0,
    {
        Architecture { modules: Vec::new() }
    }
}

/// The index of the first policy for `module`, or the number of policies.
pub open spec fn policy_index(ps: Seq<ModulePolicy>, module: Seq<char>, i: int) -> int
    decreases ps.len() - i,
{
    if i < 0 || i >= ps.len() {
        ps.len() as int
    } else if ps[i].module@ == module {
        i
    } else {
        policy_index(ps, module, i + 1)
    }
}

/// The first policy for `module`, if any.
pub open spec fn policy_of(a: Architecture, module: Seq<char>) -> Option<ModulePolicy> {
    let i = policy_index(a.modules@, module, 0);
    if i < a.modules@.len() {
        Some(a.modules@[i])
    } else {
        None
    }
}

impl Architecture {
    /// The first policy declared for a module.
    pub fn policy_for(&self, module: &str) -> (res: Option<&ModulePolicy>)
        ensures
            match (res, policy_of(*self, module@)) {
                (Some(p), Some(q)) => *p == q,
                (None, None) => true,
                _ => false,
            },
    {
        let mut i: usize = 0;
        while i < self.modules.len()
            invariant
                i <= self.modules@.len(),
                policy_index(self.modules@, module@, i as int) == policy_index(self.modules@, module@, 0),
            decreases self.modules@.len() - i,
        {
            if str_eq(self.modules[i].module.as_str(), module) {
                return Some(&self.modules[i]);
            }
            i += 1;
        }
        None
    }
}

/// A module may depend on itself, on anything when it has no policy, and otherwise on the
/// modules its policy lists.
pub open spec fn may_depend(a: Architecture, module: Seq<char>, dependency: Seq<char>) -> bool {
    module == dependency || match policy_of(a, module) {
        None => true,
        Some(p) => p.may_depend_on@.map_values(|s: String| s@).contains(dependency),
    }
}

/// Whether the architecture lets `module` depend on `dependency`.
pub fn dependency_allowed(architecture: &Architecture, module: &str, dependency: &str) -> (res: bool)
    ensures
        res == may_depend(*architecture, module@, dependency@),
{
    if str_eq(module, dependency) {
        return true;
    }
    match architecture.policy_for(module) {
        None => true,
        Some(policy) => {
            let ghost names = policy.may_depend_on@.map_values(|s: String| s@);
            let mut i: usize = 0;
            while i < policy.may_depend_on.len()
                invariant
                    i <= policy.may_depend_on@.len(),
                    names == policy.may_depend_on@.map_values(|s: String| s@),
                    policy_of(*architecture, module@) == Some(*policy),
                    module@ != dependency@,
                    forall|j: int| 0 <= j < i ==> #[trigger] names[j] != dependency@,
                decreases policy.may_depend_on@.len() - i,
            {
                assert(names[i as int] == policy.may_depend_on@[i as int]@);
                if str_eq(policy.may_depend_on[i].as_str(), dependency) {
                    assert(names[i as int] == dependency@);
                    return true;
                }
                i += 1;
            }
            false
        },
    }
}

} // verus!

verus! {

// ---------------------------------------------------------------------------
// Characters from code points
// ---------------------------------------------------------------------------

/// `char::from_u32` (std): the character whose scalar value is `v`; there is one exactly
/// when `v` is at most U+10FFFF and not a surrogate.
#[verifier::external_body]
fn char_from_u32(v: u32) -> (res: Option<char>)
    ensures
        match res {
            Some(c) => c as u32 == v && c == v as char,
            None => v > 0x10FFFF || (0xD800 <= v && v <= 0xDFFF),
        },
{
    char::from_u32(v)
}

/// A scalar value: at most U+10FFFF and not a surrogate.
pub open spec fn is_scalar(v: int) -> bool {
    0 <= v <= 0x10FFFF && !(0xD800 <= v <= 0xDFFF)
}

/// The value of a hexadecimal digit, either case.
pub open spec fn hex_value(c: char) -> Option<int> {
    if '0' <= c && c <= '9' {
        Some(c as int - '0' as int)
    } else if 'a' <= c && c <= 'f' {
        Some(c as int - 'a' as int + 10)
    } else if 'A' <= c && c <= 'F' {
        Some(c as int - 'A' as int + 10)
    } else {
        None
    }
}

/// The number written by the `n` hexadecimal digits at `start`, if they are all there.
pub open spec fn hex_number(t: Seq<char>, start: int, n: int) -> Option<int>
    decreases n,
{
    if n <= 0 {
        Some(0)
    } else if start < 0 || start + n > t.len() {
        None
    } else {
        match (hex_number(t, start, n - 1), hex_value(t[start + n - 1])) {
            (Some(v), Some(d)) => Some(v * 16 + d),
            _ => None,
        }
    }
}

proof fn lemma_hex_number_bound(t: Seq<char>, start: int, n: int)
    requires
        0 <= n,
    ensures
        match hex_number(t, start, n) {
            Some(v) => 0 <= v < pow16(n),
            None => true,
        },
    decreases n,
{
    if n > 0 && start >= 0 && start + n <= t.len() {
        lemma_hex_number_bound(t, start, n - 1);
    }
}

pub open spec fn pow16(n: int) -> int
    decreases n,
{
    if n <= 0 {
        1
    } else {
        16 * pow16(n - 1)
    }
}

fn hex_digit_value(c: char) -> (res: Option<u32>)
    ensures
        match (res, hex_value(c)) {
            (Some(v), Some(w)) => v as int == w && v < 16,
            (None, None) => true,
            _ => false,
        },
{
    if '0' <= c && c <= '9' {
        Some((c as u32) - ('0' as u32))
    } else if 'a' <= c && c <= 'f' {
        Some((c as u32) - ('a' as u32) + 10)
    } else if 'A' <= c && c <= 'F' {
        Some((c as u32) - ('A' as u32) + 10)
    } else {
        None
    }
}

fn read_hex(t: &Vec<char>, start: usize, n: usize) -> (res: Option<u32>)
    requires
        n <= 8,
    ensures
        match (res, hex_number(t@, start as int, n as int)) {
            (Some(v), Some(w)) => v as int == w,
            (None, None) => true,
            _ => false,
        },
{
    if n == 0 {
        return Some(0);
    }
    let tl = t.len();
    if start > tl || n > tl - start {
        return None;
    }
    let mut value: u32 = 0;
    let mut k: usize = 0;
    while k < n
        invariant
            k <= n <= 8,
            start + n <= t@.len(),
            tl == t@.len(),
            hex_number(t@, start as int, k as int) == Some(value as int),
            value < pow16(k as int),
        decreases n - k,
    {
        proof {
            lemma_hex_number_bound(t@, start as int, k as int + 1);
        }
        match hex_digit_value(t[start + k]) {
            Some(d) => {
                assert(pow16(k + 1) == 16 * pow16(k as int));
                assert(pow16(k + 1) <= pow16(8)) by {
                    lemma_pow16_mono(k + 1, 8);
                }
                assert(pow16(8) == 4294967296) by {
                    reveal_with_fuel(pow16, 9);
                }
                assert((value as int) * 16 + (d as int) < pow16(k + 1)) by (nonlinear_arith)
                    requires
                        value < pow16(k as int),
                        d < 16,
                        pow16(k + 1) == 16 * pow16(k as int),
                ;
                value = value * 16 + d;
            },
            None => {
                proof {
                    lemma_hex_none(t@, start as int, k as int, n as int);
                }
                return None;
            },
        }
        k += 1;
    }
    Some(value)
}

proof fn lemma_pow16_mono(a: int, b: int)
    requires
        0 <= a <= b,
    ensures
        pow16(a) <= pow16(b),
    decreases b - a,
{
    if a < b {
        lemma_pow16_mono(a, b - 1);
        assert(pow16(b - 1) >= 1) by {
            lemma_pow16_pos(b - 1);
        }
    }
}

proof fn lemma_pow16_pos(a: int)
    ensures
        pow16(a) >= 1,
    decreases a,
{
    if a > 0 {
        lemma_pow16_pos(a - 1);
    }
}

/// A digit that is not hexadecimal stops the number for good.
proof fn lemma_hex_none(t: Seq<char>, start: int, k: int, n: int)
    requires
        0 <= k < n,
        0 <= start,
        start + n <= t.len(),
        hex_value(t[start + k]) is None,
    ensures
        hex_number(t, start, n) is None,
    decreases n - k,
{
    if k + 1 < n {
        lemma_hex_none(t, start, k, n - 1);
    }
}


// ---------------------------------------------------------------------------
// JSON strings
// ---------------------------------------------------------------------------

/// A `\uXXXX` escape whose digits start at `p`: a character, pairing a high surrogate
/// with the low surrogate escape that must follow it; with the position after it.
pub open spec fn json_unicode(t: Seq<char>, p: int) -> Option<(char, int)> {
    match hex_number(t, p, 4) {
        None => None,
        Some(code) => if 0xD800 <= code <= 0xDBFF {
            if p + 6 <= t.len() && t[p + 4] == '\\' && t[p + 5] == 'u' {
                match hex_number(t, p + 6, 4) {
                    Some(low) => if 0xDC00 <= low <= 0xDFFF {
                        Some(((0x10000 + (code - 0xD800) * 1024 + (low - 0xDC00)) as u32 as char, p + 10))
                    } else {
                        None
                    },
                    None => None,
                }
            } else {
                None
            }
        } else if 0xDC00 <= code <= 0xDFFF {
            None
        } else {
            Some((code as u32 as char, p + 4))
        },
    }
}

/// The character a one-letter escape stands for, if it is one of `" \ / b f n r t`.
pub open spec fn simple_escape(e: char) -> Option<char> {
    if e == '"' || e == '\\' || e == '/' {
        Some(e)
    } else if e == 'b' {
        Some('\u{8}')
    } else if e == 'f' {
        Some('\u{c}')
    } else if e == 'n' {
        Some('\n')
    } else if e == 'r' {
        Some('\r')
    } else if e == 't' {
        Some('\t')
    } else {
        None
    }
}

/// The rest of a JSON string from `i`, after `acc`: its characters and the position after
/// the closing quote; none for a bad escape, a control character or a missing quote.
pub open spec fn str_body(t: Seq<char>, i: int, acc: Seq<char>) -> Option<(Seq<char>, int)>
    decreases t.len() - i,
{
    if i < 0 || i >= t.len() {
        None
    } else if t[i] == '\\' {
        if i + 1 >= t.len() {
            None
        } else {
            let e = t[i + 1];
            match simple_escape(e) {
                Some(ch) => str_body(t, i + 2, acc.push(ch)),
                None => if e == 'u' {
                    match json_unicode(t, i + 2) {
                        Some((ch, end)) => if i < end <= t.len() {
                            str_body(t, end, acc.push(ch))
                        } else {
                            None
                        },
                        None => None,
                    }
                } else {
                    None
                },
            }
        }
    } else if t[i] == '"' {
        Some((acc, i + 1))
    } else if crate::json::is_control(t[i]) {
        None
    } else {
        str_body(t, i + 1, acc.push(t[i]))
    }
}

/// The JSON string that starts at the first quote at or after `start`.
pub open spec fn read_string_at(t: Seq<char>, start: int) -> Option<(Seq<char>, int)> {
    let q = find_from(t, '"', start);
    if q >= t.len() {
        None
    } else {
        str_body(t, q + 1, seq![])
    }
}

fn read_unicode(t: &Vec<char>, p: usize) -> (res: Option<(char, usize)>)
    ensures
        match (res, json_unicode(t@, p as int)) {
            (Some((c, e)), Some((d, f))) => c == d && e as int == f,
            (None, None) => true,
            _ => false,
        },
{
    let code = match read_hex(t, p, 4) {
        Some(v) => v,
        None => return None,
    };
    assert(p + 4 <= t@.len());
    proof {
        lemma_hex_number_bound(t@, p as int, 4);
        reveal_with_fuel(pow16, 5);
    }
    if 0xD800 <= code && code <= 0xDBFF {
        let tl = t.len();
        if p <= tl && 6 <= tl - p && t[p + 4] == '\\' && t[p + 5] == 'u' {
            let low = match read_hex(t, p + 6, 4) {
                Some(v) => v,
                None => return None,
            };
            proof {
                lemma_hex_number_bound(t@, p + 6, 4);
            }
            if 0xDC00 <= low && low <= 0xDFFF {
                let scalar: u32 = 0x10000 + (code - 0xD800) * 1024 + (low - 0xDC00);
                match char_from_u32(scalar) {
                    Some(c) => {
                        assert(c == (scalar as char));
                        return Some((c, p + 10));
                    },
                    None => {
                        return None;
                    },
                }
            }
            return None;
        }
        return None;
    }
    if 0xDC00 <= code && code <= 0xDFFF {
        return None;
    }
    let tl = t.len();
    assert(p + 4 <= tl);
    match char_from_u32(code) {
        Some(c) => {
            assert(c == (code as char));
            Some((c, p + 4))
        },
        None => None,
    }
}

fn escape_value(e: char) -> (res: Option<char>)
    ensures
        res == simple_escape(e),
{
    if e == '"' || e == '\\' || e == '/' {
        Some(e)
    } else if e == 'b' {
        Some('\u{8}')
    } else if e == 'f' {
        Some('\u{c}')
    } else if e == 'n' {
        Some('\n')
    } else if e == 'r' {
        Some('\r')
    } else if e == 't' {
        Some('\t')
    } else {
        None
    }
}

/// Reads the JSON string that starts at the first quote at or after `start`: its value and
/// the position after its closing quote.
fn read_string(t: &Vec<char>, start: usize) -> (res: Option<(Vec<char>, usize)>)
    requires
        start <= t@.len(),
    ensures
        match (res, read_string_at(t@, start as int)) {
            (Some((v, e)), Some((w, f))) => v@ == w && e as int == f && start < e <= t@.len(),
            (None, None) => true,
            _ => false,
        },
{
    let q = find_char(t.as_slice(), '"', start);
    if q >= t.len() {
        return None;
    }
    let mut acc: Vec<char> = Vec::new();
    let mut i = q + 1;
    while i < t.len()
        invariant
            q < i <= t@.len(),
            start <= q < t@.len(),
            q == find_from(t@, '"', start as int),
            str_body(t@, i as int, acc@) == str_body(t@, q + 1, seq![]),
        decreases t@.len() - i,
    {
        let c = t[i];
        assert(c == t@[i as int]);
        if c == '\\' {
            if i + 1 >= t.len() {
                assert(str_body(t@, i as int, acc@) is None);
                return None;
            }
            let e = t[i + 1];
            match escape_value(e) {
                Some(ch) => {
                    acc.push(ch);
                    i = i + 2;
                },
                None => {
                    if e != 'u' {
                        assert(str_body(t@, i as int, acc@) is None);
                        return None;
                    }
                    match read_unicode(t, i + 2) {
                        Some((ch, end)) => {
                            if !(i < end && end <= t.len()) {
                                return None;
                            }
                            acc.push(ch);
                            i = end;
                        },
                        None => {
                            return None;
                        },
                    }
                },
            }
        } else if c == '"' {
            return Some((acc, i + 1));
        } else if c <= '\u{1f}' || ('\u{7f}' <= c && c <= '\u{9f}') {
            return None;
        } else {
            acc.push(c);
            i = i + 1;
        }
    }
    None
}


// ---------------------------------------------------------------------------
// JSON objects, scanned as text
// ---------------------------------------------------------------------------

/// Where the `close` that matches an `open` is, scanning from `i` with `depth` opens
/// pending, skipping quoted strings and escaped characters in them.
pub open spec fn match_from(t: Seq<char>, i: int, open: char, close: char, depth: int, in_string: bool, escaped: bool) -> Option<int>
    decreases t.len() - i,
{
    if i < 0 || i >= t.len() {
        None
    } else if escaped {
        match_from(t, i + 1, open, close, depth, in_string, false)
    } else if in_string && t[i] == '\\' {
        match_from(t, i + 1, open, close, depth, in_string, true)
    } else if t[i] == '"' {
        match_from(t, i + 1, open, close, depth, !in_string, false)
    } else if in_string {
        match_from(t, i + 1, open, close, depth, in_string, false)
    } else if t[i] == open {
        match_from(t, i + 1, open, close, depth + 1, in_string, false)
    } else if t[i] == close {
        if depth - 1 == 0 {
            Some(i)
        } else {
            match_from(t, i + 1, open, close, depth - 1, in_string, false)
        }
    } else {
        match_from(t, i + 1, open, close, depth, in_string, false)
    }
}

/// Where a value that starts at `i` ends: at the first comma outside strings, brackets and
/// braces, or at `limit`.
pub open spec fn end_from(t: Seq<char>, i: int, limit: int, stack: Seq<char>, in_string: bool, escaped: bool) -> int
    decreases limit - i,
{
    if i < 0 || i >= limit || i >= t.len() {
        i
    } else if escaped {
        end_from(t, i + 1, limit, stack, in_string, false)
    } else if in_string && t[i] == '\\' {
        end_from(t, i + 1, limit, stack, in_string, true)
    } else if t[i] == '"' {
        end_from(t, i + 1, limit, stack, !in_string, false)
    } else if in_string {
        end_from(t, i + 1, limit, stack, in_string, false)
    } else if t[i] == '{' {
        end_from(t, i + 1, limit, stack.push('}'), in_string, false)
    } else if t[i] == '[' {
        end_from(t, i + 1, limit, stack.push(']'), in_string, false)
    } else if (t[i] == '}' || t[i] == ']') && stack.len() > 0 && stack.last() == t[i] {
        end_from(t, i + 1, limit, stack.drop_last(), in_string, false)
    } else if t[i] == ',' && stack.len() == 0 {
        i
    } else {
        end_from(t, i + 1, limit, stack, in_string, false)
    }
}

pub open spec fn value_end_at(t: Seq<char>, i: int, limit: int) -> int {
    end_from(t, i, limit, seq![], false, false)
}

/// Past a value and the comma after it.
pub open spec fn skip_value_at(t: Seq<char>, i: int, limit: int) -> int {
    let e = value_end_at(t, i, limit);
    if e < limit && e < t.len() && t[e] == ',' {
        e + 1
    } else {
        e
    }
}

pub proof fn lemma_end_from(t: Seq<char>, i: int, limit: int, stack: Seq<char>, in_string: bool, escaped: bool)
    requires
        0 <= i,
    ensures
        end_from(t, i, limit, stack, in_string, escaped) >= i,
        i <= t.len() ==> end_from(t, i, limit, stack, in_string, escaped) <= t.len(),
        i < limit && i < t.len() && !escaped && !in_string && stack.len() == 0 && t[i] != ',' ==> end_from(
            t,
            i,
            limit,
            stack,
            in_string,
            escaped,
        ) > i,
    decreases limit - i,
{
    if 0 <= i < limit && i < t.len() {
        if escaped {
            lemma_end_from(t, i + 1, limit, stack, in_string, false);
        } else if in_string && t[i] == '\\' {
            lemma_end_from(t, i + 1, limit, stack, in_string, true);
        } else if t[i] == '"' {
            lemma_end_from(t, i + 1, limit, stack, !in_string, false);
        } else if in_string {
            lemma_end_from(t, i + 1, limit, stack, in_string, false);
        } else if t[i] == '{' {
            lemma_end_from(t, i + 1, limit, stack.push('}'), in_string, false);
        } else if t[i] == '[' {
            lemma_end_from(t, i + 1, limit, stack.push(']'), in_string, false);
        } else if (t[i] == '}' || t[i] == ']') && stack.len() > 0 && stack.last() == t[i] {
            lemma_end_from(t, i + 1, limit, stack.drop_last(), in_string, false);
        } else if t[i] == ',' && stack.len() == 0 {
        } else {
            lemma_end_from(t, i + 1, limit, stack, in_string, false);
        }
    }
}

pub proof fn lemma_str_body(t: Seq<char>, i: int, acc: Seq<char>)
    ensures
        match str_body(t, i, acc) {
            Some((_, e)) => i < e <= t.len(),
            None => true,
        },
    decreases t.len() - i,
{
    if 0 <= i < t.len() {
        if t[i] == '\\' {
            if i + 1 < t.len() {
                let e = t[i + 1];
                match simple_escape(e) {
                    Some(ch) => lemma_str_body(t, i + 2, acc.push(ch)),
                    None => if e == 'u' {
                        match json_unicode(t, i + 2) {
                            Some((ch, end)) => if i < end <= t.len() {
                                lemma_str_body(t, end, acc.push(ch));
                            },
                            None => {},
                        }
                    },
                }
            }
        } else if t[i] == '"' {
        } else if !crate::json::is_control(t[i]) {
            lemma_str_body(t, i + 1, acc.push(t[i]));
        }
    }
}

pub proof fn lemma_read_string_at(t: Seq<char>, start: int)
    requires
        0 <= start <= t.len(),
    ensures
        match read_string_at(t, start) {
            Some((_, e)) => start < e <= t.len(),
            None => true,
        },
{
    lemma_find_from(t, '"', start);
    let q = find_from(t, '"', start);
    if q < t.len() {
        lemma_str_body(t, q + 1, seq![]);
    }
}

/// Everything from `k` on is whitespace.
pub open spec fn blank_from(t: Seq<char>, k: int) -> bool {
    skip_ws_from(t, k) >= t.len()
}

/// The braces of the root object: the first non-blank character opens it, and only blanks
/// follow its matching close.
pub open spec fn root_bounds(t: Seq<char>) -> Option<(int, int)> {
    let r = skip_ws_from(t, 0);
    if r >= t.len() || t[r] != '{' {
        None
    } else {
        match match_from(t, r, '{', '}', 0, false, false) {
            None => None,
            Some(c) => if blank_from(t, c + 1) {
                Some((r, c))
            } else {
                None
            },
        }
    }
}

/// The value text of the first field named `key` of the root object, scanning fields from
/// `i` up to the root's closing brace at `close`; trailing blanks removed.
pub open spec fn field_scan(t: Seq<char>, key: Seq<char>, i: int, close: int) -> Option<Seq<char>>
    decreases t.len() - i,
{
    if i < 0 || i >= close || close > t.len() {
        None
    } else {
        let j = skip_ws_from(t, i);
        if j >= close {
            None
        } else if t[j] == ',' || t[j] != '"' {
            proof {
                lemma_skip_ws_from(t, i);
            }
            field_scan(t, key, j + 1, close)
        } else {
            proof {
                lemma_skip_ws_from(t, i);
                lemma_read_string_at(t, j);
            }
            match read_string_at(t, j) {
                None => None,
                Some((cand, key_end)) => {
                    let k = skip_ws_from(t, key_end);
                    proof {
                        lemma_skip_ws_from(t, key_end);
                    }
                    if !(k < t.len() && t[k] == ':') {
                        field_scan(t, key, k, close)
                    } else {
                        let v = skip_ws_from(t, k + 1);
                        proof {
                            lemma_skip_ws_from(t, k + 1);
                            lemma_end_from(t, v, close, seq![], false, false);
                        }
                        if cand == key {
                            Some(trim_end(t.subrange(v, value_end_at(t, v, close))))
                        } else {
                            field_scan(t, key, skip_value_at(t, v, close), close)
                        }
                    }
                },
            }
        }
    }
}

/// The value text of the root object's first field named `key`.
pub open spec fn object_value(t: Seq<char>, key: Seq<char>) -> Option<Seq<char>> {
    match root_bounds(t) {
        None => None,
        Some((o, c)) => field_scan(t, key, o + 1, c),
    }
}

/// The root object's field `key`, when its value is one JSON string and nothing else.
pub open spec fn top_string(t: Seq<char>, key: Seq<char>) -> Option<Seq<char>> {
    match object_value(t, key) {
        None => None,
        Some(v) => if v.len() == 0 || v[0] != '"' {
            None
        } else {
            match read_string_at(v, 0) {
                None => None,
                Some((s, e)) => if blank_from(v, e) {
                    Some(s)
                } else {
                    None
                },
            }
        },
    }
}


fn find_matching(t: &Vec<char>, open: usize, oc: char, cc: char) -> (res: Option<usize>)
    requires
        open <= t@.len(),
    ensures
        match (res, match_from(t@, open as int, oc, cc, 0, false, false)) {
            (Some(i), Some(j)) => i as int == j && i < t@.len(),
            (None, None) => true,
            _ => false,
        },
{
    let mut i = open;
    let mut ups: usize = 0;
    let mut downs: usize = 0;
    let mut in_string = false;
    let mut escaped = false;
    while i < t.len()
        invariant
            open <= i <= t@.len(),
            ups <= i - open,
            downs <= i - open,
            match_from(t@, i as int, oc, cc, ups - downs, in_string, escaped) == match_from(t@, open as int, oc, cc, 0, false, false),
        decreases t@.len() - i,
    {
        let c = t[i];
        if escaped {
            escaped = false;
        } else if in_string && c == '\\' {
            escaped = true;
        } else if c == '"' {
            in_string = !in_string;
        } else if in_string {
        } else if c == oc {
            ups = ups + 1;
        } else if c == cc {
            if downs + 1 == ups {
                return Some(i);
            }
            downs = downs + 1;
        }
        i = i + 1;
    }
    None
}

fn value_end(t: &Vec<char>, start: usize, limit: usize) -> (res: usize)
    requires
        start <= t@.len(),
    ensures
        res as int == value_end_at(t@, start as int, limit as int),
{
    let mut i = start;
    let mut stack: Vec<char> = Vec::new();
    let mut in_string = false;
    let mut escaped = false;
    while i < limit && i < t.len()
        invariant
            start <= i <= t@.len(),
            end_from(t@, i as int, limit as int, stack@, in_string, escaped) == value_end_at(t@, start as int, limit as int),
        decreases t@.len() - i,
    {
        let c = t[i];
        if escaped {
            escaped = false;
        } else if in_string && c == '\\' {
            escaped = true;
        } else if c == '"' {
            in_string = !in_string;
        } else if in_string {
        } else if c == '{' {
            stack.push('}');
        } else if c == '[' {
            stack.push(']');
        } else if (c == '}' || c == ']') && stack.len() > 0 && stack[stack.len() - 1] == c {
            let ghost before = stack@;
            stack.pop();
            assert(stack@ =~= before.drop_last());
        } else if c == ',' && stack.len() == 0 {
            return i;
        }
        i = i + 1;
    }
    i
}

fn skip_value(t: &Vec<char>, start: usize, limit: usize) -> (res: usize)
    requires
        start <= t@.len(),
    ensures
        res as int == skip_value_at(t@, start as int, limit as int),
        res <= t@.len(),
{
    proof {
        lemma_end_from(t@, start as int, limit as int, seq![], false, false);
    }
    let e = value_end(t, start, limit);
    if e < limit && e < t.len() && t[e] == ',' {
        e + 1
    } else {
        e
    }
}

fn root_object_bounds(t: &Vec<char>) -> (res: Option<(usize, usize)>)
    ensures
        match (res, root_bounds(t@)) {
            (Some((o, c)), Some((p, d))) => o as int == p && c as int == d && o < c < t@.len(),
            (None, None) => true,
            _ => false,
        },
{
    let r = skip_ws(t.as_slice(), 0);
    if r >= t.len() || t[r] != '{' {
        return None;
    }
    let c = match find_matching(t, r, '{', '}') {
        Some(c) => c,
        None => return None,
    };
    proof {
        lemma_match_after(t@, r as int, '{', '}');
    }
    let after = skip_ws(t.as_slice(), c + 1);
    if after >= t.len() {
        Some((r, c))
    } else {
        None
    }
}

/// A match found from an opening character lies after it.
pub proof fn lemma_match_after(t: Seq<char>, r: int, oc: char, cc: char)
    requires
        0 <= r < t.len(),
        t[r] == oc,
        oc != cc,
        oc != '"',
        oc != '\\',
    ensures
        match match_from(t, r, oc, cc, 0, false, false) {
            Some(c) => r < c,
            None => true,
        },
{
    lemma_match_from_ge(t, r + 1, oc, cc, 1, false, false);
}

pub proof fn lemma_match_from_ge(t: Seq<char>, i: int, oc: char, cc: char, depth: int, in_string: bool, escaped: bool)
    ensures
        match match_from(t, i, oc, cc, depth, in_string, escaped) {
            Some(c) => i <= c,
            None => true,
        },
    decreases t.len() - i,
{
    if 0 <= i < t.len() {
        if escaped {
            lemma_match_from_ge(t, i + 1, oc, cc, depth, in_string, false);
        } else if in_string && t[i] == '\\' {
            lemma_match_from_ge(t, i + 1, oc, cc, depth, in_string, true);
        } else if t[i] == '"' {
            lemma_match_from_ge(t, i + 1, oc, cc, depth, !in_string, false);
        } else if in_string {
            lemma_match_from_ge(t, i + 1, oc, cc, depth, in_string, false);
        } else if t[i] == oc {
            lemma_match_from_ge(t, i + 1, oc, cc, depth + 1, in_string, false);
        } else if t[i] == cc {
            if depth - 1 != 0 {
                lemma_match_from_ge(t, i + 1, oc, cc, depth - 1, in_string, false);
            }
        } else {
            lemma_match_from_ge(t, i + 1, oc, cc, depth, in_string, false);
        }
    }
}

/// The value text of the root object's first field named `key`, trailing blanks removed.
fn object_field_value(t: &Vec<char>, key: &Vec<char>) -> (res: Option<Vec<char>>)
    ensures
        match (res, object_value(t@, key@)) {
            (Some(v), Some(w)) => v@ == w,
            (None, None) => true,
            _ => false,
        },
{
    let (o, close) = match root_object_bounds(t) {
        Some(b) => b,
        None => return None,
    };
    let mut i = o + 1;
    while i < close
        invariant
            o < close < t@.len(),
            o + 1 <= i <= t@.len(),
            root_bounds(t@) == Some((o as int, close as int)),
            field_scan(t@, key@, i as int, close as int) == field_scan(t@, key@, o + 1, close as int),
        decreases t@.len() - i,
    {
        let j = skip_ws(t.as_slice(), i);
        if j >= close {
            return None;
        }
        if t[j] == ',' || t[j] != '"' {
            i = j + 1;
            continue;
        }
        proof {
            lemma_read_string_at(t@, j as int);
        }
        let (cand, key_end) = match read_string(t, j) {
            Some(x) => x,
            None => return None,
        };
        let k = skip_ws(t.as_slice(), key_end);
        if !(k < t.len() && t[k] == ':') {
            i = k;
            continue;
        }
        let v = skip_ws(t.as_slice(), k + 1);
        proof {
            lemma_end_from(t@, v as int, close as int, seq![], false, false);
        }
        if crate::text::seq_eq(cand.as_slice(), key.as_slice()) {
            let e = value_end(t, v, close);
            let sub = crate::text::slice_chars(t.as_slice(), v, e);
            let trimmed = crate::text::trim_end_chars(sub.as_slice());
            return Some(trimmed);
        }
        i = skip_value(t, v, close);
    }
    None
}

/// The root object's field `key` when its value is one JSON string.
fn top_level_string_value(t: &Vec<char>, key: &Vec<char>) -> (res: Option<Vec<char>>)
    ensures
        match (res, top_string(t@, key@)) {
            (Some(v), Some(w)) => v@ == w,
            (None, None) => true,
            _ => false,
        },
{
    let v = match object_field_value(t, key) {
        Some(v) => v,
        None => return None,
    };
    if v.len() == 0 || v[0] != '"' {
        return None;
    }
    let (s, e) = match read_string(&v, 0) {
        Some(x) => x,
        None => return None,
    };
    let after = skip_ws(v.as_slice(), e);
    if after >= v.len() {
        Some(s)
    } else {
        None
    }
}

/// The project's version: the root object's `"version"` string in `serow.project`.
pub fn parse_project_version(source: &str) -> (res: Option<String>)
    ensures
        match (res, top_string(source@, "version"@)) {
            (Some(v), Some(w)) => v@ == w,
            (None, None) => true,
            _ => false,
        },
{
    let t = chars_of(source);
    let key = chars_of("version");
    match top_level_string_value(&t, &key) {
        Some(v) => Some(string_of(v.as_slice())),
        None => None,
    }
}


pub proof fn lemma_match_below(t: Seq<char>, i: int, oc: char, cc: char, depth: int, in_string: bool, escaped: bool)
    ensures
        match match_from(t, i, oc, cc, depth, in_string, escaped) {
            Some(c) => i <= c < t.len(),
            None => true,
        },
    decreases t.len() - i,
{
    if 0 <= i < t.len() {
        if escaped {
            lemma_match_below(t, i + 1, oc, cc, depth, in_string, false);
        } else if in_string && t[i] == '\\' {
            lemma_match_below(t, i + 1, oc, cc, depth, in_string, true);
        } else if t[i] == '"' {
            lemma_match_below(t, i + 1, oc, cc, depth, !in_string, false);
        } else if in_string {
            lemma_match_below(t, i + 1, oc, cc, depth, in_string, false);
        } else if t[i] == oc {
            lemma_match_below(t, i + 1, oc, cc, depth + 1, in_string, false);
        } else if t[i] == cc {
            if depth - 1 != 0 {
                lemma_match_below(t, i + 1, oc, cc, depth - 1, in_string, false);
            }
        } else {
            lemma_match_below(t, i + 1, oc, cc, depth, in_string, false);
        }
    }
}

/// The strings of a JSON array's text from `i` up to its closing bracket at `close`; other
/// values are skipped.
pub open spec fn deps_scan(v: Seq<char>, i: int, close: int) -> Seq<Seq<char>>
    decreases v.len() - i,
{
    if i < 0 || i >= close || close > v.len() {
        seq![]
    } else {
        let j = skip_ws_from(v, i);
        proof {
            lemma_skip_ws_from(v, i);
        }
        if j >= close {
            seq![]
        } else if v[j] == ',' {
            deps_scan(v, j + 1, close)
        } else if v[j] == '"' {
            proof {
                lemma_read_string_at(v, j);
            }
            match read_string_at(v, j) {
                None => seq![],
                Some((d, e)) => seq![d] + deps_scan(v, e, close),
            }
        } else {
            proof {
                lemma_end_from(v, j, close, seq![], false, false);
            }
            deps_scan(v, skip_value_at(v, j, close), close)
        }
    }
}

/// The modules a policy object allows: the strings of its `"may_depend_on"` array.
pub open spec fn deps_of(object: Seq<char>) -> Seq<Seq<char>> {
    match object_value(object, "may_depend_on"@) {
        None => seq![],
        Some(val) => if val.len() == 0 || val[0] != '[' {
            seq![]
        } else {
            match match_from(val, 0, '[', ']', 0, false, false) {
                None => seq![],
                Some(c) => deps_scan(val, 1, c),
            }
        },
    }
}

/// The policies of a `"modules"` object's text from `i` up to its closing brace at `close`:
/// each quoted module name with its object; fields that are not objects are passed over.
pub open spec fn policy_scan(m: Seq<char>, i: int, close: int) -> Seq<(Seq<char>, Seq<Seq<char>>)>
    decreases m.len() - i,
{
    if i < 0 || i >= close || close > m.len() {
        seq![]
    } else {
        proof {
            lemma_read_string_at(m, i);
        }
        match read_string_at(m, i) {
            None => seq![],
            Some((module, key_end)) => {
                let k = skip_ws_from(m, key_end);
                proof {
                    lemma_skip_ws_from(m, key_end);
                }
                if !(k < m.len() && m[k] == ':') {
                    policy_scan(m, key_end, close)
                } else {
                    let v = skip_ws_from(m, k + 1);
                    proof {
                        lemma_skip_ws_from(m, k + 1);
                    }
                    if !(v < m.len() && m[v] == '{') {
                        if v < m.len() {
                            policy_scan(m, v + 1, close)
                        } else {
                            seq![]
                        }
                    } else {
                        proof {
                            lemma_match_below(m, v, '{', '}', 0, false, false);
                            lemma_match_after(m, v, '{', '}');
                        }
                        match match_from(m, v, '{', '}', 0, false, false) {
                            None => seq![],
                            Some(oe) => seq![(module, deps_of(m.subrange(v, oe + 1)))] + policy_scan(m, oe + 1, close),
                        }
                    }
                }
            },
        }
    }
}

/// The module policies of a project file: `{"architecture": {"modules": {"m":
/// {"may_depend_on": ["n", ...]}, ...}}}`.
pub open spec fn architecture_of(t: Seq<char>) -> Seq<(Seq<char>, Seq<Seq<char>>)> {
    match object_value(t, "architecture"@) {
        None => seq![],
        Some(a) => match object_value(a, "modules"@) {
            None => seq![],
            Some(m) => if m.len() == 0 || m[0] != '{' {
                seq![]
            } else {
                match match_from(m, 0, '{', '}', 0, false, false) {
                    None => seq![],
                    Some(c) => policy_scan(m, 1, c),
                }
            },
        },
    }
}

pub open spec fn policy_view(p: ModulePolicy) -> (Seq<char>, Seq<Seq<char>>) {
    (p.module@, p.may_depend_on@.map_values(|s: String| s@))
}

fn parse_may_depend_on(object: &Vec<char>) -> (res: Vec<String>)
    ensures
        res@.map_values(|s: String| s@) == deps_of(object@),
{
    let key = chars_of("may_depend_on");
    let value = match object_field_value(object, &key) {
        Some(v) => v,
        None => {
            assert(Seq::<String>::empty().map_values(|s: String| s@) =~= Seq::<Seq<char>>::empty());
            return Vec::new();
        },
    };
    let mut out: Vec<String> = Vec::new();
    assert(out@.map_values(|s: String| s@) =~= Seq::<Seq<char>>::empty());
    if value.len() == 0 || value[0] != '[' {
        return out;
    }
    let close = match find_matching(&value, 0, '[', ']') {
        Some(c) => c,
        None => return out,
    };
    let mut i: usize = 1;
    assert(deps_of(object@) == deps_scan(value@, 1, close as int));
    assert(out@.map_values(|s: String| s@) + deps_scan(value@, 1, close as int) =~= deps_scan(value@, 1, close as int));
    while i < close
        invariant
            close < value@.len(),
            1 <= i <= value@.len(),
            deps_of(object@) == deps_scan(value@, 1, close as int),
            out@.map_values(|s: String| s@) + deps_scan(value@, i as int, close as int) == deps_scan(value@, 1, close as int),
        decreases value@.len() - i,
    {
        let ghost before = out@.map_values(|s: String| s@);
        let j = skip_ws(value.as_slice(), i);
        if j >= close {
            assert(deps_scan(value@, i as int, close as int) =~= Seq::<Seq<char>>::empty());
            assert(before =~= before + Seq::<Seq<char>>::empty());
            return out;
        }
        if value[j] == ',' {
            i = j + 1;
            continue;
        }
        if value[j] == '"' {
            proof {
                lemma_read_string_at(value@, j as int);
            }
            match read_string(&value, j) {
                Some((d, e)) => {
                    out.push(string_of(d.as_slice()));
                    assert(out@.map_values(|s: String| s@) =~= before.push(d@));
                    assert(before + deps_scan(value@, i as int, close as int) =~= before.push(d@) + deps_scan(value@, e as int, close as int));
                    i = e;
                    continue;
                },
                None => {
                    assert(deps_scan(value@, i as int, close as int) =~= Seq::<Seq<char>>::empty());
                    assert(before =~= before + Seq::<Seq<char>>::empty());
                    return out;
                },
            }
        }
        proof {
            lemma_end_from(value@, j as int, close as int, seq![], false, false);
        }
        i = skip_value(&value, j, close);
    }
    assert(out@.map_values(|s: String| s@) =~= out@.map_values(|s: String| s@) + Seq::<Seq<char>>::empty());
    out
}

/// The module policies of a project file's text; none when it has no well-formed
/// `architecture.modules` object.
pub fn parse_architecture(source: &str) -> (res: Architecture)
    ensures
        res.modules@.map_values(|p: ModulePolicy| policy_view(p)) == architecture_of(source@),
{
    let t = chars_of(source);
    let mut out: Vec<ModulePolicy> = Vec::new();
    assert(out@.map_values(|p: ModulePolicy| policy_view(p)) =~= Seq::<(Seq<char>, Seq<Seq<char>>)>::empty());
    let a = match object_field_value(&t, &chars_of("architecture")) {
        Some(a) => a,
        None => return Architecture { modules: out },
    };
    let m = match object_field_value(&a, &chars_of("modules")) {
        Some(m) => m,
        None => return Architecture { modules: out },
    };
    if m.len() == 0 || m[0] != '{' {
        return Architecture { modules: out };
    }
    let close = match find_matching(&m, 0, '{', '}') {
        Some(c) => c,
        None => return Architecture { modules: out },
    };
    let mut i: usize = 1;
    assert(architecture_of(source@) == policy_scan(m@, 1, close as int));
    assert(out@.map_values(|p: ModulePolicy| policy_view(p)) + policy_scan(m@, 1, close as int) =~= policy_scan(m@, 1, close as int));
    while i < close
        invariant
            close < m@.len(),
            1 <= i <= m@.len(),
            architecture_of(source@) == policy_scan(m@, 1, close as int),
            out@.map_values(|p: ModulePolicy| policy_view(p)) + policy_scan(m@, i as int, close as int) == policy_scan(m@, 1, close as int),
        decreases m@.len() - i,
    {
        let ghost before = out@.map_values(|p: ModulePolicy| policy_view(p));
        proof {
            lemma_read_string_at(m@, i as int);
        }
        let (module, key_end) = match read_string(&m, i) {
            Some(x) => x,
            None => {
                assert(before =~= before + Seq::<(Seq<char>, Seq<Seq<char>>)>::empty());
                return Architecture { modules: out };
            },
        };
        let k = skip_ws(m.as_slice(), key_end);
        if !(k < m.len() && m[k] == ':') {
            i = key_end;
            continue;
        }
        let v = skip_ws(m.as_slice(), k + 1);
        if !(v < m.len() && m[v] == '{') {
            if v < m.len() {
                i = v + 1;
                continue;
            }
            assert(policy_scan(m@, i as int, close as int) =~= Seq::<(Seq<char>, Seq<Seq<char>>)>::empty());
            assert(before =~= before + Seq::<(Seq<char>, Seq<Seq<char>>)>::empty());
            return Architecture { modules: out };
        }
        proof {
            lemma_match_below(m@, v as int, '{', '}', 0, false, false);
            lemma_match_after(m@, v as int, '{', '}');
        }
        let oe = match find_matching(&m, v, '{', '}') {
            Some(x) => x,
            None => {
                assert(policy_scan(m@, i as int, close as int) =~= Seq::<(Seq<char>, Seq<Seq<char>>)>::empty());
                assert(before =~= before + Seq::<(Seq<char>, Seq<Seq<char>>)>::empty());
                return Architecture { modules: out };
            },
        };
        let object = crate::text::slice_chars(m.as_slice(), v, oe + 1);
        let deps = parse_may_depend_on(&object);
        let p = ModulePolicy { module: string_of(module.as_slice()), may_depend_on: deps };
        out.push(p);
        assert(out@.map_values(|p: ModulePolicy| policy_view(p)) =~= before.push((module@, deps_of(object@))));
        assert(before + policy_scan(m@, i as int, close as int) =~= before.push((module@, deps_of(object@))) + policy_scan(m@, oe + 1, close as int));
        i = oe + 1;
    }
    assert(out@.map_values(|p: ModulePolicy| policy_view(p)) =~= out@.map_values(|p: ModulePolicy| policy_view(p)) + Seq::<(Seq<char>, Seq<Seq<char>>)>::empty());
    Architecture { modules: out }
}


// ---------------------------------------------------------------------------
// The crate manifest
// ---------------------------------------------------------------------------

/// The name of a TOML table header line `[name]`, trimmed; none for an array of tables or
/// anything but a comment after the bracket.
pub open spec fn table_name(tl: Seq<char>) -> Option<Seq<char>> {
    if tl.len() == 0 || tl[0] != '[' {
        None
    } else {
        let a = tl.drop_first();
        let close = find_from(a, ']', 0);
        if a.len() > 0 && a[0] == '[' {
            None
        } else if close >= a.len() {
            None
        } else {
            let k = skip_ws_from(a, close + 1);
            if !(k >= a.len() || a[k] == '#') {
                None
            } else {
                Some(trim(a.take(close)))
            }
        }
    }
}

/// A control character that a TOML string may not hold: all but the tab.
pub open spec fn forbidden_control(c: char) -> bool {
    crate::json::is_control(c) && c != '\t'
}

/// A `\uXXXX` or `\UXXXXXXXX` escape in a TOML string: a scalar value, with the position
/// after it.
pub open spec fn toml_unicode(v: Seq<char>, p: int, n: int) -> Option<(char, int)> {
    match hex_number(v, p, n) {
        None => None,
        Some(code) => if is_scalar(code) {
            Some((code as u32 as char, p + n))
        } else {
            None
        },
    }
}

/// The rest of a TOML basic string from `i`, after `acc`.
pub open spec fn basic_body(v: Seq<char>, i: int, acc: Seq<char>) -> Option<(Seq<char>, int)>
    decreases v.len() - i,
{
    if i < 0 || i >= v.len() {
        None
    } else if v[i] == '\\' {
        if i + 1 >= v.len() {
            None
        } else {
            let e = v[i + 1];
            let esc = if e == '"' || e == '\\' {
                Some(e)
            } else if e == '/' {
                None
            } else {
                simple_escape(e)
            };
            match esc {
                Some(ch) => basic_body(v, i + 2, acc.push(ch)),
                None => if e == 'u' || e == 'U' {
                    match toml_unicode(v, i + 2, if e == 'u' { 4 } else { 8 }) {
                        Some((ch, end)) => if i < end <= v.len() {
                            basic_body(v, end, acc.push(ch))
                        } else {
                            None
                        },
                        None => None,
                    }
                } else {
                    None
                },
            }
        }
    } else if v[i] == '"' {
        Some((acc, i + 1))
    } else if forbidden_control(v[i]) {
        None
    } else {
        basic_body(v, i + 1, acc.push(v[i]))
    }
}

/// The rest of a TOML literal string from `i`, after `acc`.
pub open spec fn literal_body(v: Seq<char>, i: int, acc: Seq<char>) -> Option<(Seq<char>, int)>
    decreases v.len() - i,
{
    if i < 0 || i >= v.len() {
        None
    } else if v[i] == '\'' {
        Some((acc, i + 1))
    } else if forbidden_control(v[i]) {
        None
    } else {
        literal_body(v, i + 1, acc.push(v[i]))
    }
}

/// Only blanks or a comment follow position `e`.
pub open spec fn trailing_ok(v: Seq<char>, e: int) -> bool {
    let k = skip_ws_from(v, e);
    k >= v.len() || v[k] == '#'
}

/// A TOML string value: basic or literal, followed by nothing but a comment.
pub open spec fn toml_value(v: Seq<char>) -> Option<Seq<char>> {
    let body = if v.len() > 0 && v[0] == '"' {
        basic_body(v, 1, seq![])
    } else if v.len() > 0 && v[0] == '\'' {
        literal_body(v, 1, seq![])
    } else {
        None
    };
    match body {
        Some((p, e)) => if trailing_ok(v, e) {
            Some(p)
        } else {
            None
        },
        None => None,
    }
}

/// The `version` of the `[package]` table, scanning lines from `i`: the first `version =`
/// line in the table decides.
pub open spec fn manifest_scan(ls: Seq<Seq<char>>, i: int, in_package: bool) -> Option<Seq<char>>
    decreases ls.len() - i,
{
    if i < 0 || i >= ls.len() {
        None
    } else {
        let tl = trim(ls[i]);
        if tl.len() > 0 && tl[0] == '[' {
            manifest_scan(ls, i + 1, table_name(tl) == Some("package"@))
        } else if !in_package || !starts_with(tl, "version"@) {
            manifest_scan(ls, i + 1, in_package)
        } else {
            let rest = trim_start(tl.skip(7));
            if rest.len() == 0 || rest[0] != '=' {
                manifest_scan(ls, i + 1, in_package)
            } else {
                toml_value(trim_start(rest.skip(1)))
            }
        }
    }
}

fn toml_table_name(tl: &Vec<char>) -> (res: Option<Vec<char>>)
    ensures
        match (res, table_name(tl@)) {
            (Some(a), Some(b)) => a@ == b,
            (None, None) => true,
            _ => false,
        },
{
    if tl.len() == 0 || tl[0] != '[' {
        return None;
    }
    let a = slice_chars(tl.as_slice(), 1, tl.len());
    assert(a@ =~= tl@.drop_first());
    if a.len() > 0 && a[0] == '[' {
        return None;
    }
    let close = find_char(a.as_slice(), ']', 0);
    if close >= a.len() {
        return None;
    }
    let k = skip_ws(a.as_slice(), close + 1);
    if !(k >= a.len() || a[k] == '#') {
        return None;
    }
    let inner = slice_chars(a.as_slice(), 0, close);
    assert(inner@ =~= a@.take(close as int));
    Some(trim_chars(inner.as_slice()))
}

fn read_toml_unicode(v: &Vec<char>, p: usize, n: usize) -> (res: Option<(char, usize)>)
    requires
        n == 4 || n == 8,
    ensures
        match (res, toml_unicode(v@, p as int, n as int)) {
            (Some((c, e)), Some((d, f))) => c == d && e as int == f,
            (None, None) => true,
            _ => false,
        },
{
    let code = match read_hex(v, p, n) {
        Some(c) => c,
        None => return None,
    };
    let vl = v.len();
    assert(p + n <= vl);
    if 0xD800 <= code && code <= 0xDFFF {
        return None;
    }
    match char_from_u32(code) {
        Some(c) => Some((c, p + n)),
        None => None,
    }
}

fn read_basic(v: &Vec<char>) -> (res: Option<(Vec<char>, usize)>)
    requires
        v@.len() > 0,
    ensures
        match (res, basic_body(v@, 1, seq![])) {
            (Some((a, e)), Some((b, f))) => a@ == b && e as int == f,
            (None, None) => true,
            _ => false,
        },
{
    let mut acc: Vec<char> = Vec::new();
    let mut i: usize = 1;
    while i < v.len()
        invariant
            1 <= i <= v@.len(),
            basic_body(v@, i as int, acc@) == basic_body(v@, 1, seq![]),
        decreases v@.len() - i,
    {
        let c = v[i];
        if c == '\\' {
            if i + 1 >= v.len() {
                return None;
            }
            let e = v[i + 1];
            let esc = if e == '"' || e == '\\' {
                Some(e)
            } else if e == '/' {
                None
            } else {
                escape_value(e)
            };
            match esc {
                Some(ch) => {
                    acc.push(ch);
                    i = i + 2;
                },
                None => {
                    if !(e == 'u' || e == 'U') {
                        return None;
                    }
                    let n: usize = if e == 'u' { 4 } else { 8 };
                    match read_toml_unicode(v, i + 2, n) {
                        Some((ch, end)) => {
                            if !(i < end && end <= v.len()) {
                                return None;
                            }
                            acc.push(ch);
                            i = end;
                        },
                        None => {
                            return None;
                        },
                    }
                },
            }
        } else if c == '"' {
            return Some((acc, i + 1));
        } else if (c <= '\u{1f}' || ('\u{7f}' <= c && c <= '\u{9f}')) && c != '\t' {
            return None;
        } else {
            acc.push(c);
            i = i + 1;
        }
    }
    None
}

fn read_literal(v: &Vec<char>) -> (res: Option<(Vec<char>, usize)>)
    requires
        v@.len() > 0,
    ensures
        match (res, literal_body(v@, 1, seq![])) {
            (Some((a, e)), Some((b, f))) => a@ == b && e as int == f,
            (None, None) => true,
            _ => false,
        },
{
    let mut acc: Vec<char> = Vec::new();
    let mut i: usize = 1;
    while i < v.len()
        invariant
            1 <= i <= v@.len(),
            literal_body(v@, i as int, acc@) == literal_body(v@, 1, seq![]),
        decreases v@.len() - i,
    {
        let c = v[i];
        if c == '\'' {
            return Some((acc, i + 1));
        } else if (c <= '\u{1f}' || ('\u{7f}' <= c && c <= '\u{9f}')) && c != '\t' {
            return None;
        } else {
            acc.push(c);
            i = i + 1;
        }
    }
    None
}

fn parse_toml_string_value(v: &Vec<char>) -> (res: Option<Vec<char>>)
    ensures
        match (res, toml_value(v@)) {
            (Some(a), Some(b)) => a@ == b,
            (None, None) => true,
            _ => false,
        },
{
    let body = if v.len() > 0 && v[0] == '"' {
        read_basic(v)
    } else if v.len() > 0 && v[0] == '\'' {
        read_literal(v)
    } else {
        None
    };
    match body {
        Some((p, e)) => {
            let k = if e <= v.len() { skip_ws(v.as_slice(), e) } else { e };
            if k >= v.len() || v[k] == '#' {
                Some(p)
            } else {
                None
            }
        },
        None => None,
    }
}

/// The `version` of a Cargo manifest's `[package]` table, as a TOML string.
pub fn parse_cargo_manifest_version(source: &str) -> (res: Option<String>)
    ensures
        match (res, manifest_scan(lines_spec(source@), 0, false)) {
            (Some(v), Some(w)) => v@ == w,
            (None, None) => true,
            _ => false,
        },
{
    let cs = chars_of(source);
    let ls = lines_of(cs.as_slice());
    let ghost lv = lines_spec(source@);
    let mut in_package = false;
    let mut i: usize = 0;
    while i < ls.len()
        invariant
            i <= ls@.len(),
            ls@.len() == lv.len(),
            lv == lines_spec(source@),
            forall|k: int| 0 <= k < ls@.len() ==> #[trigger] ls@[k]@ == lv[k],
            manifest_scan(lv, i as int, in_package) == manifest_scan(lv, 0, false),
        decreases ls@.len() - i,
    {
        assert(ls@[i as int]@ == lv[i as int]);
        let tl = trim_chars(ls[i].as_slice());
        if tl.len() > 0 && tl[0] == '[' {
            let name = toml_table_name(&tl);
            let package = chars_of("package");
            in_package = match name {
                Some(n) => crate::text::seq_eq(n.as_slice(), package.as_slice()),
                None => false,
            };
            i = i + 1;
            continue;
        }
        if !in_package || !has_prefix_str(tl.as_slice(), "version") {
            i = i + 1;
            continue;
        }
        proof {
            reveal_strlit("version");
        }
        let after = slice_chars(tl.as_slice(), 7, tl.len());
        assert(after@ =~= tl@.skip(7));
        let rest = trim_start_chars(after.as_slice());
        if rest.len() == 0 || rest[0] != '=' {
            i = i + 1;
            continue;
        }
        let value_text = slice_chars(rest.as_slice(), 1, rest.len());
        assert(value_text@ =~= rest@.skip(1));
        let value = trim_start_chars(value_text.as_slice());
        return match parse_toml_string_value(&value) {
            Some(v) => Some(string_of(v.as_slice())),
            None => None,
        };
    }
    None
}

} // verus!
