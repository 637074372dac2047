//! Type-name syntax shared by the parser and the patch tools.
use vstd::prelude::*;

use crate::text::{ends_with, has_prefix_str, has_suffix_str, is_alnum, is_alpha, slice_chars, starts_with, trim, trim_chars, views};

verus! {

/// An identifier: a letter or `_`, then letters, digits or `_`.
pub open spec fn is_ident(s: Seq<char>) -> bool {
    &&& s.len() > 0
    &&& (is_alpha(s[0]) || s[0] == '_')
    &&& forall|i: int| 1 <= i < s.len() ==> is_alnum(#[trigger] s[i]) || s[i] == '_'
}

/// A type name: an identifier, or `List<T>` around a type name.
pub open spec fn valid_type(s: Seq<char>) -> bool
    decreases s.len(),
{
    if is_ident(s) {
        true
    } else if s.len() > 6 && starts_with(s, "List<"@) && ends_with(s, ">"@) {
        valid_type(s.subrange(5, s.len() - 1))
    } else {
        false
    }
}

pub fn is_valid_ident(name: &[char]) -> (res: bool)
    ensures
        res == is_ident(name@),
{
    if name.len() == 0 {
        return false;
    }
    let first = name[0];
    if !(crate::text::ascii_alpha(first) || first == '_') {
        return false;
    }
    let mut i: usize = 1;
    while i < name.len()
        invariant
            1 <= i <= name@.len(),
            forall|j: int| 1 <= j < i ==> is_alnum(#[trigger] name@[j]) || name@[j] == '_',
        decreases name@.len() - i,
    {
        let c = name[i];
        if !(crate::text::ascii_alnum(c) || c == '_') {
            return false;
        }
        i += 1;
    }
    true
}

/// Whether text names a type: an identifier or `List<T>`.
pub fn is_valid_type_name(name: &[char]) -> (res: bool)
    ensures
        res == valid_type(name@),
    decreases name@.len(),
{
    if is_valid_ident(name) {
        return true;
    }
    if name.len() > 6 && has_prefix_str(name, "List<") && has_suffix_str(name, ">") {
        let inner = slice_chars(name, 5, name.len() - 1);
        return is_valid_type_name(&inner);
    }
    false
}

/// Nesting depth change of a character: `<([{` open, `>)]}` close.
pub open spec fn depth_delta(c: char) -> int {
    if c == '<' || c == '(' || c == '[' || c == '{' {
        1
    } else if c == '>' || c == ')' || c == ']' || c == '}' {
        -1
    } else {
        0
    }
}

/// Pieces of `s` from index `i`, given the current piece `cur` and depth: a new piece
/// starts at every comma outside any nesting.
pub open spec fn top_level_pieces(s: Seq<char>, i: int, depth: int, cur: Seq<char>) -> Seq<Seq<char>>
    decreases s.len() - i,
{
    if i < 0 || i >= s.len() {
        seq![cur]
    } else if s[i] == ',' && depth == 0 {
        seq![cur] + top_level_pieces(s, i + 1, depth, seq![])
    } else {
        top_level_pieces(s, i + 1, depth + depth_delta(s[i]), cur.push(s[i]))
    }
}

/// `s` split at commas that stand outside `<>`, `()`, `[]` and `{}`.
pub open spec fn split_commas(s: Seq<char>) -> Seq<Seq<char>> {
    top_level_pieces(s, 0, 0, seq![])
}

/// Splits text at the commas outside any brackets.
pub fn split_top_level_commas(text: &[char]) -> (res: Vec<Vec<char>>)
    ensures
        views(res@) == split_commas(text@),
{
    let mut res: Vec<Vec<char>> = Vec::new();
    let mut cur: Vec<char> = Vec::new();
    let mut opened: usize = 0;
    let mut closed: usize = 0;
    let mut i: usize = 0;
    assert(views(res@) =~= Seq::<Seq<char>>::empty());
    while i < text.len()
        invariant
            i <= text@.len(),
            opened + closed <= i,
            split_commas(text@) == views(res@) + top_level_pieces(
                text@,
                i as int,
                opened - closed,
                cur@,
            ),
        decreases text@.len() - i,
    {
        let c = text[i];
        if c == ',' && opened == closed {
            let ghost before = views(res@);
            let ghost piece = cur@;
            res.push(cur);
            cur = Vec::new();
            proof {
                assert(views(res@) =~= before.push(piece));
                assert(before + (seq![piece] + top_level_pieces(text@, i + 1, opened - closed, seq![]))
                    =~= views(res@) + top_level_pieces(text@, i + 1, opened - closed, cur@));
            }
        } else {
            if c == '<' || c == '(' || c == '[' || c == '{' {
                opened += 1;
            } else if c == '>' || c == ')' || c == ']' || c == '}' {
                closed += 1;
            }
            cur.push(c);
        }
        i += 1;
    }
    let ghost before = views(res@);
    let ghost piece = cur@;
    res.push(cur);
    assert(views(res@) =~= before.push(piece));
    res
}

} // verus!
