//! Symbol lookup: functions (the program's and the intrinsics) and types whose name,
//! symbol, module or variants hold a query text, ranked by a score in tenths.
use vstd::prelude::*;
use vstd::string::*;

use crate::intrinsics::{intrinsic_functions, is_intrinsic_list};
use crate::ledger::{item_symbol, lists_item, SymbolMatch};
use crate::model::{symbol_text, type_symbol_text, Function, Program, TypeDecl};
use crate::patch::texts;
use crate::text::{
    ascii_lower, chars_of, contains_chars, contains_seq, is_permutation, lower_char, owned, seq_le,
    seq_less, sort_order, stably_sorted_by, trim, trim_chars, views,
};

verus! {

/// A match of a symbol query: its score in tenths, what matched, and why.
#[derive(Debug)]
pub struct SymbolQueryMatch {
    pub score_tenths: u64,
    pub symbol: SymbolMatch,
    pub reasons: Vec<String>,
}

/// `s` with its ASCII capitals made small.
pub open spec fn lowered(s: Seq<char>) -> Seq<char> {
    s.map_values(|c: char| lower_char(c))
}

/// A score in tenths and the reasons that make it up.
pub type Scored = (int, Seq<Seq<char>>);

/// `a`, plus `w` tenths and the reason `r` when `cond` holds.
pub open spec fn plus(a: Scored, cond: bool, w: int, r: Seq<char>) -> Scored {
    if cond {
        (a.0 + w, a.1.push(r))
    } else {
        a
    }
}

/// An exact name is worth a point; a name that holds the needle, six tenths.
pub open spec fn name_score(name: Seq<char>, n: Seq<char>) -> Scored {
    if lowered(name) == n {
        (10, seq!["exact-name"@])
    } else if contains_seq(lowered(name), n) {
        (6, seq!["partial-name"@])
    } else {
        (0, seq![])
    }
}

/// A function's score: its name, then its symbol (five tenths) and its module (three).
pub open spec fn function_score(f: Function, n: Seq<char>) -> Scored {
    let a = name_score(f.name@, n);
    let b = plus(a, contains_seq(lowered(symbol_text(f)), n), 5, "symbol"@);
    plus(b, contains_seq(lowered(f.module@), n), 3, "module"@)
}

pub open spec fn variant_equal(t: TypeDecl, n: Seq<char>) -> bool {
    exists|k: int| 0 <= k < t.variants@.len() && lowered(#[trigger] t.variants@[k]@) == n
}

pub open spec fn variant_partial(t: TypeDecl, n: Seq<char>) -> bool {
    exists|k: int| 0 <= k < t.variants@.len() && contains_seq(lowered(#[trigger] t.variants@[k]@), n)
}

/// A type's score: as a function's, then a variant named exactly (seven tenths) or one
/// that holds the needle (four).
pub open spec fn type_score(t: TypeDecl, n: Seq<char>) -> Scored {
    let a = name_score(t.name@, n);
    let b = plus(a, contains_seq(lowered(type_symbol_text(t)), n), 5, "symbol"@);
    let c = plus(b, contains_seq(lowered(t.module@), n), 3, "module"@);
    if variant_equal(t, n) {
        (c.0 + 7, c.1.push("variant"@))
    } else if variant_partial(t, n) {
        (c.0 + 4, c.1.push("partial-variant"@))
    } else {
        c
    }
}

/// The score of item `j` of the functions, then the intrinsics, then the types.
pub open spec fn item_score(j: int, fs: Seq<Function>, ins: Seq<Function>, ts: Seq<TypeDecl>, n: Seq<char>) -> Scored {
    if j < fs.len() {
        function_score(fs[j], n)
    } else if j < fs.len() + ins.len() {
        function_score(ins[j - fs.len()], n)
    } else {
        type_score(ts[j - fs.len() - ins.len()], n)
    }
}

/// The items among the first `m` with a positive score, in order.
pub open spec fn candidates(fs: Seq<Function>, ins: Seq<Function>, ts: Seq<TypeDecl>, n: Seq<char>, m: int) -> Seq<int>
    decreases m,
{
    if m <= 0 {
        seq![]
    } else if item_score(m - 1, fs, ins, ts, n).0 > 0 {
        candidates(fs, ins, ts, n, m - 1).push(m - 1)
    } else {
        candidates(fs, ins, ts, n, m - 1)
    }
}

/// The ranking key: a higher score first, then the symbol.
pub open spec fn rank_key(score: int, sym: Seq<char>) -> Seq<char> {
    seq![((0x60 - score) as u32) as char] + sym
}

/// The ranking key orders by descending score, then by symbol.
pub proof fn law_rank_order(s1: int, a: Seq<char>, s2: int, b: Seq<char>)
    requires
        0 < s1 <= 0x20,
        0 < s2 <= 0x20,
    ensures
        seq_le(rank_key(s1, a), rank_key(s2, b)) <==> (s1 > s2 || (s1 == s2 && seq_le(a, b))),
{
    let ka = rank_key(s1, a);
    let kb = rank_key(s2, b);
    assert(ka.drop_first() =~= a);
    assert(kb.drop_first() =~= b);
    assert(ka[0] as u32 == (0x60 - s1) as u32);
    assert(kb[0] as u32 == (0x60 - s2) as u32);
}

/// The ranked matches: the candidates in a stable order by rank key, at most `limit` of
/// them, each with its score and reasons.
pub open spec fn ranked(
    res: Seq<SymbolQueryMatch>,
    fs: Seq<Function>,
    ins: Seq<Function>,
    ts: Seq<TypeDecl>,
    n: Seq<char>,
    limit: int,
    perm: Seq<usize>,
) -> bool {
    let c = candidates(fs, ins, ts, n, (fs.len() + ins.len() + ts.len()) as int);
    &&& is_intrinsic_list(ins)
    &&& is_permutation(perm, c.len() as int)
    &&& stably_sorted_by(
        perm,
        Seq::new(c.len(), |k: int| rank_key(item_score(c[k], fs, ins, ts, n).0, item_symbol(c[k], fs, ins, ts))),
    )
    &&& res.len() == if limit < c.len() { limit } else { c.len() as int }
    &&& forall|k: int|
        0 <= k < res.len() ==> {
            let j = c[perm[k] as int];
            &&& lists_item((#[trigger] res[k]).symbol, j, fs, ins, ts)
            &&& res[k].score_tenths == item_score(j, fs, ins, ts, n).0
            &&& texts(res[k].reasons@) == item_score(j, fs, ins, ts, n).1
        }
}

fn lower_text(s: &[char]) -> (res: Vec<char>)
    ensures
        res@ == lowered(s@),
{
    let mut out: Vec<char> = Vec::new();
    let mut i: usize = 0;
    while i < s.len()
        invariant
            i <= s@.len(),
            out@ == lowered(s@.take(i as int)),
        decreases s@.len() - i,
    {
        out.push(ascii_lower(s[i]));
        i += 1;
        assert(out@ =~= lowered(s@.take(i as int)));
    }
    assert(s@.take(s@.len() as int) =~= s@);
    out
}

fn push_reason(v: &mut Vec<String>, r: &str)
    ensures
        texts(final(v)@) == texts(old(v)@).push(r@),
{
    let ghost before = texts(v@);
    v.push(owned(r));
    assert(texts(v@) =~= before.push(r@));
}

fn name_part(name: &String, n: &Vec<char>, reasons: &mut Vec<String>) -> (score: u64)
    requires
        texts(old(reasons)@).len() == 0,
    ensures
        score == name_score(name@, n@).0,
        texts(final(reasons)@) == name_score(name@, n@).1,
{
    let l = lower_text(&chars_of(name.as_str()));
    if crate::text::seq_eq(&l, n) {
        push_reason(reasons, "exact-name");
        assert(texts(reasons@) =~= seq!["exact-name"@]);
        10
    } else if contains_chars(&l, n) {
        push_reason(reasons, "partial-name");
        assert(texts(reasons@) =~= seq!["partial-name"@]);
        6
    } else {
        assert(texts(reasons@) =~= Seq::<Seq<char>>::empty());
        0
    }
}

fn holds(text: &String, n: &Vec<char>) -> (res: bool)
    ensures
        res == contains_seq(lowered(text@), n@),
{
    let l = lower_text(&chars_of(text.as_str()));
    contains_chars(&l, n)
}

fn score_function(f: &Function, n: &Vec<char>) -> (res: (u64, Vec<String>))
    ensures
        res.0 == function_score(*f, n@).0,
        texts(res.1@) == function_score(*f, n@).1,
{
    let mut reasons: Vec<String> = Vec::new();
    assert(texts(reasons@) =~= Seq::<Seq<char>>::empty());
    let mut score = name_part(&f.name, n, &mut reasons);
    if holds(&f.symbol(), n) {
        score = score + 5;
        push_reason(&mut reasons, "symbol");
    }
    if holds(&f.module, n) {
        score = score + 3;
        push_reason(&mut reasons, "module");
    }
    (score, reasons)
}

fn score_type(t: &TypeDecl, n: &Vec<char>) -> (res: (u64, Vec<String>))
    ensures
        res.0 == type_score(*t, n@).0,
        texts(res.1@) == type_score(*t, n@).1,
{
    let mut reasons: Vec<String> = Vec::new();
    assert(texts(reasons@) =~= Seq::<Seq<char>>::empty());
    let mut score = name_part(&t.name, n, &mut reasons);
    if holds(&t.symbol(), n) {
        score = score + 5;
        push_reason(&mut reasons, "symbol");
    }
    if holds(&t.module, n) {
        score = score + 3;
        push_reason(&mut reasons, "module");
    }
    let mut equal = false;
    let mut partial = false;
    let mut k: usize = 0;
    while k < t.variants.len()
        invariant
            k <= t.variants@.len(),
            equal == exists|j: int| 0 <= j < k && lowered(#[trigger] t.variants@[j]@) == n@,
            partial == exists|j: int| 0 <= j < k && contains_seq(lowered(#[trigger] t.variants@[j]@), n@),
        decreases t.variants@.len() - k,
    {
        let l = lower_text(&chars_of(t.variants[k].as_str()));
        if crate::text::seq_eq(&l, n) {
            equal = true;
        }
        if contains_chars(&l, n) {
            partial = true;
        }
        k += 1;
    }
    if equal {
        score = score + 7;
        push_reason(&mut reasons, "variant");
    } else if partial {
        score = score + 4;
        push_reason(&mut reasons, "partial-variant");
    }
    (score, reasons)
}

/// Finds the functions (the program's and the intrinsics) and the types that the trimmed
/// query text names, ignoring ASCII case: by name (exactly or in part), symbol, module, or
/// an enum variant. The matches are ranked by score, highest first, then by symbol, and
/// at most `limit` of them are kept; a blank query finds nothing.
pub fn query_symbol(program: &Program, text: &str, limit: usize) -> (res: Vec<SymbolQueryMatch>)
    requires
        program.functions@.len() + program.types@.len() + 5 <= usize::MAX,
    ensures
        trim(text@).len() == 0 ==> res@.len() == 0,
        trim(text@).len() > 0 ==> exists|ins: Seq<Function>, perm: Seq<usize>|
            #[trigger] ranked(res@, program.functions@, ins, program.types@, lowered(trim(text@)), limit as int, perm),
{
    let t = trim_chars(&chars_of(text));
    let mut res: Vec<SymbolQueryMatch> = Vec::new();
    if t.len() == 0 {
        return res;
    }
    let n = lower_text(&t);
    let intrinsics = intrinsic_functions();
    let ghost fs = program.functions@;
    let ghost ins = intrinsics@;
    let ghost ts = program.types@;
    let ghost nv = n@;
    let ghost total = fs.len() + ins.len() + ts.len();
    let mut items: Vec<SymbolMatch> = Vec::new();
    let mut scores: Vec<u64> = Vec::new();
    let mut why: Vec<Vec<String>> = Vec::new();
    let mut keys: Vec<Vec<char>> = Vec::new();
    let ghost mut idx: Seq<int> = seq![];
    let mut j: usize = 0;
    let nf = program.functions.len();
    let ni = intrinsics.len();
    let nt = program.types.len();
    assert(ni == 5);
    assert(candidates(fs, ins, ts, nv, 0) =~= Seq::<int>::empty());
    let all = nf + ni + nt;
    while j < all
        invariant
            all == total,
            j <= total,
            total == fs.len() + ins.len() + ts.len(),
            nf == fs.len(),
            ni == ins.len(),
            nt == ts.len(),
            fs == program.functions@,
            ins == intrinsics@,
            ts == program.types@,
            nv == n@,
            idx == candidates(fs, ins, ts, nv, j as int),
            items@.len() == idx.len(),
            scores@.len() == idx.len(),
            why@.len() == idx.len(),
            keys@.len() == idx.len(),
            forall|k: int| 0 <= k < idx.len() ==> 0 <= #[trigger] idx[k] < j,
            forall|k: int|
                0 <= k < idx.len() ==> {
                    &&& lists_item(#[trigger] items@[k], idx[k], fs, ins, ts)
                    &&& scores@[k] == item_score(idx[k], fs, ins, ts, nv).0
                    &&& texts(why@[k]@) == item_score(idx[k], fs, ins, ts, nv).1
                    &&& keys@[k]@ == rank_key(item_score(idx[k], fs, ins, ts, nv).0, item_symbol(idx[k], fs, ins, ts))
                    &&& 0 < item_score(idx[k], fs, ins, ts, nv).0 <= 0x20
                },
        decreases total - j,
    {
        let (score, reasons, item, sym) = if j < nf {
            let f = &program.functions[j];
            let (s, r) = score_function(f, &n);
            (s, r, SymbolMatch::Function(Box::new(f.copy())), f.symbol())
        } else if j < nf + ni {
            let f = &intrinsics[j - nf];
            let (s, r) = score_function(f, &n);
            (s, r, SymbolMatch::Function(Box::new(f.copy())), f.symbol())
        } else {
            let ty = &program.types[j - nf - ni];
            let (s, r) = score_type(ty, &n);
            (s, r, SymbolMatch::Type(Box::new(ty.copy())), ty.symbol())
        };
        assert(score == item_score(j as int, fs, ins, ts, nv).0);
        assert(sym@ == item_symbol(j as int, fs, ins, ts));
        if score > 0 {
            assert(score <= 0x20);
            let b: u8 = (0x60u64 - score) as u8;
            let mut key: Vec<char> = Vec::new();
            key.push(b as char);
            let sc = chars_of(sym.as_str());
            let mut q: usize = 0;
            while q < sc.len()
                invariant
                    q <= sc@.len(),
                    key@ == seq![(b as u32) as char] + sc@.take(q as int),
                decreases sc@.len() - q,
            {
                key.push(sc[q]);
                q += 1;
                assert(key@ =~= seq![(b as u32) as char] + sc@.take(q as int));
            }
            assert(sc@.take(sc@.len() as int) =~= sc@);
            assert(key@ =~= rank_key(score as int, sym@));
            items.push(item);
            scores.push(score);
            why.push(reasons);
            keys.push(key);
            proof {
                idx = idx.push(j as int);
            }
        }
        j += 1;
    }
    let ghost c = idx;
    let perm = sort_order(&keys);
    proof {
        assert forall|k: int| 0 <= k < c.len() implies views(keys@)[k] == rank_key(
            item_score(c[k], fs, ins, ts, nv).0,
            item_symbol(c[k], fs, ins, ts),
        ) by {
            let _ = items@[k];
        }
        assert(views(keys@) =~= Seq::new(
            c.len(),
            |k: int| rank_key(item_score(c[k], fs, ins, ts, nv).0, item_symbol(c[k], fs, ins, ts)),
        ));
    }
    let count = if limit < perm.len() {
        limit
    } else {
        perm.len()
    };
    let mut k: usize = 0;
    while k < count
        invariant
            k <= count <= perm@.len(),
            perm@.len() == c.len(),
            is_permutation(perm@, c.len() as int),
            items@.len() == c.len(),
            scores@.len() == c.len(),
            why@.len() == c.len(),
            forall|q: int|
                0 <= q < c.len() ==> {
                    &&& lists_item(#[trigger] items@[q], c[q], fs, ins, ts)
                    &&& scores@[q] == item_score(c[q], fs, ins, ts, nv).0
                    &&& texts(why@[q]@) == item_score(c[q], fs, ins, ts, nv).1
                },
            res@.len() == k,
            forall|q: int|
                0 <= q < k ==> {
                    let jj = c[perm@[q] as int];
                    &&& lists_item((#[trigger] res@[q]).symbol, jj, fs, ins, ts)
                    &&& res@[q].score_tenths == item_score(jj, fs, ins, ts, nv).0
                    &&& texts(res@[q].reasons@) == item_score(jj, fs, ins, ts, nv).1
                },
        decreases count - k,
    {
        let p = perm[k];
        let m = SymbolQueryMatch {
            score_tenths: scores[p],
            symbol: items[p].copy(),
            reasons: crate::model::copy_strings(&why[p]),
        };
        proof {
            let pi = p as int;
            assert(lists_item(items@[pi], c[pi], fs, ins, ts));
        }
        res.push(m);
        k += 1;
    }
    proof {
        assert(ranked(res@, fs, ins, ts, nv, limit as int, perm@));
    }
    res
}

} // verus!
