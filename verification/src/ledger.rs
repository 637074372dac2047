//! The semantic ledger: symbols, intent terms and call-graph queries.
use vstd::prelude::*;
use vstd::string::*;

use crate::calls::{call_is, calls_are, fn_calls, resolved_calls, CallSpec, ResolvedCall};
use crate::intrinsics::{intrinsic_functions, is_intrinsic_list};
use crate::checks::{declaration_of, difference, effects_declaration, holds_set, union_into};
use crate::patch::texts;
use crate::model::{same_function, same_type, symbol_text, type_symbol_text, Function, Program, TypeDecl};
use crate::text::{
    chars_of, ends_with, has_suffix_str, insert_sorted_unique, is_alnum, is_permutation, lemma_views_index,
    lower_char, seq_le, seq_less, sort_order, stably_sorted_by, str_eq, strictly_sorted, string_of, trim,
    lemma_sorted_of, sorted_of, trim_chars, views, is_ws, skip_ws_from, trim_end_to,
};

verus! {

#[derive(Clone, Debug, PartialEq, Eq)]
pub enum SymbolMatch {
    Function(Box<Function>),
    Type(Box<TypeDecl>),
}

/// The symbol a match names.
pub open spec fn match_symbol(m: SymbolMatch) -> Seq<char> {
    match m {
        SymbolMatch::Function(f) => symbol_text(*f),
        SymbolMatch::Type(t) => type_symbol_text(*t),
    }
}

impl SymbolMatch {
    pub fn symbol(&self) -> (res: String)
        ensures
            res@ == match_symbol(*self),
    {
        match self {
            SymbolMatch::Function(function) => function.symbol(),
            SymbolMatch::Type(type_decl) => type_decl.symbol(),
        }
    }
}

#[derive(Clone, Debug, PartialEq, Eq)]
pub struct CallSite {
    pub context: String,
    pub expression: String,
}

#[derive(Clone, Debug, PartialEq, Eq)]
pub struct Dependent {
    pub function: Function,
    pub target: Function,
    pub call_sites: Vec<CallSite>,
}

#[derive(Clone, Debug, PartialEq, Eq)]
pub struct Callee {
    pub function: Function,
    pub target: Function,
    pub call_sites: Vec<CallSite>,
}

#[derive(Clone, Debug, PartialEq, Eq)]
pub struct ImpactDependent {
    pub function: Function,
    pub target: Function,
    pub depth: usize,
    pub path: Vec<Function>,
    pub call_sites: Vec<CallSite>,
}

#[derive(Clone, Debug, PartialEq, Eq)]
pub struct EffectQueryRow {
    pub function: Function,
    pub declared_effects: Vec<String>,
    pub declared_capabilities: Vec<String>,
    pub required_by_direct_callees: Vec<String>,
    pub missing_for_direct_callees: Vec<String>,
    pub unused_for_direct_callees: Vec<String>,
    pub suggested_effects: String,
    pub callees: Vec<EffectCallee>,
}

#[derive(Clone, Debug, PartialEq, Eq)]
pub struct EffectCallee {
    pub function: Function,
    pub declared_effects: Vec<String>,
    pub declared_capabilities: Vec<String>,
    pub call_sites: Vec<CallSite>,
}

// ---------------------------------------------------------------------------
// Intent keys and terms
// ---------------------------------------------------------------------------
/// Lower-cased alphanumeric runs of `s` from `i`, each run followed by one space.
pub open spec fn key_from(s: Seq<char>, i: int, in_token: bool, acc: Seq<char>) -> Seq<char>
    decreases s.len() - i,
{
    if i < 0 || i >= s.len() {
        acc
    } else if is_alnum(s[i]) {
        key_from(s, i + 1, true, acc.push(lower_char(s[i])))
    } else if in_token {
        key_from(s, i + 1, false, acc.push(' '))
    } else {
        key_from(s, i + 1, false, acc)
    }
}

/// The words of a text, lower-cased and separated by single spaces.
pub open spec fn intent_key(s: Seq<char>) -> Seq<char> {
    trim(key_from(s, 0, false, seq![]))
}

pub fn normalized_words(text: &str) -> (res: Vec<char>)
    ensures
        res@ == intent_key(text@),
{
    let cs = chars_of(text);
    let mut out: Vec<char> = Vec::new();
    let mut in_token = false;
    let mut i: usize = 0;
    while i < cs.len()
        invariant
            i <= cs@.len(),
            cs@ == text@,
            key_from(cs@, i as int, in_token, out@) == key_from(cs@, 0, false, seq![]),
        decreases cs@.len() - i,
    {
        let c = cs[i];
        if crate::text::ascii_alnum(c) {
            out.push(crate::text::ascii_lower(c));
            in_token = true;
        } else if in_token {
            out.push(' ');
            in_token = false;
        }
        i += 1;
    }
    trim_chars(&out)
}

/// The exact-duplicate key of an intent: its words, lower-cased, single-spaced.
pub fn exact_intent_key(text: &str) -> (res: String)
    ensures
        res@ == intent_key(text@),
{
    let w = normalized_words(text);
    string_of(&w)
}

pub open spec fn stopwords() -> Seq<Seq<char>> {
    seq![
        "a"@, "an"@, "and"@, "are"@, "as"@, "at"@, "be"@, "by"@, "for"@, "from"@,
        "function"@, "functions"@, "in"@, "intent"@, "into"@, "is"@, "it"@, "of"@, "on"@,
        "or"@, "public"@, "return"@, "returns"@, "symbol"@, "symbols"@, "that"@, "the"@,
        "to"@, "when"@, "while"@, "with"@,
    ]
}

pub fn is_intent_stopword(token: &[char]) -> (res: bool)
    ensures
        res == stopwords().contains(token@),
{
    let words: [&str; 31] = [
        "a", "an", "and", "are", "as", "at", "be", "by", "for", "from", "function",
        "functions", "in", "intent", "into", "is", "it", "of", "on", "or", "public", "return",
        "returns", "symbol", "symbols", "that", "the", "to", "when", "while", "with",
    ];
    let ghost wv = words@.map_values(|w: &str| w@);
    assert(wv =~= stopwords());
    let t = string_of(token);
    let mut i: usize = 0;
    while i < 31
        invariant
            i <= 31,
            wv == words@.map_values(|w: &str| w@),
            wv == stopwords(),
            t@ == token@,
            forall|k: int| 0 <= k < i ==> wv[k] != token@,
        decreases 31 - i,
    {
        if crate::text::str_eq(t.as_str(), words[i]) {
            assert(wv[i as int] == token@);
            return true;
        }
        i += 1;
    }
    false
}

pub open spec fn lower_seq(s: Seq<char>) -> Seq<char> {
    s.map_values(|c: char| lower_char(c))
}

/// Synonyms folded onto the built-in type names.
pub open spec fn fold_synonym(t: Seq<char>, plural: bool) -> Seq<char> {
    if t == "integer"@ || (plural && t == "integers"@) {
        "int"@
    } else if t == "boolean"@ || (plural && t == "booleans"@) {
        "bool"@
    } else if t == "string"@ || (plural && t == "strings"@) {
        "text"@
    } else {
        t
    }
}

/// Light suffix stemming: `-ating` to `-ate`, and `-ing`, `-ies`, `-ed`, `-es`, `-s` dropped.
pub open spec fn stem(t: Seq<char>) -> Seq<char> {
    let n = t.len();
    if n > 6 && ends_with(t, "ating"@) {
        t.take(n - 5) + "ate"@
    } else if n > 5 && ends_with(t, "ing"@) {
        t.take(n - 3)
    } else if n > 4 && ends_with(t, "ies"@) {
        t.take(n - 3).push('y')
    } else if n > 4 && (ends_with(t, "ed"@) || ends_with(t, "es"@)) {
        t.take(n - 2)
    } else if n > 3 && ends_with(t, "s"@) {
        t.take(n - 1)
    } else {
        t
    }
}

/// The canonical form of a word for intent search, unless it carries no meaning.
pub open spec fn canonical(raw: Seq<char>) -> Option<Seq<char>> {
    let t = lower_seq(raw);
    if stopwords().contains(t) {
        None
    } else {
        let u = fold_synonym(stem(fold_synonym(t, true)), false);
        if u.len() > 1 && !stopwords().contains(u) {
            Some(u)
        } else {
            None
        }
    }
}

fn lower_chars(raw: &[char]) -> (res: Vec<char>)
    ensures
        res@ == lower_seq(raw@),
{
    let mut out: Vec<char> = Vec::new();
    let mut i: usize = 0;
    while i < raw.len()
        invariant
            i <= raw@.len(),
            out@ == lower_seq(raw@.take(i as int)),
        decreases raw@.len() - i,
    {
        out.push(crate::text::ascii_lower(raw[i]));
        assert(lower_seq(raw@.take(i + 1)) =~= lower_seq(raw@.take(i as int)).push(lower_char(raw@[i as int])));
        i += 1;
    }
    assert(raw@.take(raw@.len() as int) =~= raw@);
    out
}

fn lit(s: &str) -> (res: Vec<char>)
    ensures
        res@ == s@,
{
    chars_of(s)
}

fn fold_synonym_exec(t: Vec<char>, plural: bool) -> (res: Vec<char>)
    ensures
        res@ == fold_synonym(t@, plural),
{
    let s = string_of(&t);
    let r = s.as_str();
    if crate::text::str_eq(r, "integer") || (plural && crate::text::str_eq(r, "integers")) {
        lit("int")
    } else if crate::text::str_eq(r, "boolean") || (plural && crate::text::str_eq(r, "booleans")) {
        lit("bool")
    } else if crate::text::str_eq(r, "string") || (plural && crate::text::str_eq(r, "strings")) {
        lit("text")
    } else {
        t
    }
}

fn stem_exec(t: Vec<char>) -> (res: Vec<char>)
    ensures
        res@ == stem(t@),
{
    let n = t.len();
    if n > 6 && has_suffix_str(&t, "ating") {
        let mut out = crate::text::slice_chars(&t, 0, n - 5);
        crate::text::extend(&mut out, &lit("ate"));
        assert(t@.subrange(0, n - 5) == t@.take(n - 5));
        return out;
    }
    if n > 5 && has_suffix_str(&t, "ing") {
        assert(t@.subrange(0, n - 3) == t@.take(n - 3));
        return crate::text::slice_chars(&t, 0, n - 3);
    }
    if n > 4 && has_suffix_str(&t, "ies") {
        let mut out = crate::text::slice_chars(&t, 0, n - 3);
        out.push('y');
        assert(t@.subrange(0, n - 3) == t@.take(n - 3));
        return out;
    }
    if n > 4 && (has_suffix_str(&t, "ed") || has_suffix_str(&t, "es")) {
        assert(t@.subrange(0, n - 2) == t@.take(n - 2));
        return crate::text::slice_chars(&t, 0, n - 2);
    }
    if n > 3 && has_suffix_str(&t, "s") {
        assert(t@.subrange(0, n - 1) == t@.take(n - 1));
        return crate::text::slice_chars(&t, 0, n - 1);
    }
    t
}

/// The canonical form of a word for intent search, unless it carries no meaning.
pub fn canonical_token(raw: &[char]) -> (res: Option<Vec<char>>)
    ensures
        match res {
            Some(v) => canonical(raw@) == Some(v@),
            None => canonical(raw@) is None,
        },
{
    let t = lower_chars(raw);
    if is_intent_stopword(&t) {
        return None;
    }
    let u = fold_synonym_exec(stem_exec(fold_synonym_exec(t, true)), false);
    if u.len() > 1 && !is_intent_stopword(&u) {
        Some(u)
    } else {
        None
    }
}

/// Adds the canonical form of a finished word of two or more characters.
pub open spec fn finish_word(cur: Seq<char>, acc: Set<Seq<char>>) -> Set<Seq<char>> {
    if cur.len() > 1 && canonical(cur) is Some {
        acc.insert(canonical(cur)->0)
    } else {
        acc
    }
}

/// The canonical intent words of `s` from index `i` on.
pub open spec fn word_scan(s: Seq<char>, i: int, cur: Seq<char>, acc: Set<Seq<char>>) -> Set<Seq<char>>
    decreases s.len() - i,
{
    if i < 0 || i >= s.len() {
        finish_word(cur, acc)
    } else if is_alnum(s[i]) {
        word_scan(s, i + 1, cur.push(lower_char(s[i])), acc)
    } else {
        word_scan(s, i + 1, seq![], finish_word(cur, acc))
    }
}

/// The set of canonical intent words of a text.
pub open spec fn intent_words(s: Seq<char>) -> Set<Seq<char>> {
    word_scan(s, 0, seq![], Set::empty())
}

fn finish_word_exec(cur: &Vec<char>, acc: &mut Vec<Vec<char>>)
    requires
        strictly_sorted(views(old(acc)@)),
    ensures
        strictly_sorted(views(final(acc)@)),
        views(final(acc)@).to_set() == finish_word(cur@, views(old(acc)@).to_set()),
{
    if cur.len() > 1 {
        if let Some(token) = canonical_token(cur) {
            insert_sorted_unique(acc, token);
        }
    }
}

/// The canonical intent words of a text, sorted and without repeats.
pub fn intent_terms(text: &str) -> (res: Vec<String>)
    ensures
        strictly_sorted(res@.map_values(|s: String| s@)),
        res@.map_values(|s: String| s@).to_set() == intent_words(text@),
{
    let cs = chars_of(text);
    let mut acc: Vec<Vec<char>> = Vec::new();
    let mut cur: Vec<char> = Vec::new();
    let mut i: usize = 0;
    assert(views(acc@).to_set() =~= Set::<Seq<char>>::empty());
    while i < cs.len()
        invariant
            i <= cs@.len(),
            cs@ == text@,
            strictly_sorted(views(acc@)),
            word_scan(cs@, i as int, cur@, views(acc@).to_set()) == intent_words(text@),
        decreases cs@.len() - i,
    {
        let c = cs[i];
        if crate::text::ascii_alnum(c) {
            cur.push(crate::text::ascii_lower(c));
        } else {
            finish_word_exec(&cur, &mut acc);
            cur = Vec::new();
        }
        i += 1;
    }
    finish_word_exec(&cur, &mut acc);
    let mut res: Vec<String> = Vec::new();
    let mut k: usize = 0;
    while k < acc.len()
        invariant
            k <= acc@.len(),
            res@.map_values(|s: String| s@) == views(acc@).take(k as int),
        decreases acc@.len() - k,
    {
        let ghost before = res@;
        let s = string_of(acc[k].as_slice());
        res.push(s);
        proof {
            lemma_views_index(acc@);
            assert(res@ == before.push(s));
            assert(res@.map_values(|s: String| s@) =~= before.map_values(|s: String| s@).push(s@));
            assert(views(acc@).take(k + 1) =~= views(acc@).take(k as int).push(views(acc@)[k as int]));
        }
        k += 1;
    }
    assert(views(acc@).take(acc@.len() as int) =~= views(acc@));
    res
}

// ---------------------------------------------------------------------------
// Symbol listing
// ---------------------------------------------------------------------------
impl SymbolMatch {
    pub fn copy(&self) -> (res: SymbolMatch)
        ensures
            match (res, *self) {
                (SymbolMatch::Function(a), SymbolMatch::Function(b)) => same_function(*a, *b),
                (SymbolMatch::Type(a), SymbolMatch::Type(b)) => same_type(*a, *b),
                _ => false,
            },
    {
        match self {
            SymbolMatch::Function(f) => SymbolMatch::Function(Box::new(f.copy())),
            SymbolMatch::Type(t) => SymbolMatch::Type(Box::new(t.copy())),
        }
    }
}

/// `m` lists item `j` of the functions, then the intrinsics, then the types.
pub open spec fn lists_item(m: SymbolMatch, j: int, fs: Seq<Function>, ins: Seq<Function>, ts: Seq<TypeDecl>) -> bool {
    if j < fs.len() {
        m is Function && same_function(*(m->Function_0), fs[j])
    } else if j < fs.len() + ins.len() {
        m is Function && same_function(*(m->Function_0), ins[j - fs.len()])
    } else {
        m is Type && same_type(*(m->Type_0), ts[j - fs.len() - ins.len()])
    }
}

/// The symbol of item `j` of the functions, then the intrinsics, then the types.
pub open spec fn item_symbol(j: int, fs: Seq<Function>, ins: Seq<Function>, ts: Seq<TypeDecl>) -> Seq<char> {
    if j < fs.len() {
        symbol_text(fs[j])
    } else if j < fs.len() + ins.len() {
        symbol_text(ins[j - fs.len()])
    } else {
        type_symbol_text(ts[j - fs.len() - ins.len()])
    }
}

/// `res` lists every function (the program's, then the intrinsics `ins`) and every type in
/// the order `perm`, which sorts them stably by symbol.
pub open spec fn sorted_listing(res: Seq<SymbolMatch>, fs: Seq<Function>, ins: Seq<Function>, ts: Seq<TypeDecl>, perm: Seq<usize>) -> bool {
    let n = fs.len() + ins.len() + ts.len();
    &&& is_intrinsic_list(ins)
    &&& is_permutation(perm, n as int)
    &&& stably_sorted_by(perm, Seq::new(n as nat, |j: int| item_symbol(j, fs, ins, ts)))
    &&& res.len() == n
    &&& forall|k: int| 0 <= k < n ==> lists_item(#[trigger] res[k], perm[k] as int, fs, ins, ts)
}

/// Every function (the program's and the intrinsics) and every type, sorted by symbol.
pub fn symbols(program: &Program) -> (res: Vec<SymbolMatch>)
    ensures
        exists|ins: Seq<Function>, perm: Seq<usize>|
            #[trigger] sorted_listing(res@, program.functions@, ins, program.types@, perm),
{
    let intrinsics = intrinsic_functions();
    let ghost fs = program.functions@;
    let ghost ins = intrinsics@;
    let ghost ts = program.types@;
    let mut items: Vec<SymbolMatch> = Vec::new();
    let mut keys: Vec<Vec<char>> = Vec::new();
    let mut i: usize = 0;
    while i < program.functions.len()
        invariant
            i <= fs.len(),
            fs == program.functions@,
            items@.len() == i,
            keys@.len() == i,
            forall|k: int| 0 <= k < i ==> lists_item(#[trigger] items@[k], k, fs, ins, ts),
            forall|k: int| 0 <= k < i ==> #[trigger] keys@[k]@ == item_symbol(k, fs, ins, ts),
        decreases fs.len() - i,
    {
        let f = &program.functions[i];
        keys.push(chars_of(f.symbol().as_str()));
        items.push(SymbolMatch::Function(Box::new(f.copy())));
        i += 1;
    }
    let mut i: usize = 0;
    while i < intrinsics.len()
        invariant
            i <= ins.len(),
            fs == program.functions@,
            ins == intrinsics@,
            items@.len() == fs.len() + i,
            keys@.len() == fs.len() + i,
            forall|k: int| 0 <= k < fs.len() + i ==> lists_item(#[trigger] items@[k], k, fs, ins, ts),
            forall|k: int| 0 <= k < fs.len() + i ==> #[trigger] keys@[k]@ == item_symbol(k, fs, ins, ts),
        decreases ins.len() - i,
    {
        let f = &intrinsics[i];
        keys.push(chars_of(f.symbol().as_str()));
        items.push(SymbolMatch::Function(Box::new(f.copy())));
        i += 1;
    }
    let mut i: usize = 0;
    while i < program.types.len()
        invariant
            i <= ts.len(),
            fs == program.functions@,
            ins == intrinsics@,
            ts == program.types@,
            items@.len() == fs.len() + ins.len() + i,
            keys@.len() == fs.len() + ins.len() + i,
            forall|k: int| 0 <= k < fs.len() + ins.len() + i ==> lists_item(#[trigger] items@[k], k, fs, ins, ts),
            forall|k: int| 0 <= k < fs.len() + ins.len() + i ==> #[trigger] keys@[k]@ == item_symbol(k, fs, ins, ts),
        decreases ts.len() - i,
    {
        let t = &program.types[i];
        keys.push(chars_of(t.symbol().as_str()));
        items.push(SymbolMatch::Type(Box::new(t.copy())));
        i += 1;
    }
    let ghost n = fs.len() + ins.len() + ts.len();
    let perm = sort_order(&keys);
    proof {
        assert(views(keys@) =~= Seq::new(n as nat, |j: int| item_symbol(j, fs, ins, ts)));
    }
    let mut res: Vec<SymbolMatch> = Vec::new();
    let mut k: usize = 0;
    while k < perm.len()
        invariant
            k <= perm@.len(),
            perm@.len() == n,
            items@.len() == n,
            is_permutation(perm@, n as int),
            forall|j: int| 0 <= j < n ==> lists_item(#[trigger] items@[j], j, fs, ins, ts),
            res@.len() == k,
            forall|j: int| 0 <= j < k ==> lists_item(#[trigger] res@[j], perm@[j] as int, fs, ins, ts),
        decreases perm@.len() - k,
    {
        let m = items[perm[k]].copy();
        res.push(m);
        proof {
            let j = perm@[k as int] as int;
            assert(lists_item(items@[j], j, fs, ins, ts));
        }
        k += 1;
    }
    proof {
        assert(sorted_listing(res@, fs, ins, ts, perm@));
    }
    res
}


// ---------------------------------------------------------------------------
// Call-graph queries
// ---------------------------------------------------------------------------
/// A query text names `f` by its symbol or its name.
pub open spec fn queried(f: Function, text: Seq<char>) -> bool {
    symbol_text(f) == text || f.name@ == text
}

/// Some function the query names has symbol `sym`.
pub open spec fn target_symbol(fs: Seq<Function>, text: Seq<char>, sym: Seq<char>) -> bool {
    exists|k: int| 0 <= k < fs.len() && queried(#[trigger] fs[k], text) && symbol_text(fs[k]) == sym
}

/// The (context, expression) pairs of calls, each once, in first-seen order.
pub open spec fn unique_sites(calls: Seq<CallSpec>) -> Seq<(Seq<char>, Seq<char>)>
    decreases calls.len(),
{
    if calls.len() == 0 {
        seq![]
    } else {
        let rest = unique_sites(calls.drop_last());
        let site = (calls.last().0, calls.last().1);
        if rest.contains(site) {
            rest
        } else {
            rest.push(site)
        }
    }
}

pub open spec fn site_texts(v: Seq<CallSite>) -> Seq<(Seq<char>, Seq<char>)> {
    v.map_values(|c: CallSite| (c.context@, c.expression@))
}

/// The calls of `f` whose callee the query names.
pub open spec fn target_hits(fs: Seq<Function>, ins: Seq<Function>, f: Function, text: Seq<char>) -> Seq<CallSpec> {
    fn_calls(fs, ins, f).filter(|c: CallSpec| target_symbol(fs, text, symbol_text(c.3)))
}

/// `f` as a dependent of the queried functions: the last queried callee it calls and the
/// sites of those calls; none when it calls none or only itself last.
pub open spec fn dependent_of(fs: Seq<Function>, ins: Seq<Function>, f: Function, text: Seq<char>) -> Option<
    (Function, Function, Seq<(Seq<char>, Seq<char>)>),
> {
    let hits = target_hits(fs, ins, f, text);
    if hits.len() > 0 && symbol_text(f) != symbol_text(hits.last().3) {
        Some((f, hits.last().3, unique_sites(hits)))
    } else {
        None
    }
}

/// The dependents of the queried functions, in program order.
pub open spec fn dependents(fs: Seq<Function>, ins: Seq<Function>, gs: Seq<Function>, text: Seq<char>) -> Seq<
    (Function, Function, Seq<(Seq<char>, Seq<char>)>),
>
    decreases gs.len(),
{
    if gs.len() == 0 {
        seq![]
    } else {
        let rest = dependents(fs, ins, gs.drop_last(), text);
        match dependent_of(fs, ins, gs.last(), text) {
            Some(d) => rest.push(d),
            None => rest,
        }
    }
}

pub open spec fn dependent_is(d: Dependent, s: (Function, Function, Seq<(Seq<char>, Seq<char>)>)) -> bool {
    same_function(d.function, s.0) && same_function(d.target, s.1) && site_texts(d.call_sites@) == s.2
}

fn is_target_symbol(fs: &Vec<Function>, text: &str, sym: &String) -> (res: bool)
    ensures
        res == target_symbol(fs@, text@, sym@),
{
    let mut i: usize = 0;
    while i < fs.len()
        invariant
            i <= fs@.len(),
            forall|k: int| 0 <= k < i ==> !(queried(#[trigger] fs@[k], text@) && symbol_text(fs@[k]) == sym@),
        decreases fs@.len() - i,
    {
        let s = fs[i].symbol();
        if (str_eq(s.as_str(), text) || str_eq(fs[i].name.as_str(), text)) && str_eq(s.as_str(), sym.as_str()) {
            return true;
        }
        i += 1;
    }
    false
}

fn has_site(sites: &Vec<CallSite>, context: &String, expression: &String) -> (res: bool)
    ensures
        res == site_texts(sites@).contains((context@, expression@)),
{
    let mut i: usize = 0;
    while i < sites.len()
        invariant
            i <= sites@.len(),
            forall|k: int| 0 <= k < i ==> #[trigger] site_texts(sites@)[k] != (context@, expression@),
        decreases sites@.len() - i,
    {
        if str_eq(sites[i].context.as_str(), context.as_str()) && str_eq(sites[i].expression.as_str(), expression.as_str()) {
            assert(site_texts(sites@)[i as int] == (context@, expression@));
            return true;
        }
        i += 1;
    }
    false
}

impl CallSite {
    pub fn copy(&self) -> (res: CallSite)
        ensures
            res == *self,
    {
        CallSite { context: self.context.clone(), expression: self.expression.clone() }
    }
}

pub(crate) fn copy_sites(v: &Vec<CallSite>) -> (res: Vec<CallSite>)
    ensures
        res@ == v@,
{
    let mut res: Vec<CallSite> = Vec::new();
    let mut i: usize = 0;
    while i < v.len()
        invariant
            i <= v@.len(),
            res@ == v@.take(i as int),
        decreases v@.len() - i,
    {
        res.push(v[i].copy());
        assert(v@.take(i + 1) == v@.take(i as int).push(v@[i as int]));
        i += 1;
    }
    assert(v@.take(v@.len() as int) == v@);
    res
}

impl Dependent {
    pub fn copy(&self) -> (res: Dependent)
        ensures
            same_function(res.function, self.function),
            same_function(res.target, self.target),
            res.call_sites@ == self.call_sites@,
    {
        Dependent {
            function: self.function.copy(),
            target: self.target.copy(),
            call_sites: copy_sites(&self.call_sites),
        }
    }
}

/// The dependent row of one function, if it is one.
fn dependent_row(program: &Program, intrinsics: &Vec<Function>, f: &Function, text: &str) -> (res: Option<Dependent>)
    ensures
        match (res, dependent_of(program.functions@, intrinsics@, *f, text@)) {
            (Some(d), Some(s)) => dependent_is(d, s),
            (None, None) => true,
            _ => false,
        },
{
    let ghost fs = program.functions@;
    let calls = resolved_calls(f, program.functions.as_slice(), intrinsics.as_slice());
    let ghost cs = fn_calls(fs, intrinsics@, *f);
    let ghost pred = |c: CallSpec| target_symbol(fs, text@, symbol_text(c.3));
    let mut sites: Vec<CallSite> = Vec::new();
    let mut target: Option<Function> = None;
    let mut i: usize = 0;
    proof {
        reveal(Seq::filter);
    }
    assert(cs.take(0).filter(pred) =~= Seq::<CallSpec>::empty());
    while i < calls.len()
        invariant
            i <= calls@.len(),
            fs == program.functions@,
            cs == fn_calls(fs, intrinsics@, *f),
            pred == (|c: CallSpec| target_symbol(fs, text@, symbol_text(c.3))),
            calls_are(calls@, cs),
            site_texts(sites@) == unique_sites(cs.take(i as int).filter(pred)),
            match target {
                Some(t) => cs.take(i as int).filter(pred).len() > 0 && same_function(
                    t,
                    cs.take(i as int).filter(pred).last().3,
                ),
                None => cs.take(i as int).filter(pred).len() == 0,
            },
        decreases calls@.len() - i,
    {
        proof {
            reveal(Seq::filter);
            assert(cs.take(i + 1).drop_last() =~= cs.take(i as int));
            assert(cs.take(i + 1).last() == cs[i as int]);
            assert(call_is(calls@[i as int], cs[i as int]));
        }
        let c = &calls[i];
        let sym = c.callee.symbol();
        if is_target_symbol(&program.functions, text, &sym) {
            assert(pred(cs[i as int]));
            assert(cs.take(i + 1).filter(pred) == cs.take(i as int).filter(pred).push(cs[i as int]));
            target = Some(c.callee.copy());
            proof {
                let nf = cs.take(i + 1).filter(pred);
                assert(nf.drop_last() =~= cs.take(i as int).filter(pred));
                assert(nf.last() == cs[i as int]);
                assert(unique_sites(nf) == (if unique_sites(cs.take(i as int).filter(pred)).contains((cs[i as int].0, cs[i as int].1)) {
                    unique_sites(cs.take(i as int).filter(pred))
                } else {
                    unique_sites(cs.take(i as int).filter(pred)).push((cs[i as int].0, cs[i as int].1))
                }));
            }
            let ghost before = sites@;
            if !has_site(&sites, &c.context, &c.expression) {
                sites.push(CallSite { context: c.context.clone(), expression: c.expression.clone() });
                assert(site_texts(sites@) =~= site_texts(before).push((c.context@, c.expression@)));
            }
        } else {
            assert(!pred(cs[i as int]));
            assert(cs.take(i + 1).filter(pred) == cs.take(i as int).filter(pred));
        }
        i += 1;
    }
    assert(cs.take(calls@.len() as int) =~= cs);
    assert(cs.filter(pred) == target_hits(fs, intrinsics@, *f, text@));
    match target {
        Some(t) => {
            let fsym = f.symbol();
            let tsym = t.symbol();
            if str_eq(fsym.as_str(), tsym.as_str()) {
                None
            } else {
                Some(Dependent { function: f.copy(), target: t, call_sites: sites })
            }
        },
        None => None,
    }
}

/// `res` lists the dependents in the order `perm`, which sorts them stably by caller symbol.
pub open spec fn sorted_dependents(res: Seq<Dependent>, fs: Seq<Function>, ins: Seq<Function>, text: Seq<char>, perm: Seq<usize>) -> bool {
    let rows = dependents(fs, ins, fs, text);
    &&& is_intrinsic_list(ins)
    &&& is_permutation(perm, rows.len() as int)
    &&& stably_sorted_by(perm, rows.map_values(|r: (Function, Function, Seq<(Seq<char>, Seq<char>)>)| symbol_text(r.0)))
    &&& res.len() == rows.len()
    &&& forall|k: int| 0 <= k < res.len() ==> dependent_is(#[trigger] res[k], rows[perm[k] as int])
}

/// The functions that call the queried function (named by symbol or name), with the
/// sites of those calls, sorted by the caller's symbol.
pub fn query_dependents(program: &Program, text: &str) -> (res: Vec<Dependent>)
    ensures
        exists|ins: Seq<Function>, perm: Seq<usize>|
            #[trigger] sorted_dependents(res@, program.functions@, ins, text@, perm),
{
    let intrinsics = intrinsic_functions();
    let ghost fs = program.functions@;
    let ghost ins = intrinsics@;
    let mut rows: Vec<Dependent> = Vec::new();
    let mut keys: Vec<Vec<char>> = Vec::new();
    let mut i: usize = 0;
    assert(fs.take(0) =~= Seq::<Function>::empty());
    while i < program.functions.len()
        invariant
            i <= fs.len(),
            fs == program.functions@,
            ins == intrinsics@,
            rows@.len() == dependents(fs, ins, fs.take(i as int), text@).len(),
            keys@.len() == rows@.len(),
            forall|k: int| 0 <= k < rows@.len() ==> dependent_is(#[trigger] rows@[k], dependents(fs, ins, fs.take(i as int), text@)[k]),
            forall|k: int| 0 <= k < rows@.len() ==> #[trigger] keys@[k]@ == symbol_text(dependents(fs, ins, fs.take(i as int), text@)[k].0),
        decreases fs.len() - i,
    {
        proof {
            assert(fs.take(i + 1).drop_last() =~= fs.take(i as int));
            assert(fs.take(i + 1).last() == fs[i as int]);
        }
        match dependent_row(program, &intrinsics, &program.functions[i], text) {
            Some(d) => {
                keys.push(chars_of(d.function.symbol().as_str()));
                rows.push(d);
            },
            None => {},
        }
        i += 1;
    }
    assert(fs.take(fs.len() as int) =~= fs);
    let ghost rs = dependents(fs, ins, fs, text@);
    let perm = sort_order(&keys);
    proof {
        assert(views(keys@) =~= rs.map_values(|r: (Function, Function, Seq<(Seq<char>, Seq<char>)>)| symbol_text(r.0)));
    }
    let mut res: Vec<Dependent> = Vec::new();
    let mut k: usize = 0;
    while k < perm.len()
        invariant
            k <= perm@.len(),
            perm@.len() == rs.len(),
            rows@.len() == rs.len(),
            is_permutation(perm@, rs.len() as int),
            forall|j: int| 0 <= j < rows@.len() ==> dependent_is(#[trigger] rows@[j], rs[j]),
            res@.len() == k,
            forall|j: int| 0 <= j < k ==> dependent_is(#[trigger] res@[j], rs[perm@[j] as int]),
        decreases perm@.len() - k,
    {
        let d = rows[perm[k]].copy();
        proof {
            assert(dependent_is(rows@[perm@[k as int] as int], rs[perm@[k as int] as int]));
        }
        res.push(d);
        k += 1;
    }
    assert(sorted_dependents(res@, fs, ins, text@, perm@));
    res
}


// ---------------------------------------------------------------------------
// Callees
// ---------------------------------------------------------------------------

/// A call edge as the specification sees it: caller, callee, and the sites of its calls.
pub type EdgeRow = (Function, Function, Seq<(Seq<char>, Seq<char>)>);

/// The calls among `cs` that `f` makes to another function, each with its caller.
pub open spec fn call_events(f: Function, cs: Seq<CallSpec>) -> Seq<(Function, CallSpec)>
    decreases cs.len(),
{
    if cs.len() == 0 {
        seq![]
    } else if symbol_text(cs.last().3) != symbol_text(f) {
        call_events(f, cs.drop_last()).push((f, cs.last()))
    } else {
        call_events(f, cs.drop_last())
    }
}

/// The calls made by the queried functions among `gs`, in program order.
pub open spec fn edge_events(fs: Seq<Function>, ins: Seq<Function>, gs: Seq<Function>, text: Seq<char>) -> Seq<(Function, CallSpec)>
    decreases gs.len(),
{
    if gs.len() == 0 {
        seq![]
    } else if target_symbol(fs, text, symbol_text(gs.last())) {
        edge_events(fs, ins, gs.drop_last(), text) + call_events(gs.last(), fn_calls(fs, ins, gs.last()))
    } else {
        edge_events(fs, ins, gs.drop_last(), text)
    }
}

/// The last row for the edge from symbol `a` to symbol `b`, or -1.
pub open spec fn row_index(rows: Seq<EdgeRow>, a: Seq<char>, b: Seq<char>) -> int
    decreases rows.len(),
{
    if rows.len() == 0 {
        -1
    } else if symbol_text(rows.last().0) == a && symbol_text(rows.last().1) == b {
        rows.len() - 1
    } else {
        row_index(rows.drop_last(), a, b)
    }
}

/// One call added to the edge rows: its site joins the row of its edge, or a new row
/// starts.
pub open spec fn add_event(rows: Seq<EdgeRow>, ev: (Function, CallSpec)) -> Seq<EdgeRow> {
    let site = (ev.1.0, ev.1.1);
    let k = row_index(rows, symbol_text(ev.0), symbol_text(ev.1.3));
    if k >= 0 {
        let r = rows[k];
        rows.update(k, (r.0, r.1, if r.2.contains(site) { r.2 } else { r.2.push(site) }))
    } else {
        rows.push((ev.0, ev.1.3, seq![site]))
    }
}

/// The edge rows of a list of calls, in first-seen order.
pub open spec fn edge_rows(evs: Seq<(Function, CallSpec)>) -> Seq<EdgeRow>
    decreases evs.len(),
{
    if evs.len() == 0 {
        seq![]
    } else {
        add_event(edge_rows(evs.drop_last()), evs.last())
    }
}

pub open spec fn callee_is(c: Callee, r: EdgeRow) -> bool {
    same_function(c.function, r.0) && same_function(c.target, r.1) && site_texts(c.call_sites@) == r.2
}

/// `(a1, b1)` comes no later than `(a2, b2)`: by the first, then by the second.
pub open spec fn pair_le(a1: Seq<char>, b1: Seq<char>, a2: Seq<char>, b2: Seq<char>) -> bool {
    seq_le(a1, a2) && (a1 == a2 ==> seq_le(b1, b2))
}

/// `res` lists the rows in the order `perm`, sorted by caller symbol, then callee symbol.
pub open spec fn sorted_callees(res: Seq<Callee>, rows: Seq<EdgeRow>, perm: Seq<usize>) -> bool {
    &&& is_permutation(perm, rows.len() as int)
    &&& res.len() == rows.len()
    &&& forall|k: int| 0 <= k < res.len() ==> callee_is(#[trigger] res[k], rows[perm[k] as int])
    &&& forall|i: int, j: int|
        0 <= i < j < res.len() ==> pair_le(
            symbol_text(rows[perm[i] as int].0),
            symbol_text(rows[perm[i] as int].1),
            symbol_text(rows[perm[j] as int].0),
            symbol_text(rows[perm[j] as int].1),
        )
}

impl Callee {
    pub fn copy(&self) -> (res: Callee)
        ensures
            same_function(res.function, self.function),
            same_function(res.target, self.target),
            res.call_sites@ == self.call_sites@,
    {
        Callee { function: self.function.copy(), target: self.target.copy(), call_sites: copy_sites(&self.call_sites) }
    }
}

/// Adds one call of `f` to the edge rows.
pub(crate) fn add_edge(rows: &mut Vec<Callee>, f: &Function, call: &ResolvedCall, Ghost(spec_rows): Ghost<Seq<EdgeRow>>, Ghost(cs): Ghost<CallSpec>)
    requires
        old(rows)@.len() == spec_rows.len(),
        forall|k: int| 0 <= k < spec_rows.len() ==> callee_is(#[trigger] old(rows)@[k], spec_rows[k]),
        call_is(*call, cs),
    ensures
        final(rows)@.len() == add_event(spec_rows, (*f, cs)).len(),
        forall|k: int| 0 <= k < final(rows)@.len() ==> callee_is(#[trigger] final(rows)@[k], add_event(spec_rows, (*f, cs))[k]),
{
    let fsym = f.symbol();
    let tsym = call.callee.symbol();
    let ghost site = (cs.0, cs.1);
    let mut k: usize = rows.len();
    assert(spec_rows.take(k as int) =~= spec_rows);
    assert(symbol_text(cs.3) == tsym@);
    while k > 0
        invariant
            k <= rows@.len(),
            rows@ == old(rows)@,
            row_index(spec_rows, fsym@, tsym@) == row_index(spec_rows.take(k as int), fsym@, tsym@),
            spec_rows.len() == rows@.len(),
            call_is(*call, cs),
            site == (cs.0, cs.1),
            symbol_text(cs.3) == tsym@,
            symbol_text(*f) == fsym@,
            forall|j: int| 0 <= j < spec_rows.len() ==> callee_is(#[trigger] rows@[j], spec_rows[j]),
        decreases k,
    {
        proof {
            assert(spec_rows.take(k as int).drop_last() =~= spec_rows.take(k - 1));
            assert(spec_rows.take(k as int).last() == spec_rows[k - 1]);
            assert(callee_is(rows@[k - 1], spec_rows[k - 1]));
        }
        let a = rows[k - 1].function.symbol();
        let b = rows[k - 1].target.symbol();
        if str_eq(a.as_str(), fsym.as_str()) && str_eq(b.as_str(), tsym.as_str()) {
            let ghost r = spec_rows[k - 1];
            let ghost before = rows@[k - 1].call_sites@;
            assert(row_index(spec_rows, fsym@, tsym@) == k - 1);
            assert(site_texts(before) == r.2);
            let present = has_site(&rows[k - 1].call_sites, &call.context, &call.expression);
            if !present {
                let mut row = rows[k - 1].copy();
                let ghost copied = row.call_sites@;
                assert(copied == before);
                let ns = CallSite { context: call.context.clone(), expression: call.expression.clone() };
                assert((ns.context@, ns.expression@) == site);
                row.call_sites.push(ns);
                assert(row.call_sites@ == copied.push(ns));
                assert(site_texts(row.call_sites@) =~= site_texts(before).push(site));
                rows.set(k - 1, row);
            }
            assert forall|j: int| 0 <= j < rows@.len() implies callee_is(#[trigger] rows@[j], add_event(spec_rows, (*f, cs))[j]) by {
                if j != k - 1 {
                    assert(rows@[j] == old(rows)@[j]);
                }
            }
            return;
        }
        k -= 1;
    }
    assert(spec_rows.take(0) =~= Seq::<EdgeRow>::empty());
    let ghost n = rows@.len();
    rows.push(Callee {
        function: f.copy(),
        target: call.callee.copy(),
        call_sites: {
            let mut v: Vec<CallSite> = Vec::new();
            v.push(CallSite { context: call.context.clone(), expression: call.expression.clone() });
            v
        },
    });
    assert forall|j: int| 0 <= j < rows@.len() implies callee_is(#[trigger] rows@[j], add_event(spec_rows, (*f, cs))[j]) by {
        if j < n {
            assert(rows@[j] == old(rows)@[j]);
        } else {
            assert(site_texts(rows@[j].call_sites@) =~= seq![site]);
        }
    }
}

/// The functions that the queried function (named by symbol or name) calls, with the
/// sites of those calls, sorted by caller symbol and then callee symbol.
pub fn query_callees(program: &Program, text: &str) -> (res: Vec<Callee>)
    ensures
        exists|ins: Seq<Function>, perm: Seq<usize>|
            is_intrinsic_list(ins) && #[trigger] sorted_callees(
                res@,
                edge_rows(edge_events(program.functions@, ins, program.functions@, text@)),
                perm,
            ),
{
    let intrinsics = intrinsic_functions();
    let ghost fs = program.functions@;
    let ghost ins = intrinsics@;
    let mut rows: Vec<Callee> = Vec::new();
    let mut i: usize = 0;
    assert(fs.take(0) =~= Seq::<Function>::empty());
    while i < program.functions.len()
        invariant
            i <= fs.len(),
            fs == program.functions@,
            ins == intrinsics@,
            rows@.len() == edge_rows(edge_events(fs, ins, fs.take(i as int), text@)).len(),
            forall|k: int| 0 <= k < rows@.len() ==> callee_is(#[trigger] rows@[k], edge_rows(edge_events(fs, ins, fs.take(i as int), text@))[k]),
        decreases fs.len() - i,
    {
        proof {
            assert(fs.take(i + 1).drop_last() =~= fs.take(i as int));
            assert(fs.take(i + 1).last() == fs[i as int]);
        }
        let f = &program.functions[i];
        let ghost base = edge_events(fs, ins, fs.take(i as int), text@);
        let fsym = f.symbol();
        if is_target_symbol(&program.functions, text, &fsym) {
            let calls = resolved_calls(f, program.functions.as_slice(), intrinsics.as_slice());
            let ghost cs = fn_calls(fs, ins, *f);
            let mut j: usize = 0;
            assert(cs.take(0) =~= Seq::<CallSpec>::empty());
            assert(base + call_events(*f, cs.take(0)) =~= base);
            while j < calls.len()
                invariant
                    j <= calls@.len(),
                    calls_are(calls@, cs),
                    fsym@ == symbol_text(*f),
                    rows@.len() == edge_rows(base + call_events(*f, cs.take(j as int))).len(),
                    forall|k: int| 0 <= k < rows@.len() ==> callee_is(#[trigger] rows@[k], edge_rows(base + call_events(*f, cs.take(j as int)))[k]),
                decreases calls@.len() - j,
            {
                proof {
                    assert(cs.take(j + 1).drop_last() =~= cs.take(j as int));
                    assert(cs.take(j + 1).last() == cs[j as int]);
                    assert(call_is(calls@[j as int], cs[j as int]));
                }
                let c = &calls[j];
                let csym = c.callee.symbol();
                if !str_eq(csym.as_str(), fsym.as_str()) {
                    let ghost prev = base + call_events(*f, cs.take(j as int));
                    assert(base + call_events(*f, cs.take(j + 1)) =~= prev.push((*f, cs[j as int])));
                    assert((base + call_events(*f, cs.take(j + 1))).drop_last() =~= prev);
                    add_edge(&mut rows, f, c, Ghost(edge_rows(prev)), Ghost(cs[j as int]));
                } else {
                    assert(base + call_events(*f, cs.take(j + 1)) =~= base + call_events(*f, cs.take(j as int)));
                }
                j += 1;
            }
            assert(cs.take(calls@.len() as int) =~= cs);
        }
        i += 1;
    }
    assert(fs.take(fs.len() as int) =~= fs);
    let ghost rs = edge_rows(edge_events(fs, ins, fs, text@));
    // Sort stably by callee symbol, then stably by caller symbol.
    let mut tkeys: Vec<Vec<char>> = Vec::new();
    let mut k: usize = 0;
    while k < rows.len()
        invariant
            k <= rows@.len(),
            tkeys@.len() == k,
            forall|j: int| 0 <= j < k ==> #[trigger] tkeys@[j]@ == symbol_text(rows@[j].target),
        decreases rows@.len() - k,
    {
        tkeys.push(chars_of(rows[k].target.symbol().as_str()));
        k += 1;
    }
    let perm1 = sort_order(&tkeys);
    let mut fkeys: Vec<Vec<char>> = Vec::new();
    let mut k: usize = 0;
    while k < perm1.len()
        invariant
            k <= perm1@.len(),
            is_permutation(perm1@, rows@.len() as int),
            fkeys@.len() == k,
            forall|j: int| 0 <= j < k ==> #[trigger] fkeys@[j]@ == symbol_text(rows@[perm1@[j] as int].function),
        decreases perm1@.len() - k,
    {
        fkeys.push(chars_of(rows[perm1[k]].function.symbol().as_str()));
        k += 1;
    }
    let perm2 = sort_order(&fkeys);
    let mut res: Vec<Callee> = Vec::new();
    let mut perm: Vec<usize> = Vec::new();
    let mut k: usize = 0;
    while k < perm2.len()
        invariant
            k <= perm2@.len(),
            is_permutation(perm1@, rows@.len() as int),
            is_permutation(perm2@, rows@.len() as int),
            stably_sorted_by(perm1@, views(tkeys@)),
            stably_sorted_by(perm2@, views(fkeys@)),
            tkeys@.len() == rows@.len(),
            fkeys@.len() == rows@.len(),
            forall|j: int| 0 <= j < rows@.len() ==> #[trigger] tkeys@[j]@ == symbol_text(rows@[j].target),
            forall|j: int| 0 <= j < rows@.len() ==> #[trigger] fkeys@[j]@ == symbol_text(rows@[perm1@[j] as int].function),
            rows@.len() == rs.len(),
            forall|j: int| 0 <= j < rows@.len() ==> callee_is(#[trigger] rows@[j], rs[j]),
            res@.len() == k,
            perm@.len() == k,
            forall|j: int| 0 <= j < k ==> #[trigger] perm@[j] == perm1@[perm2@[j] as int],
            forall|j: int| 0 <= j < k ==> callee_is(#[trigger] res@[j], rs[perm@[j] as int]),
        decreases perm2@.len() - k,
    {
        let idx = perm1[perm2[k]];
        perm.push(idx);
        let d = rows[idx].copy();
        proof {
            assert(callee_is(rows@[idx as int], rs[idx as int]));
        }
        res.push(d);
        k += 1;
    }
    proof {
        assert(views(tkeys@) =~= Seq::new(rows@.len(), |j: int| symbol_text(rows@[j].target)));
        assert(views(fkeys@) =~= Seq::new(rows@.len(), |j: int| symbol_text(rows@[perm1@[j] as int].function)));
        assert forall|a: int, b: int| 0 <= a < b < perm@.len() implies perm@[a] != perm@[b] by {
            assert(perm2@[a] != perm2@[b]);
        }
        assert forall|a: int, b: int| 0 <= a < b < res@.len() implies pair_le(
            symbol_text(rs[perm@[a] as int].0),
            symbol_text(rs[perm@[a] as int].1),
            symbol_text(rs[perm@[b] as int].0),
            symbol_text(rs[perm@[b] as int].1),
        ) by {
            let pa = perm2@[a] as int;
            let pb = perm2@[b] as int;
            assert(callee_is(rows@[perm1@[pa] as int], rs[perm1@[pa] as int]));
            assert(callee_is(rows@[perm1@[pb] as int], rs[perm1@[pb] as int]));
            assert(views(fkeys@)[pa] == symbol_text(rows@[perm1@[pa] as int].function));
            assert(views(fkeys@)[pb] == symbol_text(rows@[perm1@[pb] as int].function));
            crate::text::lemma_stable_at(perm2@, views(fkeys@), a, b);
            if symbol_text(rs[perm@[a] as int].0) == symbol_text(rs[perm@[b] as int].0) {
                assert(pa < pb);
                crate::text::lemma_stable_at(perm1@, views(tkeys@), pa, pb);
                assert(views(tkeys@)[perm1@[pa] as int] == symbol_text(rows@[perm1@[pa] as int].target));
                assert(views(tkeys@)[perm1@[pb] as int] == symbol_text(rows@[perm1@[pb] as int].target));
            }
        }
        assert(sorted_callees(res@, rs, perm@));
    }
    res
}


// ---------------------------------------------------------------------------
// Effects
// ---------------------------------------------------------------------------

/// The effects a function declares, trimmed, without empty ones, as a set.
pub open spec fn norm_set(f: Function) -> Set<Seq<char>> {
    texts(f.effects@).map_values(|e: Seq<char>| trim(e)).to_set().remove(seq![])
}

/// The capabilities among them: all but `pure`.
pub open spec fn ncaps(f: Function) -> Set<Seq<char>> {
    norm_set(f).remove("pure"@)
}

/// The capabilities that the callees of a list of calls declare.
pub open spec fn required_of(evs: Seq<(Function, CallSpec)>) -> Set<Seq<char>>
    decreases evs.len(),
{
    if evs.len() == 0 {
        Set::empty()
    } else {
        required_of(evs.drop_last()) + ncaps(evs.last().1.3)
    }
}

/// The direct calls of `f` to other functions.
pub open spec fn effect_events(fs: Seq<Function>, ins: Seq<Function>, f: Function) -> Seq<(Function, CallSpec)> {
    call_events(f, fn_calls(fs, ins, f))
}

/// A function's direct callee as reported: the callee with its normalized effects, its
/// capabilities and the sites of the calls.
pub open spec fn effect_callee_is(c: EffectCallee, r: EdgeRow) -> bool {
    &&& same_function(c.function, r.1)
    &&& texts(c.declared_effects@) == sorted_of(norm_set(r.1))
    &&& texts(c.declared_capabilities@) == sorted_of(ncaps(r.1))
    &&& site_texts(c.call_sites@) == r.2
}

/// The effect row of `f`: its declared effects and capabilities, what its direct callees
/// require, what is missing or unused, the declaration it should have, and its callees
/// sorted by symbol.
pub open spec fn effect_row_is(r: EffectQueryRow, fs: Seq<Function>, ins: Seq<Function>, f: Function) -> bool {
    let evs = effect_events(fs, ins, f);
    let decl = ncaps(f);
    let req = required_of(evs);
    let rows = edge_rows(evs);
    &&& same_function(r.function, f)
    &&& texts(r.declared_effects@) == sorted_of(norm_set(f))
    &&& texts(r.declared_capabilities@) == sorted_of(decl)
    &&& texts(r.required_by_direct_callees@) == sorted_of(req)
    &&& texts(r.missing_for_direct_callees@) == sorted_of(req - decl)
    &&& texts(r.unused_for_direct_callees@) == (if req.is_empty() { seq![] } else { sorted_of(decl - req) })
    &&& r.suggested_effects@ == declaration_of(if req.is_empty() || ((req - decl).is_empty() && (decl - req).is_empty()) { decl } else { req })
    &&& r.callees@.len() == rows.len()
    &&& exists|perm: Seq<usize>| #[trigger] is_permutation(perm, rows.len() as int) && {
        &&& stably_sorted_by(perm, rows.map_values(|e: EdgeRow| symbol_text(e.1)))
        &&& forall|k: int| 0 <= k < rows.len() ==> effect_callee_is(#[trigger] r.callees@[k], rows[perm[k] as int])
    }
}

/// The functions and intrinsics the query names, in that order.
pub open spec fn effect_targets(fs: Seq<Function>, ins: Seq<Function>, text: Seq<char>) -> Seq<Function> {
    (fs + ins).filter(|f: Function| queried(f, text))
}

/// A position among the program's functions, or among the intrinsics, that holds `f`.
pub open spec fn pick_is(p: (bool, usize), fs: Seq<Function>, ins: Seq<Function>, f: Function) -> bool {
    if p.0 {
        p.1 < ins.len() && ins[p.1 as int] == f
    } else {
        p.1 < fs.len() && fs[p.1 as int] == f
    }
}

/// Strings from character vectors.
pub(crate) fn strings_of(v: &Vec<Vec<char>>) -> (res: Vec<String>)
    ensures
        texts(res@) == views(v@),
{
    let mut out: Vec<String> = Vec::new();
    let mut i: usize = 0;
    while i < v.len()
        invariant
            i <= v@.len(),
            texts(out@) == views(v@).take(i as int),
        decreases v@.len() - i,
    {
        let ghost before = texts(out@);
        out.push(string_of(v[i].as_slice()));
        assert(texts(out@) =~= before.push(v@[i as int]@));
        assert(views(v@).take(i + 1) =~= views(v@).take(i as int).push(v@[i as int]@));
        i += 1;
    }
    assert(views(v@).take(v@.len() as int) =~= views(v@));
    out
}

/// The declared effects of a function, trimmed, without empty ones, sorted and distinct.
pub(crate) fn normalized_effect_list(f: &Function) -> (res: Vec<Vec<char>>)
    ensures
        holds_set(res@, norm_set(*f)),
{
    let ghost es = texts(f.effects@);
    let ghost tr = es.map_values(|e: Seq<char>| trim(e));
    let mut out: Vec<Vec<char>> = Vec::new();
    let mut i: usize = 0;
    assert(views(out@).to_set() =~= tr.take(0).to_set().remove(seq![]));
    while i < f.effects.len()
        invariant
            i <= f.effects@.len(),
            es == texts(f.effects@),
            tr == es.map_values(|e: Seq<char>| trim(e)),
            strictly_sorted(views(out@)),
            views(out@).to_set() == tr.take(i as int).to_set().remove(seq![]),
        decreases f.effects@.len() - i,
    {
        assert(tr.take(i + 1) =~= tr.take(i as int).push(tr[i as int]));
        assert(tr[i as int] == trim(f.effects@[i as int]@));
        proof {
            tr.take(i as int).lemma_push_to_set_commute(tr[i as int]);
        }
        let t = trim_chars(chars_of(f.effects[i].as_str()).as_slice());
        if t.len() > 0 {
            insert_sorted_unique(&mut out, t);
        } else {
            assert(t@ =~= Seq::<char>::empty());
        }
        assert(views(out@).to_set() =~= tr.take(i + 1).to_set().remove(seq![]));
        i += 1;
    }
    assert(tr.take(f.effects@.len() as int) =~= tr);
    out
}

/// The capabilities among normalized effects: all but `pure`.
pub(crate) fn capability_list(effects: &Vec<Vec<char>>) -> (res: Vec<Vec<char>>)
    requires
        strictly_sorted(views(effects@)),
    ensures
        strictly_sorted(views(res@)),
        views(res@).to_set() == views(effects@).to_set().remove("pure"@),
{
    let mut pure: Vec<Vec<char>> = Vec::new();
    pure.push(chars_of("pure"));
    assert(views(pure@).to_set() =~= set!["pure"@]) by {
        assert(views(pure@) =~= seq!["pure"@]);
        assert(seq!["pure"@].to_set() =~= set!["pure"@]) by {
            assert(seq!["pure"@][0] == "pure"@);
        }
    }
    let res = difference(effects, &pure);
    assert(views(res@).to_set() =~= views(effects@).to_set().remove("pure"@));
    res
}


/// The reported form of one direct callee.
fn effect_callee(row: &Callee) -> (res: EffectCallee)
    ensures
        same_function(res.function, row.target),
        texts(res.declared_effects@) == sorted_of(norm_set(row.target)),
        texts(res.declared_capabilities@) == sorted_of(ncaps(row.target)),
        res.call_sites@ == row.call_sites@,
{
    let eff = normalized_effect_list(&row.target);
    let caps = capability_list(&eff);
    proof {
        lemma_sorted_of(views(eff@));
        lemma_sorted_of(views(caps@));
    }
    EffectCallee {
        function: row.target.copy(),
        declared_effects: strings_of(&eff),
        declared_capabilities: strings_of(&caps),
        call_sites: copy_sites(&row.call_sites),
    }
}

/// The effect row of one function.
pub(crate) fn effect_row(program: &Program, intrinsics: &Vec<Function>, f: &Function) -> (res: EffectQueryRow)
    ensures
        effect_row_is(res, program.functions@, intrinsics@, *f),
{
    let ghost fs = program.functions@;
    let ghost ins = intrinsics@;
    let declared = normalized_effect_list(f);
    let dcaps = capability_list(&declared);
    let calls = resolved_calls(f, program.functions.as_slice(), intrinsics.as_slice());
    let ghost cs = fn_calls(fs, ins, *f);
    let fsym = f.symbol();
    let mut rows: Vec<Callee> = Vec::new();
    let mut required: Vec<Vec<char>> = Vec::new();
    let mut j: usize = 0;
    assert(cs.take(0) =~= Seq::<CallSpec>::empty());
    assert(views(required@).to_set() =~= Set::<Seq<char>>::empty());
    while j < calls.len()
        invariant
            j <= calls@.len(),
            calls_are(calls@, cs),
            cs == fn_calls(fs, ins, *f),
            fsym@ == symbol_text(*f),
            rows@.len() == edge_rows(call_events(*f, cs.take(j as int))).len(),
            forall|k: int| 0 <= k < rows@.len() ==> callee_is(#[trigger] rows@[k], edge_rows(call_events(*f, cs.take(j as int)))[k]),
            strictly_sorted(views(required@)),
            views(required@).to_set() == required_of(call_events(*f, cs.take(j as int))),
        decreases calls@.len() - j,
    {
        proof {
            assert(cs.take(j + 1).drop_last() =~= cs.take(j as int));
            assert(cs.take(j + 1).last() == cs[j as int]);
            assert(call_is(calls@[j as int], cs[j as int]));
        }
        let c = &calls[j];
        let csym = c.callee.symbol();
        if !str_eq(csym.as_str(), fsym.as_str()) {
            let ghost prev = call_events(*f, cs.take(j as int));
            assert(call_events(*f, cs.take(j + 1)) == prev.push((*f, cs[j as int])));
            assert(call_events(*f, cs.take(j + 1)).drop_last() =~= prev);
            add_edge(&mut rows, f, c, Ghost(edge_rows(prev)), Ghost(cs[j as int]));
            let ce = normalized_effect_list(&c.callee);
            let cc = capability_list(&ce);
            assert(ncaps(c.callee) == ncaps(cs[j as int].3)) by {
                assert(texts(c.callee.effects@) == texts(cs[j as int].3.effects@));
            }
            union_into(&mut required, &cc);
        } else {
            assert(call_events(*f, cs.take(j + 1)) == call_events(*f, cs.take(j as int)));
        }
        j += 1;
    }
    assert(cs.take(calls@.len() as int) =~= cs);
    let ghost evs = effect_events(fs, ins, *f);
    let ghost decl = ncaps(*f);
    let ghost req = required_of(evs);
    let missing = difference(&required, &dcaps);
    let unused = if required.len() == 0 { Vec::new() } else { difference(&dcaps, &required) };
    proof {
        crate::checks::lemma_empty_set(views(required@));
        crate::checks::lemma_empty_set(views(missing@));
        crate::checks::lemma_empty_set(views(unused@));
        lemma_sorted_of(views(declared@));
        lemma_sorted_of(views(dcaps@));
        lemma_sorted_of(views(required@));
        lemma_sorted_of(views(missing@));
        if required.len() > 0 {
            lemma_sorted_of(views(unused@));
        }
        assert(req.is_empty() == (req == Set::<Seq<char>>::empty()));
        assert((req - decl).is_empty() == ((req - decl) == Set::<Seq<char>>::empty()));
        assert((decl - req).is_empty() == ((decl - req) == Set::<Seq<char>>::empty()));
    }
    let suggested = if required.len() == 0 || (missing.len() == 0 && unused.len() == 0) {
        effects_declaration(&dcaps)
    } else {
        effects_declaration(&required)
    };
    let mut keys: Vec<Vec<char>> = Vec::new();
    let mut k: usize = 0;
    while k < rows.len()
        invariant
            k <= rows@.len(),
            keys@.len() == k,
            forall|m: int| 0 <= m < k ==> #[trigger] keys@[m]@ == symbol_text(rows@[m].target),
        decreases rows@.len() - k,
    {
        keys.push(chars_of(rows[k].target.symbol().as_str()));
        k += 1;
    }
    let perm = sort_order(&keys);
    let ghost er = edge_rows(evs);
    let mut callees: Vec<EffectCallee> = Vec::new();
    let mut k: usize = 0;
    while k < perm.len()
        invariant
            k <= perm@.len(),
            is_permutation(perm@, rows@.len() as int),
            rows@.len() == er.len(),
            forall|m: int| 0 <= m < rows@.len() ==> callee_is(#[trigger] rows@[m], er[m]),
            callees@.len() == k,
            forall|m: int| 0 <= m < k ==> effect_callee_is(#[trigger] callees@[m], er[perm@[m] as int]),
        decreases perm@.len() - k,
    {
        let idx = perm[k];
        assert(callee_is(rows@[idx as int], er[idx as int]));
        let ec = effect_callee(&rows[idx]);
        assert(norm_set(rows@[idx as int].target) == norm_set(er[idx as int].1)) by {
            assert(texts(rows@[idx as int].target.effects@) == texts(er[idx as int].1.effects@));
        }
        callees.push(ec);
        k += 1;
    }
    proof {
        assert(views(keys@) =~= er.map_values(|e: EdgeRow| symbol_text(e.1))) by {
            assert forall|m: int| 0 <= m < keys@.len() implies #[trigger] views(keys@)[m] == er.map_values(|e: EdgeRow| symbol_text(e.1))[m] by {
                assert(callee_is(rows@[m], er[m]));
            }
        }
        assert(is_permutation(perm@, er.len() as int));
    }
    let res = EffectQueryRow {
        function: f.copy(),
        declared_effects: strings_of(&declared),
        declared_capabilities: strings_of(&dcaps),
        required_by_direct_callees: strings_of(&required),
        missing_for_direct_callees: strings_of(&missing),
        unused_for_direct_callees: strings_of(&unused),
        suggested_effects: suggested,
        callees,
    };
    assert(same_function(res.function, *f));
    assert(texts(res.declared_effects@) == sorted_of(norm_set(*f)));
    assert(texts(res.declared_capabilities@) == sorted_of(decl));
    assert(texts(res.required_by_direct_callees@) == sorted_of(req));
    assert(texts(res.missing_for_direct_callees@) == sorted_of(req - decl));
    assert(texts(res.unused_for_direct_callees@) == (if req.is_empty() { seq![] } else { sorted_of(decl - req) }));
    assert(res.suggested_effects@ == declaration_of(if req.is_empty() || ((req - decl).is_empty() && (decl - req).is_empty()) { decl } else { req }));
    assert(res.callees@.len() == er.len());
    assert(effect_row_is(res, fs, ins, *f));
    res
}

/// The effects of the queried functions and intrinsics (named by symbol or name): what
/// each declares, what its direct callees require, and the declaration it should have;
/// sorted by symbol.
pub fn query_effects(program: &Program, text: &str) -> (res: Vec<EffectQueryRow>)
    ensures
        exists|ins: Seq<Function>, perm: Seq<usize>|
            #![trigger is_intrinsic_list(ins), is_permutation(perm, effect_targets(program.functions@, ins, text@).len() as int)]
            {
                let ts = effect_targets(program.functions@, ins, text@);
                &&& is_intrinsic_list(ins)
                &&& is_permutation(perm, ts.len() as int)
                &&& stably_sorted_by(perm, ts.map_values(|f: Function| symbol_text(f)))
                &&& res@.len() == ts.len()
                &&& forall|k: int| 0 <= k < ts.len() ==> effect_row_is(#[trigger] res@[k], program.functions@, ins, ts[perm[k] as int])
            },
{
    let intrinsics = intrinsic_functions();
    let ghost fs = program.functions@;
    let ghost ins = intrinsics@;
    let ghost all = fs + ins;
    let ghost pred = |f: Function| queried(f, text@);
    // Positions among the program's functions followed by the intrinsics.
    let mut picks: Vec<(bool, usize)> = Vec::new();
    let mut keys: Vec<Vec<char>> = Vec::new();
    let n = program.functions.len();
    let mut i: usize = 0;
    proof {
        reveal(Seq::filter);
    }
    assert(all.take(0).filter(pred) =~= Seq::<Function>::empty());
    while i < n
        invariant
            n == fs.len(),
            i <= fs.len(),
            all == fs + ins,
            fs == program.functions@,
            ins == intrinsics@,
            pred == (|f: Function| queried(f, text@)),
            picks@.len() == all.take(i as int).filter(pred).len(),
            keys@.len() == picks@.len(),
            forall|k: int| 0 <= k < picks@.len() ==> #[trigger] pick_is(picks@[k], fs, ins, all.take(i as int).filter(pred)[k]),
            forall|k: int| 0 <= k < picks@.len() ==> #[trigger] keys@[k]@ == symbol_text(all.take(i as int).filter(pred)[k]),
        decreases fs.len() - i,
    {
        proof {
            reveal(Seq::filter);
            assert(all.take(i + 1).drop_last() =~= all.take(i as int));
            assert(all.take(i + 1).last() == all[i as int]);
        }
        let g = &program.functions[i];
        assert(*g == all[i as int]);
        let gsym = g.symbol();
        if str_eq(gsym.as_str(), text) || str_eq(g.name.as_str(), text) {
            assert(pred(all[i as int]));
            assert(all.take(i + 1).filter(pred) == all.take(i as int).filter(pred).push(all[i as int]));
            picks.push((false, i));
            keys.push(chars_of(gsym.as_str()));
        } else {
            assert(!pred(all[i as int]));
            assert(all.take(i + 1).filter(pred) == all.take(i as int).filter(pred));
        }
        i += 1;
    }
    let mut j: usize = 0;
    while j < intrinsics.len()
        invariant
            n == fs.len(),
            j <= ins.len(),
            all == fs + ins,
            fs == program.functions@,
            ins == intrinsics@,
            pred == (|f: Function| queried(f, text@)),
            picks@.len() == all.take(n + j).filter(pred).len(),
            keys@.len() == picks@.len(),
            forall|k: int| 0 <= k < picks@.len() ==> #[trigger] pick_is(picks@[k], fs, ins, all.take(n + j).filter(pred)[k]),
            forall|k: int| 0 <= k < picks@.len() ==> #[trigger] keys@[k]@ == symbol_text(all.take(n + j).filter(pred)[k]),
        decreases ins.len() - j,
    {
        proof {
            reveal(Seq::filter);
            assert(all.take(n + j + 1).drop_last() =~= all.take(n + j));
            assert(all.take(n + j + 1).last() == all[n + j]);
        }
        let g = &intrinsics[j];
        assert(*g == all[n + j]);
        let gsym = g.symbol();
        if str_eq(gsym.as_str(), text) || str_eq(g.name.as_str(), text) {
            assert(pred(all[n + j]));
            assert(all.take(n + j + 1).filter(pred) == all.take(n + j).filter(pred).push(all[n + j]));
            picks.push((true, j));
            keys.push(chars_of(gsym.as_str()));
        } else {
            assert(!pred(all[n + j]));
            assert(all.take(n + j + 1).filter(pred) == all.take(n + j).filter(pred));
        }
        j += 1;
    }
    assert(all.take(n + ins.len()) =~= all);
    let ghost ts = effect_targets(fs, ins, text@);
    assert(ts == all.filter(pred));
    let perm = sort_order(&keys);
    let mut res: Vec<EffectQueryRow> = Vec::new();
    let mut k: usize = 0;
    while k < perm.len()
        invariant
            k <= perm@.len(),
            n == fs.len(),
            all == fs + ins,
            fs == program.functions@,
            ins == intrinsics@,
            ts == effect_targets(fs, ins, text@),
            is_permutation(perm@, ts.len() as int),
            picks@.len() == ts.len(),
            forall|m: int| 0 <= m < picks@.len() ==> #[trigger] pick_is(picks@[m], fs, ins, ts[m]),
            res@.len() == k,
            forall|m: int| 0 <= m < k ==> effect_row_is(#[trigger] res@[m], fs, ins, ts[perm@[m] as int]),
        decreases perm@.len() - k,
    {
        let p = picks[perm[k]];
        assert(pick_is(p, fs, ins, ts[perm@[k as int] as int]));
        let g = if p.0 { &intrinsics[p.1] } else { &program.functions[p.1] };
        let row = effect_row(program, &intrinsics, g);
        res.push(row);
        k += 1;
    }
    proof {
        assert(views(keys@) =~= ts.map_values(|f: Function| symbol_text(f)));
    }
    res
}


// ---------------------------------------------------------------------------
// Intent keys are stable
// ---------------------------------------------------------------------------

/// A character of a key: a lower-case letter or a digit.
pub open spec fn key_char(c: char) -> bool {
    is_alnum(c) && lower_char(c) == c
}

/// What the key scan builds: key characters and single spaces, never a space first, a
/// space right after a word exactly when the scan has left it.
pub open spec fn key_prefix(acc: Seq<char>, in_token: bool) -> bool {
    &&& forall|k: int| 0 <= k < acc.len() ==> acc[k] == ' ' || key_char(#[trigger] acc[k])
    &&& forall|k: int| 0 <= k < acc.len() && #[trigger] acc[k] == ' ' ==> k > 0 && acc[k - 1] != ' '
    &&& (in_token ==> acc.len() > 0 && acc.last() != ' ')
    &&& (!in_token ==> acc.len() == 0 || acc.last() == ' ')
}

proof fn lemma_lower_key(c: char)
    requires
        is_alnum(c),
    ensures
        key_char(lower_char(c)),
{
    if 'A' <= c && c <= 'Z' {
        let d = lower_char(c);
        assert(d as u32 == c as u32 + 32);
        assert('a' <= d && d <= 'z');
    }
}

proof fn lemma_key_from_shape(s: Seq<char>, i: int, in_token: bool, acc: Seq<char>)
    requires
        0 <= i <= s.len(),
        key_prefix(acc, in_token),
    ensures
        key_prefix(key_from(s, i, in_token, acc), true) || key_prefix(key_from(s, i, in_token, acc), false),
    decreases s.len() - i,
{
    if i < s.len() {
        if is_alnum(s[i]) {
            lemma_lower_key(s[i]);
            let a2 = acc.push(lower_char(s[i]));
            lemma_key_char_not_ws(lower_char(s[i]));
            assert forall|k: int| 0 <= k < a2.len() && #[trigger] a2[k] == ' ' implies k > 0 && a2[k - 1] != ' ' by {
                if k < acc.len() {
                    assert(a2[k] == acc[k]);
                    assert(a2[k - 1] == acc[k - 1]);
                }
            }
            assert forall|k: int| 0 <= k < a2.len() implies a2[k] == ' ' || key_char(#[trigger] a2[k]) by {
                if k < acc.len() {
                    assert(a2[k] == acc[k]);
                }
            }
            lemma_key_from_shape(s, i + 1, true, a2);
        } else if in_token {
            let a2 = acc.push(' ');
            assert forall|k: int| 0 <= k < a2.len() && #[trigger] a2[k] == ' ' implies k > 0 && a2[k - 1] != ' ' by {
                if k < acc.len() {
                    assert(a2[k] == acc[k]);
                    assert(a2[k - 1] == acc[k - 1]);
                }
            }
            assert forall|k: int| 0 <= k < a2.len() implies a2[k] == ' ' || key_char(#[trigger] a2[k]) by {
                if k < acc.len() {
                    assert(a2[k] == acc[k]);
                }
            }
            lemma_key_from_shape(s, i + 1, false, a2);
        } else {
            lemma_key_from_shape(s, i + 1, false, acc);
        }
    }
}

/// A key: key characters separated by single spaces, with no space at either end.
pub open spec fn is_key(t: Seq<char>) -> bool {
    &&& forall|k: int| 0 <= k < t.len() ==> t[k] == ' ' || key_char(#[trigger] t[k])
    &&& forall|k: int| 0 <= k < t.len() && #[trigger] t[k] == ' ' ==> 0 < k < t.len() - 1 && t[k - 1] != ' ' && t[k + 1] != ' '
}

proof fn lemma_key_char_not_ws(c: char)
    requires
        key_char(c),
    ensures
        !is_ws(c),
        c != ' ',
{
}

/// The scan of a key rebuilds it.
proof fn lemma_key_from_key(t: Seq<char>, i: int, in_token: bool)
    requires
        is_key(t),
        0 <= i <= t.len(),
        in_token == (i > 0 && t[i - 1] != ' '),
    ensures
        key_from(t, i, in_token, t.take(i)) == t,
    decreases t.len() - i,
{
    if i == t.len() {
        assert(t.take(i) =~= t);
    } else {
        assert(t.take(i + 1) =~= t.take(i).push(t[i]));
        if t[i] == ' ' {
            assert(!is_alnum(t[i]));
            assert(in_token);
            lemma_key_from_key(t, i + 1, false);
        } else {
            assert(key_char(t[i]));
            lemma_key_from_key(t, i + 1, true);
        }
    }
}

proof fn lemma_trim_key(t: Seq<char>)
    requires
        is_key(t),
    ensures
        trim(t) == t,
{
    if t.len() > 0 {
        assert(t[0] != ' ');
        lemma_key_char_not_ws(t[0]);
        assert(t[t.len() - 1] != ' ');
        lemma_key_char_not_ws(t[t.len() - 1]);
    }
    assert(skip_ws_from(t, 0) == 0);
    assert(t.skip(0) =~= t);
    assert(trim_end_to(t, t.len() as int) == t.len());
    assert(t.take(t.len() as int) =~= t);
}

/// What the scan builds, trimmed, is a key.
proof fn lemma_trimmed_scan_is_key(k: Seq<char>, in_token: bool)
    requires
        key_prefix(k, in_token),
    ensures
        is_key(trim(k)),
{
    if k.len() > 0 {
        assert(k[0] != ' ');
        lemma_key_char_not_ws(k[0]);
    }
    assert(skip_ws_from(k, 0) == 0);
    assert(k.skip(0) =~= k);
    if k.len() > 0 && k.last() == ' ' {
        if k.len() > 1 {
            assert(k[k.len() - 1] == ' ');
            assert(k[k.len() - 2] != ' ');
            lemma_key_char_not_ws(k[k.len() - 2]);
        }
        assert(trim_end_to(k, k.len() - 1) == k.len() - 1);
        assert(trim_end_to(k, k.len() as int) == k.len() - 1);
        let t = k.take(k.len() - 1);
        assert(trim(k) == t);
        assert forall|j: int| 0 <= j < t.len() && #[trigger] t[j] == ' ' implies 0 < j < t.len() - 1 && t[j - 1] != ' ' && t[j + 1] != ' ' by {
            assert(t[j] == k[j]);
            assert(k[j + 1] != ' ');
        }
        assert forall|j: int| 0 <= j < t.len() implies t[j] == ' ' || key_char(#[trigger] t[j]) by {
            assert(t[j] == k[j]);
        }
    } else {
        if k.len() > 0 {
            lemma_key_char_not_ws(k.last());
        }
        assert(trim_end_to(k, k.len() as int) == k.len());
        assert(k.take(k.len() as int) =~= k);
        assert(trim(k) == k);
        assert forall|j: int| 0 <= j < k.len() && #[trigger] k[j] == ' ' implies 0 < j < k.len() - 1 && k[j - 1] != ' ' && k[j + 1] != ' ' by {
            if j == k.len() - 1 {
                assert(k.last() == ' ');
            }
            if j + 1 < k.len() && k[j + 1] == ' ' {
                assert(k[(j + 1) - 1] != ' ');
            }
        }
    }
}

/// Normalizing an intent twice gives what normalizing it once gives: a key is its own key.
pub proof fn law_intent_key_idempotent(s: Seq<char>)
    ensures
        intent_key(intent_key(s)) == intent_key(s),
{
    let k = key_from(s, 0, false, seq![]);
    lemma_key_from_shape(s, 0, false, seq![]);
    if key_prefix(k, true) {
        lemma_trimmed_scan_is_key(k, true);
    } else {
        lemma_trimmed_scan_is_key(k, false);
    }
    let t = intent_key(s);
    assert(t.take(0) =~= Seq::<char>::empty());
    lemma_key_from_key(t, 0, false);
    lemma_trim_key(t);
}


// ---------------------------------------------------------------------------
// Each call edge is reported once
// ---------------------------------------------------------------------------

/// No two rows are for the same caller and callee symbols.
pub open spec fn distinct_edges(rows: Seq<EdgeRow>) -> bool {
    forall|i: int, j: int|
        0 <= i < j < rows.len() ==> !(symbol_text(#[trigger] rows[i].0) == symbol_text(rows[j].0) && symbol_text(rows[i].1)
            == symbol_text(#[trigger] rows[j].1))
}

proof fn lemma_row_index(rows: Seq<EdgeRow>, a: Seq<char>, b: Seq<char>)
    ensures
        -1 <= row_index(rows, a, b) < rows.len(),
        row_index(rows, a, b) >= 0 ==> symbol_text(rows[row_index(rows, a, b)].0) == a && symbol_text(rows[row_index(rows, a, b)].1) == b,
        row_index(rows, a, b) == -1 ==> forall|k: int| 0 <= k < rows.len() ==> !(symbol_text(#[trigger] rows[k].0) == a && symbol_text(rows[k].1) == b),
    decreases rows.len(),
{
    if rows.len() > 0 {
        lemma_row_index(rows.drop_last(), a, b);
        if !(symbol_text(rows.last().0) == a && symbol_text(rows.last().1) == b) {
            assert forall|k: int| 0 <= k < rows.len() - 1 implies #[trigger] rows[k] == rows.drop_last()[k] by {}
        }
    }
}

proof fn lemma_edge_rows_distinct(evs: Seq<(Function, CallSpec)>)
    ensures
        distinct_edges(edge_rows(evs)),
    decreases evs.len(),
{
    if evs.len() > 0 {
        let rows = edge_rows(evs.drop_last());
        lemma_edge_rows_distinct(evs.drop_last());
        let ev = evs.last();
        lemma_row_index(rows, symbol_text(ev.0), symbol_text(ev.1.3));
        let k = row_index(rows, symbol_text(ev.0), symbol_text(ev.1.3));
        let out = add_event(rows, ev);
        if k >= 0 {
            assert forall|i: int, j: int| 0 <= i < j < out.len() implies !(symbol_text(#[trigger] out[i].0) == symbol_text(out[j].0) && symbol_text(out[i].1) == symbol_text(#[trigger] out[j].1)) by {
                assert(symbol_text(out[i].0) == symbol_text(rows[i].0) && symbol_text(out[i].1) == symbol_text(rows[i].1));
                assert(symbol_text(out[j].0) == symbol_text(rows[j].0) && symbol_text(out[j].1) == symbol_text(rows[j].1));
            }
        } else {
            assert forall|i: int, j: int| 0 <= i < j < out.len() implies !(symbol_text(#[trigger] out[i].0) == symbol_text(out[j].0) && symbol_text(out[i].1) == symbol_text(#[trigger] out[j].1)) by {
                assert(out[i] == rows[i]);
                if j < rows.len() {
                    assert(out[j] == rows[j]);
                }
            }
        }
    }
}

/// The callees a query reports come in strictly increasing order of caller and callee
/// symbols: no call edge is reported twice.
pub proof fn law_callees_each_once(res: Seq<Callee>, evs: Seq<(Function, CallSpec)>, perm: Seq<usize>)
    requires
        sorted_callees(res, edge_rows(evs), perm),
    ensures
        forall|i: int, j: int|
            0 <= i < j < res.len() ==> !(symbol_text((#[trigger] res[i]).function) == symbol_text(res[j].function) && symbol_text(res[i].target)
                == symbol_text((#[trigger] res[j]).target)),
{
    let rows = edge_rows(evs);
    lemma_edge_rows_distinct(evs);
    assert forall|i: int, j: int| 0 <= i < j < res.len() implies !(symbol_text((#[trigger] res[i]).function) == symbol_text(res[j].function) && symbol_text(res[i].target)
        == symbol_text((#[trigger] res[j]).target)) by {
        assert(callee_is(res[i], rows[perm[i] as int]));
        assert(callee_is(res[j], rows[perm[j] as int]));
        let a = perm[i] as int;
        let b = perm[j] as int;
        assert(a != b);
        if a < b {
            assert(!(symbol_text(rows[a].0) == symbol_text(rows[b].0) && symbol_text(rows[a].1) == symbol_text(rows[b].1)));
        } else {
            assert(!(symbol_text(rows[b].0) == symbol_text(rows[a].0) && symbol_text(rows[b].1) == symbol_text(rows[a].1)));
        }
    }
}

} // verus!
