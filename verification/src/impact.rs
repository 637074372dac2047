//! Transitive impact: every function that reaches a queried function through calls,
//! found breadth first, with its depth, its call path and the sites of its call.
use vstd::prelude::*;
use vstd::string::*;

use crate::calls::{calls_are, call_is, fn_calls, resolved_calls, CallSpec};
use crate::intrinsics::{intrinsic_functions, is_intrinsic_list};
use crate::ledger::{
    add_edge, call_events, callee_is, edge_rows, queried, site_texts, CallSite, Callee, EdgeRow,
    ImpactDependent,
};
use crate::model::{same_function, symbol_text, Function, Program};
use crate::text::{chars_of, seq_eq, seq_less, str_eq, text_less};
use crate::plan::same_functions;

verus! {

// ---------------------------------------------------------------------------
// The call graph
// ---------------------------------------------------------------------------
/// The calls that the functions `gs` make to other functions, in program order.
pub open spec fn all_events(fs: Seq<Function>, ins: Seq<Function>, gs: Seq<Function>) -> Seq<(Function, CallSpec)>
    decreases gs.len(),
{
    if gs.len() == 0 {
        seq![]
    } else {
        all_events(fs, ins, gs.drop_last()) + call_events(gs.last(), fn_calls(fs, ins, gs.last()))
    }
}

/// The call edges of the program: caller, callee and call sites, in first-seen order.
pub open spec fn call_rows(fs: Seq<Function>, ins: Seq<Function>) -> Seq<EdgeRow> {
    edge_rows(all_events(fs, ins, fs))
}

pub open spec fn rows_are(v: Seq<Callee>, rows: Seq<EdgeRow>) -> bool {
    v.len() == rows.len() && forall|k: int| 0 <= k < v.len() ==> callee_is(#[trigger] v[k], rows[k])
}

fn all_call_rows(program: &Program, intrinsics: &Vec<Function>) -> (res: Vec<Callee>)
    ensures
        rows_are(res@, call_rows(program.functions@, intrinsics@)),
{
    let ghost fs = program.functions@;
    let ghost ins = intrinsics@;
    let mut rows: Vec<Callee> = Vec::new();
    let mut i: usize = 0;
    assert(fs.take(0) =~= Seq::<Function>::empty());
    while i < program.functions.len()
        invariant
            i <= fs.len(),
            fs == program.functions@,
            ins == intrinsics@,
            rows_are(rows@, edge_rows(all_events(fs, ins, fs.take(i as int)))),
        decreases fs.len() - i,
    {
        proof {
            assert(fs.take(i + 1).drop_last() =~= fs.take(i as int));
            assert(fs.take(i + 1).last() == fs[i as int]);
        }
        let f = &program.functions[i];
        let ghost base = all_events(fs, ins, fs.take(i as int));
        let fsym = f.symbol();
        let calls = resolved_calls(f, program.functions.as_slice(), intrinsics.as_slice());
        let ghost cs = fn_calls(fs, ins, *f);
        let mut j: usize = 0;
        assert(cs.take(0) =~= Seq::<CallSpec>::empty());
        assert(base + call_events(*f, cs.take(0)) =~= base);
        while j < calls.len()
            invariant
                j <= calls@.len(),
                calls_are(calls@, cs),
                fsym@ == symbol_text(*f),
                rows_are(rows@, edge_rows(base + call_events(*f, cs.take(j as int)))),
            decreases calls@.len() - j,
        {
            proof {
                assert(cs.take(j + 1).drop_last() =~= cs.take(j as int));
                assert(cs.take(j + 1).last() == cs[j as int]);
                assert(call_is(calls@[j as int], cs[j as int]));
            }
            let c = &calls[j];
            let csym = c.callee.symbol();
            if !str_eq(csym.as_str(), fsym.as_str()) {
                let ghost prev = base + call_events(*f, cs.take(j as int));
                assert(base + call_events(*f, cs.take(j + 1)) =~= prev.push((*f, cs[j as int])));
                assert((base + call_events(*f, cs.take(j + 1))).drop_last() =~= prev);
                add_edge(&mut rows, f, c, Ghost(edge_rows(prev)), Ghost(cs[j as int]));
            } else {
                assert(base + call_events(*f, cs.take(j + 1)) =~= base + call_events(*f, cs.take(j as int)));
            }
            j += 1;
        }
        assert(cs.take(calls@.len() as int) =~= cs);
        i += 1;
    }
    assert(fs.take(fs.len() as int) =~= fs);
    rows
}

/// The caller symbol of a row.
pub open spec fn caller_sym(rows: Seq<EdgeRow>, k: usize) -> Seq<char> {
    symbol_text(rows[k as int].0)
}

/// The first position from `i` on whose row's caller sorts after the caller of row `x`.
pub open spec fn first_later(rows: Seq<EdgeRow>, s: Seq<usize>, x: usize, i: int) -> int
    decreases s.len() - i,
{
    if i < 0 || i >= s.len() {
        s.len() as int
    } else if seq_less(caller_sym(rows, x), caller_sym(rows, s[i])) {
        i
    } else {
        first_later(rows, s, x, i + 1)
    }
}

/// The rows among the first `n` whose callee has symbol `sym`, sorted by caller symbol.
pub open spec fn incoming_from(rows: Seq<EdgeRow>, sym: Seq<char>, n: int) -> Seq<usize>
    decreases n,
{
    if n <= 0 || n > rows.len() {
        seq![]
    } else {
        let r = incoming_from(rows, sym, n - 1);
        if symbol_text(rows[n - 1].1) == sym {
            r.insert(first_later(rows, r, (n - 1) as usize, 0), (n - 1) as usize)
        } else {
            r
        }
    }
}

/// The calls into the function with symbol `sym`, sorted by caller symbol.
pub open spec fn incoming(rows: Seq<EdgeRow>, sym: Seq<char>) -> Seq<usize> {
    incoming_from(rows, sym, rows.len() as int)
}

pub open spec fn sym_views(v: Seq<Vec<char>>) -> Seq<Seq<char>> {
    v.map_values(|c: Vec<char>| c@)
}

proof fn lemma_first_later(rows: Seq<EdgeRow>, s: Seq<usize>, x: usize, i: int)
    requires
        0 <= i <= s.len(),
    ensures
        i <= first_later(rows, s, x, i) <= s.len(),
    decreases s.len() - i,
{
    if i < s.len() {
        lemma_first_later(rows, s, x, i + 1);
    }
}

/// The rows into `sym`, sorted by caller symbol, as row positions.
fn incoming_exec(
    callers: &Vec<Vec<char>>,
    callees: &Vec<Vec<char>>,
    sym: &Vec<char>,
    Ghost(rows): Ghost<Seq<EdgeRow>>,
) -> (res: Vec<usize>)
    requires
        callers@.len() == rows.len(),
        callees@.len() == rows.len(),
        forall|k: int| 0 <= k < rows.len() ==> (#[trigger] callers@[k])@ == symbol_text(rows[k].0),
        forall|k: int| 0 <= k < rows.len() ==> (#[trigger] callees@[k])@ == symbol_text(rows[k].1),
    ensures
        res@ == incoming(rows, sym@),
        forall|k: int| 0 <= k < res@.len() ==> (#[trigger] res@[k]) < rows.len(),
{
    let mut out: Vec<usize> = Vec::new();
    let mut n: usize = 0;
    while n < callees.len()
        invariant
            n <= rows.len(),
            callers@.len() == rows.len(),
            callees@.len() == rows.len(),
            forall|k: int| 0 <= k < rows.len() ==> (#[trigger] callers@[k])@ == symbol_text(rows[k].0),
            forall|k: int| 0 <= k < rows.len() ==> (#[trigger] callees@[k])@ == symbol_text(rows[k].1),
            out@ == incoming_from(rows, sym@, n as int),
            forall|k: int| 0 <= k < out@.len() ==> (#[trigger] out@[k]) < n,
        decreases rows.len() - n,
    {
        if seq_eq(&callees[n], sym) {
            let ghost r = out@;
            let mut p: usize = 0;
            proof {
                lemma_first_later(rows, r, n, 0);
            }
            while p < out.len()
                invariant
                    p <= out@.len(),
                    r == out@,
                    n < rows.len(),
                    callers@.len() == rows.len(),
                    forall|k: int| 0 <= k < rows.len() ==> (#[trigger] callers@[k])@ == symbol_text(rows[k].0),
                    forall|k: int| 0 <= k < out@.len() ==> (#[trigger] out@[k]) < n,
                    first_later(rows, r, n, p as int) == first_later(rows, r, n, 0),
                ensures
                    p == first_later(rows, r, n, 0),
                decreases out@.len() - p,
            {
                let q = out[p];
                if text_less(&callers[n], &callers[q]) {
                    break;
                }
                p += 1;
            }
            out.insert(p, n);
            proof {
                let s = out@;
                assert forall|k: int| 0 <= k < s.len() implies #[trigger] s[k] < n + 1 by {
                    if k < p {
                        assert(s[k] == r[k]);
                    } else if k > p {
                        assert(s[k] == r[k - 1]);
                    }
                }
            }
        }
        n += 1;
    }
    out
}

// ---------------------------------------------------------------------------
// Breadth-first search from one target
// ---------------------------------------------------------------------------
/// A node of the search: the row whose caller it is (none for the target itself), the
/// rows of the path from it to the target, and its depth.
pub type Visit = (Option<usize>, Seq<usize>, nat);

/// A dependent found: the row of its call, its depth, and the rows of its path.
pub type Found = (usize, nat, Seq<usize>);

/// The search state: callers visited, the next frontier, and the dependents found.
pub type Search = (Seq<Seq<char>>, Seq<Visit>, Seq<Found>);

/// The symbol of a node.
pub open spec fn node_sym(rows: Seq<EdgeRow>, tsym: Seq<char>, v: Visit) -> Seq<char> {
    match v.0 {
        Some(k) => caller_sym(rows, k),
        None => tsym,
    }
}

/// Follows one call edge back from node `it`: its caller is new unless it is the target
/// or was visited.
pub open spec fn visit_step(rows: Seq<EdgeRow>, tsym: Seq<char>, it: Visit, st: Search, e: usize) -> Search {
    let c = caller_sym(rows, e);
    if c == tsym || st.0.contains(c) {
        st
    } else {
        let path = seq![e] + it.1;
        (st.0.push(c), st.1.push((Some(e), path, it.2 + 1)), st.2.push((e, it.2 + 1, path)))
    }
}

/// Follows the edges `es` back from node `it`, in order.
pub open spec fn visit_edges(rows: Seq<EdgeRow>, tsym: Seq<char>, it: Visit, es: Seq<usize>, st: Search) -> Search
    decreases es.len(),
{
    if es.len() == 0 {
        st
    } else {
        visit_step(rows, tsym, it, visit_edges(rows, tsym, it, es.drop_last(), st), es.last())
    }
}

/// Follows back the incoming edges of every node of a frontier, in order.
pub open spec fn visit_level(rows: Seq<EdgeRow>, tsym: Seq<char>, fr: Seq<Visit>, st: Search) -> Search
    decreases fr.len(),
{
    if fr.len() == 0 {
        st
    } else {
        let it = fr.last();
        visit_edges(rows, tsym, it, incoming(rows, node_sym(rows, tsym, it)), visit_level(rows, tsym, fr.drop_last(), st))
    }
}

/// The search level by level, for at most `k` levels, until a frontier is empty.
pub open spec fn search(rows: Seq<EdgeRow>, tsym: Seq<char>, fr: Seq<Visit>, vis: Seq<Seq<char>>, found: Seq<Found>, k: nat) -> Seq<Found>
    decreases k,
{
    if k == 0 || fr.len() == 0 {
        found
    } else {
        let st = visit_level(rows, tsym, fr, (vis, seq![], found));
        search(rows, tsym, st.1, st.0, st.2, (k - 1) as nat)
    }
}

/// The dependents of the function with symbol `tsym`, breadth first: each caller once, at its least depth, with the
/// path through which it was first reached. (A search visits each caller at most once,
/// so it ends within as many levels as there are rows.)
pub open spec fn impact_of(rows: Seq<EdgeRow>, tsym: Seq<char>) -> Seq<Found> {
    search(rows, tsym, seq![(None, seq![], 0)], seq![], seq![], (rows.len() + 1) as nat)
}

/// The callers' symbols of the rows.
pub open spec fn callers_of(rows: Seq<EdgeRow>) -> Seq<Seq<char>> {
    rows.map_values(|r: EdgeRow| symbol_text(r.0))
}

/// Visited callers are distinct callers of the rows.
pub open spec fn fresh_callers(rows: Seq<EdgeRow>, vis: Seq<Seq<char>>) -> bool {
    vis.no_duplicates() && forall|k: int| 0 <= k < vis.len() ==> callers_of(rows).contains(#[trigger] vis[k])
}

proof fn lemma_vis_bound(rows: Seq<EdgeRow>, vis: Seq<Seq<char>>)
    requires
        fresh_callers(rows, vis),
    ensures
        vis.len() <= rows.len(),
{
    let u = callers_of(rows);
    vis.unique_seq_to_set();
    u.lemma_cardinality_of_set();
    vstd::seq_lib::seq_to_set_is_finite(u);
    assert forall|x: Seq<char>| vis.to_set().contains(x) implies u.to_set().contains(x) by {
        let k = choose|k: int| 0 <= k < vis.len() && vis[k] == x;
        assert(u.contains(vis[k]));
    }
    vstd::set_lib::lemma_len_subset(vis.to_set(), u.to_set());
}

pub open spec fn visit_view(x: (Option<usize>, Vec<usize>, usize)) -> Visit {
    (x.0, x.1@, x.2 as nat)
}

pub open spec fn visit_views(v: Seq<(Option<usize>, Vec<usize>, usize)>) -> Seq<Visit> {
    v.map_values(|x: (Option<usize>, Vec<usize>, usize)| visit_view(x))
}

pub open spec fn found_view(x: (usize, usize, Vec<usize>)) -> Found {
    (x.0, x.1 as nat, x.2@)
}

pub open spec fn found_views(v: Seq<(usize, usize, Vec<usize>)>) -> Seq<Found> {
    v.map_values(|x: (usize, usize, Vec<usize>)| found_view(x))
}

/// Row positions below `n`.
pub open spec fn within(v: Seq<usize>, n: int) -> bool {
    forall|k: int| 0 <= k < v.len() ==> (#[trigger] v[k]) < n
}

/// Frontier nodes lie among the rows, at depth `d`.
pub open spec fn frontier_ok(fr: Seq<Visit>, n: int, d: nat) -> bool {
    forall|k: int|
        0 <= k < fr.len() ==> (match (#[trigger] fr[k]).0 {
            Some(e) => e < n,
            None => true,
        }) && within(fr[k].1, n) && fr[k].2 == d
}

/// Dependents found lie among the rows.
pub open spec fn found_ok(f: Seq<Found>, n: int) -> bool {
    forall|k: int| 0 <= k < f.len() ==> (#[trigger] f[k]).0 < n && within(f[k].2, n)
}

fn copy_chars(v: &Vec<char>) -> (res: Vec<char>)
    ensures
        res@ == v@,
{
    let mut out: Vec<char> = Vec::new();
    let mut i: usize = 0;
    while i < v.len()
        invariant
            i <= v@.len(),
            out@ == v@.take(i as int),
        decreases v@.len() - i,
    {
        out.push(v[i]);
        assert(v@.take(i + 1) =~= v@.take(i as int).push(v@[i as int]));
        i += 1;
    }
    assert(v@.take(v@.len() as int) =~= v@);
    out
}

fn copy_indices(v: &Vec<usize>) -> (res: Vec<usize>)
    ensures
        res@ == v@,
{
    let mut out: Vec<usize> = Vec::new();
    let mut i: usize = 0;
    while i < v.len()
        invariant
            i <= v@.len(),
            out@ == v@.take(i as int),
        decreases v@.len() - i,
    {
        out.push(v[i]);
        assert(v@.take(i + 1) =~= v@.take(i as int).push(v@[i as int]));
        i += 1;
    }
    assert(v@.take(v@.len() as int) =~= v@);
    out
}

fn contains_sym(v: &Vec<Vec<char>>, c: &Vec<char>) -> (res: bool)
    ensures
        res == sym_views(v@).contains(c@),
{
    let mut i: usize = 0;
    while i < v.len()
        invariant
            i <= v@.len(),
            forall|j: int| 0 <= j < i ==> v@[j]@ != c@,
        decreases v@.len() - i,
    {
        if seq_eq(&v[i], c) {
            assert(sym_views(v@)[i as int] == c@);
            return true;
        }
        i += 1;
    }
    proof {
        if sym_views(v@).contains(c@) {
            let j = choose|j: int| 0 <= j < sym_views(v@).len() && sym_views(v@)[j] == c@;
            assert(v@[j]@ == c@);
        }
    }
    false
}

/// Searches back from target `t` through the call rows.
fn search_target(
    callers: &Vec<Vec<char>>,
    callees: &Vec<Vec<char>>,
    t: &Function,
    Ghost(rows): Ghost<Seq<EdgeRow>>,
) -> (res: Vec<(usize, usize, Vec<usize>)>)
    requires
        callers@.len() == rows.len(),
        callees@.len() == rows.len(),
        forall|k: int| 0 <= k < rows.len() ==> (#[trigger] callers@[k])@ == symbol_text(rows[k].0),
        forall|k: int| 0 <= k < rows.len() ==> (#[trigger] callees@[k])@ == symbol_text(rows[k].1),
    ensures
        found_views(res@) == impact_of(rows, symbol_text(*t)),
        found_ok(found_views(res@), rows.len() as int),
{
    let tsym = chars_of(t.symbol().as_str());
    let n = callers.len();
    let mut vis: Vec<Vec<char>> = Vec::new();
    let mut found: Vec<(usize, usize, Vec<usize>)> = Vec::new();
    let mut frontier: Vec<(Option<usize>, Vec<usize>, usize)> = Vec::new();
    frontier.push((None, Vec::new(), 0));
    let ghost mut level: nat = 0;
    proof {
        assert(visit_views(frontier@) =~= seq![(None::<usize>, Seq::<usize>::empty(), 0nat)]);
        assert(sym_views(vis@) =~= Seq::<Seq<char>>::empty());
        assert(found_views(found@) =~= Seq::<Found>::empty());
    }
    while frontier.len() > 0
        invariant
            n == rows.len(),
            callers@.len() == rows.len(),
            callees@.len() == rows.len(),
            forall|k: int| 0 <= k < rows.len() ==> (#[trigger] callers@[k])@ == symbol_text(rows[k].0),
            forall|k: int| 0 <= k < rows.len() ==> (#[trigger] callees@[k])@ == symbol_text(rows[k].1),
            tsym@ == symbol_text(*t),
            level <= n + 1,
            search(rows, symbol_text(*t), visit_views(frontier@), sym_views(vis@), found_views(found@), (n + 1 - level) as nat)
                == impact_of(rows, symbol_text(*t)),
            fresh_callers(rows, sym_views(vis@)),
            frontier@.len() > 0 ==> level <= vis@.len(),
            frontier_ok(visit_views(frontier@), n as int, level as nat),
            found_ok(found_views(found@), n as int),
        decreases n + 1 - level,
    {
        proof {
            lemma_vis_bound(rows, sym_views(vis@));
        }
        let ghost fr = visit_views(frontier@);
        let ghost st0: Search = (sym_views(vis@), Seq::empty(), found_views(found@));
        let vis0 = vis.len();
        let mut next: Vec<(Option<usize>, Vec<usize>, usize)> = Vec::new();
        let mut a: usize = 0;
        proof {
            assert(fr.take(0) =~= Seq::<Visit>::empty());
            assert(visit_views(next@) =~= Seq::<Visit>::empty());
        }
        while a < frontier.len()
            invariant
                n == rows.len(),
                callers@.len() == rows.len(),
                callees@.len() == rows.len(),
                forall|k: int| 0 <= k < rows.len() ==> (#[trigger] callers@[k])@ == symbol_text(rows[k].0),
                forall|k: int| 0 <= k < rows.len() ==> (#[trigger] callees@[k])@ == symbol_text(rows[k].1),
                tsym@ == symbol_text(*t),
                a <= frontier@.len(),
                fr == visit_views(frontier@),
                frontier@.len() > 0,
                level <= vis0,
                vis0 <= vis@.len(),
                next@.len() == vis@.len() - vis0,
                visit_level(rows, symbol_text(*t), fr.take(a as int), st0) == (sym_views(vis@), visit_views(next@), found_views(found@)),
                fresh_callers(rows, sym_views(vis@)),
                frontier_ok(fr, n as int, level as nat),
                frontier_ok(visit_views(next@), n as int, (level + 1) as nat),
                found_ok(found_views(found@), n as int),
            decreases frontier@.len() - a,
        {
            proof {
                assert(fr.take(a + 1).drop_last() =~= fr.take(a as int));
                assert(fr.take(a + 1).last() == fr[a as int]);
            }
            let it = &frontier[a];
            let ghost itv = fr[a as int];
            assert(visit_view(*it) == itv);
            let sym = match it.0 {
                Some(k) => copy_chars(&callers[k]),
                None => copy_chars(&tsym),
            };
            assert(sym@ == node_sym(rows, symbol_text(*t), itv));
            let es = incoming_exec(callers, callees, &sym, Ghost(rows));
            let ghost sta: Search = (sym_views(vis@), visit_views(next@), found_views(found@));
            let mut b: usize = 0;
            assert(es@.take(0) =~= Seq::<usize>::empty());
            while b < es.len()
                invariant
                    n == rows.len(),
                    callers@.len() == rows.len(),
                    tsym@ == symbol_text(*t),
                    forall|k: int| 0 <= k < rows.len() ==> (#[trigger] callers@[k])@ == symbol_text(rows[k].0),
                    b <= es@.len(),
                    es@ == incoming(rows, node_sym(rows, symbol_text(*t), itv)),
                    within(es@, n as int),
                    visit_view(*it) == itv,
                    itv.2 == level,
                    within(itv.1, n as int),
                    level <= vis0,
                    vis0 <= vis@.len(),
                    next@.len() == vis@.len() - vis0,
                    visit_edges(rows, symbol_text(*t), itv, es@.take(b as int), sta) == (sym_views(vis@), visit_views(next@), found_views(found@)),
                    fresh_callers(rows, sym_views(vis@)),
                    frontier_ok(visit_views(next@), n as int, (level + 1) as nat),
                    found_ok(found_views(found@), n as int),
                decreases es@.len() - b,
            {
                proof {
                    assert(es@.take(b + 1).drop_last() =~= es@.take(b as int));
                    assert(es@.take(b + 1).last() == es@[b as int]);
                }
                let e = es[b];
                let c = &callers[e];
                assert(c@ == caller_sym(rows, e));
                if !seq_eq(c, &tsym) && !contains_sym(&vis, c) {
                    let ghost old_vis = sym_views(vis@);
                    let ghost old_next = visit_views(next@);
                    let ghost old_found = found_views(found@);
                    vis.push(copy_chars(c));
                    let _ = vis.len();
                    let d = it.2 + 1;
                    let mut path: Vec<usize> = Vec::new();
                    path.push(e);
                    let mut q: usize = 0;
                    while q < it.1.len()
                        invariant
                            q <= it.1@.len(),
                            path@ == seq![e] + it.1@.take(q as int),
                        decreases it.1@.len() - q,
                    {
                        path.push(it.1[q]);
                        assert(it.1@.take(q + 1) =~= it.1@.take(q as int).push(it.1@[q as int]));
                        q += 1;
                    }
                    assert(it.1@.take(it.1@.len() as int) =~= it.1@);
                    next.push((Some(e), copy_indices(&path), d));
                    found.push((e, d, path));
                    proof {
                        assert(sym_views(vis@) =~= old_vis.push(caller_sym(rows, e)));
                        assert(visit_views(next@) =~= old_next.push((Some(e), seq![e] + itv.1, itv.2 + 1)));
                        assert(found_views(found@) =~= old_found.push((e, itv.2 + 1, seq![e] + itv.1)));
                        assert(callers_of(rows)[e as int] == caller_sym(rows, e));
                        assert forall|k: int| 0 <= k < sym_views(vis@).len() implies callers_of(rows).contains(
                            #[trigger] sym_views(vis@)[k],
                        ) by {
                            if k < old_vis.len() {
                                assert(sym_views(vis@)[k] == old_vis[k]);
                            }
                        }
                        assert(within(seq![e] + itv.1, n as int)) by {
                            assert forall|k: int| 0 <= k < (seq![e] + itv.1).len() implies #[trigger] (seq![e] + itv.1)[k] < n by {
                                if k > 0 {
                                    assert((seq![e] + itv.1)[k] == itv.1[k - 1]);
                                }
                            }
                        }
                        assert forall|k: int| 0 <= k < visit_views(next@).len() implies (match (#[trigger] visit_views(next@)[k]).0 {
                            Some(x) => x < n,
                            None => true,
                        }) && within(visit_views(next@)[k].1, n as int) && visit_views(next@)[k].2 == (level + 1) as nat by {
                            if k < old_next.len() {
                                assert(visit_views(next@)[k] == old_next[k]);
                            }
                        }
                        assert forall|k: int| 0 <= k < found_views(found@).len() implies (#[trigger] found_views(found@)[k]).0 < n
                            && within(found_views(found@)[k].2, n as int) by {
                            if k < old_found.len() {
                                assert(found_views(found@)[k] == old_found[k]);
                            }
                        }
                    }
                } else {
                    proof {
                        assert(caller_sym(rows, e) == symbol_text(*t) || sym_views(vis@).contains(caller_sym(rows, e)));
                    }
                }
                b += 1;
            }
            assert(es@.take(es@.len() as int) =~= es@);
            a += 1;
        }
        assert(fr.take(fr.len() as int) =~= fr);
        proof {
            assert(fr.len() > 0);
            assert((n + 1 - level) as nat > 0);
            if next@.len() > 0 {
                assert(level + 1 <= vis@.len());
            }
        }
        frontier = next;
        proof {
            level = level + 1;
        }
    }
    found
}

// ---------------------------------------------------------------------------
// The query
// ---------------------------------------------------------------------------
/// The functions that the query names (by symbol or name), in program order, each symbol
/// once.
pub open spec fn impact_targets(fs: Seq<Function>, text: Seq<char>, n: int) -> Seq<Function>
    decreases n,
{
    if n <= 0 || n > fs.len() {
        seq![]
    } else {
        let r = impact_targets(fs, text, n - 1);
        let f = fs[n - 1];
        if queried(f, text) && !r.map_values(|g: Function| symbol_text(g)).contains(symbol_text(f)) {
            r.push(f)
        } else {
            r
        }
    }
}

/// A dependent found, with the position of its target.
pub type Entry = (usize, Found);

/// The dependents of the first `n` targets, target by target.
pub open spec fn entries_of(rows: Seq<EdgeRow>, ts: Seq<Function>, n: int) -> Seq<Entry>
    decreases n,
{
    if n <= 0 || n > ts.len() {
        seq![]
    } else {
        entries_of(rows, ts, n - 1) + impact_of(rows, symbol_text(ts[n - 1])).map_values(
            |x: Found| ((n - 1) as usize, x),
        )
    }
}

/// The order of dependents: by depth, then the dependent's symbol, then the target's.
pub open spec fn entry_less(rows: Seq<EdgeRow>, ts: Seq<Function>, a: Entry, b: Entry) -> bool {
    ||| a.1.1 < b.1.1
    ||| (a.1.1 == b.1.1 && seq_less(caller_sym(rows, a.1.0), caller_sym(rows, b.1.0)))
    ||| (a.1.1 == b.1.1 && caller_sym(rows, a.1.0) == caller_sym(rows, b.1.0) && seq_less(
        symbol_text(ts[a.0 as int]),
        symbol_text(ts[b.0 as int]),
    ))
}

/// The first position from `i` on whose entry sorts after `x`, or the length.
pub open spec fn first_entry_after(rows: Seq<EdgeRow>, ts: Seq<Function>, s: Seq<Entry>, x: Entry, i: int) -> int
    decreases s.len() - i,
{
    if i < 0 || i >= s.len() {
        s.len() as int
    } else if entry_less(rows, ts, x, s[i]) {
        i
    } else {
        first_entry_after(rows, ts, s, x, i + 1)
    }
}

/// The entries in order, equal ones keeping their order.
pub open spec fn sorted_entries(rows: Seq<EdgeRow>, ts: Seq<Function>, s: Seq<Entry>) -> Seq<Entry>
    decreases s.len(),
{
    if s.len() == 0 {
        s
    } else {
        let r = sorted_entries(rows, ts, s.drop_last());
        r.insert(first_entry_after(rows, ts, r, s.last(), 0), s.last())
    }
}

/// A dependent as reported: its function, the target it reaches, its depth, its path
/// from itself to the target, and the sites of its call.
pub open spec fn impact_is(d: ImpactDependent, rows: Seq<EdgeRow>, ts: Seq<Function>, x: Entry) -> bool {
    &&& same_function(d.function, rows[x.1.0 as int].0)
    &&& same_function(d.target, ts[x.0 as int])
    &&& d.depth == x.1.1
    &&& same_functions(d.path@, x.1.2.map_values(|k: usize| rows[k as int].0).push(ts[x.0 as int]))
    &&& site_texts(d.call_sites@) == rows[x.1.0 as int].2
}

pub open spec fn impacts_are(res: Seq<ImpactDependent>, rows: Seq<EdgeRow>, ts: Seq<Function>, xs: Seq<Entry>) -> bool {
    res.len() == xs.len() && forall|k: int| 0 <= k < res.len() ==> impact_is(#[trigger] res[k], rows, ts, xs[k])
}

/// The transitive dependents of the queried functions, for the call edges of `fs`
/// resolved with intrinsics `ins`.
pub open spec fn impact_report(fs: Seq<Function>, ins: Seq<Function>, text: Seq<char>) -> Seq<Entry> {
    let rows = call_rows(fs, ins);
    let ts = impact_targets(fs, text, fs.len() as int);
    sorted_entries(rows, ts, entries_of(rows, ts, ts.len() as int))
}

type ExecEntry = (usize, usize, usize, Vec<usize>);

pub open spec fn entry_view(x: ExecEntry) -> Entry {
    (x.0, (x.1, x.2 as nat, x.3@))
}

pub open spec fn entry_views(v: Seq<ExecEntry>) -> Seq<Entry> {
    v.map_values(|x: ExecEntry| entry_view(x))
}

fn entry_less_exec(
    callers: &Vec<Vec<char>>,
    tsyms: &Vec<Vec<char>>,
    a: &ExecEntry,
    b: &ExecEntry,
    Ghost(rows): Ghost<Seq<EdgeRow>>,
    Ghost(ts): Ghost<Seq<Function>>,
) -> (res: bool)
    requires
        callers@.len() == rows.len(),
        forall|k: int| 0 <= k < rows.len() ==> (#[trigger] callers@[k])@ == symbol_text(rows[k].0),
        tsyms@.len() == ts.len(),
        forall|k: int| 0 <= k < ts.len() ==> (#[trigger] tsyms@[k])@ == symbol_text(ts[k]),
        a.1 < rows.len(),
        b.1 < rows.len(),
        a.0 < ts.len(),
        b.0 < ts.len(),
    ensures
        res == entry_less(rows, ts, entry_view(*a), entry_view(*b)),
{
    if a.2 < b.2 {
        return true;
    }
    if a.2 != b.2 {
        return false;
    }
    if text_less(&callers[a.1], &callers[b.1]) {
        return true;
    }
    if !seq_eq(&callers[a.1], &callers[b.1]) {
        return false;
    }
    text_less(&tsyms[a.0], &tsyms[b.0])
}

/// Entries lie among the rows and targets.
pub open spec fn entries_ok(v: Seq<Entry>, n: int, m: int) -> bool {
    forall|k: int| 0 <= k < v.len() ==> (#[trigger] v[k]).0 < m && v[k].1.0 < n && within(v[k].1.2, n)
}

fn sort_entries(
    v: Vec<ExecEntry>,
    callers: &Vec<Vec<char>>,
    tsyms: &Vec<Vec<char>>,
    Ghost(rows): Ghost<Seq<EdgeRow>>,
    Ghost(ts): Ghost<Seq<Function>>,
) -> (res: Vec<ExecEntry>)
    requires
        callers@.len() == rows.len(),
        forall|k: int| 0 <= k < rows.len() ==> (#[trigger] callers@[k])@ == symbol_text(rows[k].0),
        tsyms@.len() == ts.len(),
        forall|k: int| 0 <= k < ts.len() ==> (#[trigger] tsyms@[k])@ == symbol_text(ts[k]),
        entries_ok(entry_views(v@), rows.len() as int, ts.len() as int),
    ensures
        entry_views(res@) == sorted_entries(rows, ts, entry_views(v@)),
        entries_ok(entry_views(res@), rows.len() as int, ts.len() as int),
{
    let ghost sv = entry_views(v@);
    let mut out: Vec<ExecEntry> = Vec::new();
    let mut i: usize = 0;
    assert(sv.take(0) =~= Seq::<Entry>::empty());
    while i < v.len()
        invariant
            i <= v@.len(),
            sv == entry_views(v@),
            entries_ok(sv, rows.len() as int, ts.len() as int),
            callers@.len() == rows.len(),
            forall|k: int| 0 <= k < rows.len() ==> (#[trigger] callers@[k])@ == symbol_text(rows[k].0),
            tsyms@.len() == ts.len(),
            forall|k: int| 0 <= k < ts.len() ==> (#[trigger] tsyms@[k])@ == symbol_text(ts[k]),
            entry_views(out@) == sorted_entries(rows, ts, sv.take(i as int)),
            entries_ok(entry_views(out@), rows.len() as int, ts.len() as int),
        decreases v@.len() - i,
    {
        let ghost r = entry_views(out@);
        let x = (v[i].0, v[i].1, v[i].2, copy_indices(&v[i].3));
        assert(entry_view(x) == sv[i as int]);
        let mut p: usize = 0;
        assert(first_entry_after(rows, ts, r, entry_view(x), 0) == first_entry_after(rows, ts, r, entry_view(x), p as int));
        while p < out.len()
            invariant
                p <= out@.len(),
                r == entry_views(out@),
                entries_ok(r, rows.len() as int, ts.len() as int),
                entry_view(x) == sv[i as int],
                x.1 < rows.len(),
                x.0 < ts.len(),
                callers@.len() == rows.len(),
                forall|k: int| 0 <= k < rows.len() ==> (#[trigger] callers@[k])@ == symbol_text(rows[k].0),
                tsyms@.len() == ts.len(),
                forall|k: int| 0 <= k < ts.len() ==> (#[trigger] tsyms@[k])@ == symbol_text(ts[k]),
                first_entry_after(rows, ts, r, entry_view(x), 0) == first_entry_after(rows, ts, r, entry_view(x), p as int),
            ensures
                p == first_entry_after(rows, ts, r, entry_view(x), 0),
            decreases out@.len() - p,
        {
            assert(entry_view(out@[p as int]) == r[p as int]);
            if entry_less_exec(callers, tsyms, &x, &out[p], Ghost(rows), Ghost(ts)) {
                break;
            }
            p += 1;
        }
        out.insert(p, x);
        proof {
            assert(sv.take(i + 1).drop_last() =~= sv.take(i as int));
            assert(sv.take(i + 1).last() == sv[i as int]);
            assert(entry_views(out@) =~= r.insert(p as int, entry_view(x)));
            let o = entry_views(out@);
            assert forall|k: int| 0 <= k < o.len() implies (#[trigger] o[k]).0 < ts.len() && o[k].1.0 < rows.len()
                && within(o[k].1.2, rows.len() as int) by {
                if k < p {
                    assert(o[k] == r[k]);
                } else if k > p {
                    assert(o[k] == r[k - 1]);
                }
            }
        }
        i += 1;
    }
    assert(sv.take(v@.len() as int) =~= sv);
    out
}

/// Every function that transitively calls the queried function (named by symbol or
/// name), breadth first: each with the target it reaches, its least depth, the path
/// through which it was first reached, and the sites of its call; sorted by depth, then
/// dependent symbol, then target symbol.
pub fn query_impact(program: &Program, text: &str) -> (res: Vec<ImpactDependent>)
    ensures
        exists|ins: Seq<Function>|
            is_intrinsic_list(ins) && impacts_are(
                res@,
                call_rows(program.functions@, ins),
                impact_targets(program.functions@, text@, program.functions@.len() as int),
                #[trigger] impact_report(program.functions@, ins, text@),
            ),
{
    let intrinsics = intrinsic_functions();
    let ghost fs = program.functions@;
    let ghost ins = intrinsics@;
    let rows_v = all_call_rows(program, &intrinsics);
    let ghost rows = call_rows(fs, ins);
    let mut callers: Vec<Vec<char>> = Vec::new();
    let mut callees: Vec<Vec<char>> = Vec::new();
    let mut k: usize = 0;
    while k < rows_v.len()
        invariant
            k <= rows_v@.len(),
            rows_are(rows_v@, rows),
            callers@.len() == k,
            callees@.len() == k,
            forall|j: int| 0 <= j < k ==> (#[trigger] callers@[j])@ == symbol_text(rows[j].0),
            forall|j: int| 0 <= j < k ==> (#[trigger] callees@[j])@ == symbol_text(rows[j].1),
        decreases rows_v@.len() - k,
    {
        assert(callee_is(rows_v@[k as int], rows[k as int]));
        callers.push(chars_of(rows_v[k].function.symbol().as_str()));
        callees.push(chars_of(rows_v[k].target.symbol().as_str()));
        k += 1;
    }
    // The targets, each symbol once.
    let fsv = &program.functions;
    let mut targets: Vec<Function> = Vec::new();
    let mut tsyms: Vec<Vec<char>> = Vec::new();
    let mut i: usize = 0;
    assert(fs.take(0) =~= Seq::<Function>::empty());
    while i < fsv.len()
        invariant
            i <= fs.len(),
            fs == fsv@,
            same_functions(targets@, impact_targets(fs, text@, i as int)),
            tsyms@.len() == targets@.len(),
            forall|j: int| 0 <= j < tsyms@.len() ==> (#[trigger] tsyms@[j])@ == symbol_text(targets@[j]),
        decreases fs.len() - i,
    {
        let f = &fsv[i];
        let sym = f.symbol();
        let sc = chars_of(sym.as_str());
        let ghost r = impact_targets(fs, text@, i as int);
        proof {
            assert(fs[i as int] == *f);
            assert(sym_views(tsyms@) =~= r.map_values(|g: Function| symbol_text(g))) by {
                assert forall|j: int| 0 <= j < r.len() implies #[trigger] sym_views(tsyms@)[j]
                    == r.map_values(|g: Function| symbol_text(g))[j] by {
                    assert(same_function(targets@[j], r[j]));
                }
            }
        }
        if (str_eq(sym.as_str(), text) || str_eq(f.name.as_str(), text)) && !contains_sym(&tsyms, &sc) {
            targets.push(f.copy());
            tsyms.push(sc);
        }
        i += 1;
    }
    let ghost ts = impact_targets(fs, text@, fs.len() as int);
    assert(fs.take(fs.len() as int) =~= fs);
    // The dependents of each target.
    let mut entries: Vec<ExecEntry> = Vec::new();
    let mut j: usize = 0;
    assert(entry_views(entries@) =~= entries_of(rows, ts, 0));
    while j < targets.len()
        invariant
            j <= targets@.len(),
            same_functions(targets@, ts),
            tsyms@.len() == targets@.len(),
            forall|q: int| 0 <= q < tsyms@.len() ==> (#[trigger] tsyms@[q])@ == symbol_text(targets@[q]),
            callers@.len() == rows.len(),
            callees@.len() == rows.len(),
            forall|q: int| 0 <= q < rows.len() ==> (#[trigger] callers@[q])@ == symbol_text(rows[q].0),
            forall|q: int| 0 <= q < rows.len() ==> (#[trigger] callees@[q])@ == symbol_text(rows[q].1),
            entry_views(entries@) == entries_of(rows, ts, j as int),
            entries_ok(entry_views(entries@), rows.len() as int, ts.len() as int),
        decreases targets@.len() - j,
    {
        let found = search_target(&callers, &callees, &targets[j], Ghost(rows));
        let ghost fv = found_views(found@);
        assert(same_function(targets@[j as int], ts[j as int]));
        assert(symbol_text(targets@[j as int]) == symbol_text(ts[j as int]));
        let ghost base = entry_views(entries@);
        let mut q: usize = 0;
        while q < found.len()
            invariant
                q <= found@.len(),
                j < ts.len(),
                fv == found_views(found@),
                found_ok(fv, rows.len() as int),
                entry_views(entries@) == base + fv.take(q as int).map_values(|x: Found| (j, x)),
                entries_ok(entry_views(entries@), rows.len() as int, ts.len() as int),
            decreases found@.len() - q,
        {
            let ghost before = entry_views(entries@);
            let x = (j, found[q].0, found[q].1, copy_indices(&found[q].2));
            entries.push(x);
            proof {
                assert(fv[q as int] == found_view(found@[q as int]));
                assert(fv.take(q + 1).map_values(|x: Found| (j, x)) =~= fv.take(q as int).map_values(|x: Found| (j, x)).push((j, fv[q as int])));
                assert(entry_views(entries@) =~= before.push(entry_view(x)));
                let o = entry_views(entries@);
                assert forall|k: int| 0 <= k < o.len() implies (#[trigger] o[k]).0 < ts.len() && o[k].1.0 < rows.len()
                    && within(o[k].1.2, rows.len() as int) by {
                    if k < before.len() {
                        assert(o[k] == before[k]);
                    }
                }
            }
            q += 1;
        }
        assert(fv.take(found@.len() as int) =~= fv);
        j += 1;
    }
    assert(entries_of(rows, ts, ts.len() as int) == entry_views(entries@));
    let sorted = sort_entries(entries, &callers, &tsyms, Ghost(rows), Ghost(ts));
    // The reported dependents.
    let mut out: Vec<ImpactDependent> = Vec::new();
    let mut k: usize = 0;
    while k < sorted.len()
        invariant
            k <= sorted@.len(),
            entries_ok(entry_views(sorted@), rows.len() as int, ts.len() as int),
            rows_are(rows_v@, rows),
            same_functions(targets@, ts),
            out@.len() == k,
            forall|q: int| 0 <= q < k ==> impact_is(#[trigger] out@[q], rows, ts, entry_views(sorted@)[q]),
        decreases sorted@.len() - k,
    {
        let x = &sorted[k];
        let ghost xv = entry_views(sorted@)[k as int];
        assert(entry_view(*x) == xv);
        let row = &rows_v[x.1];
        assert(callee_is(*row, rows[x.1 as int]));
        let t = targets[x.0].copy();
        let mut path: Vec<Function> = Vec::new();
        let mut q: usize = 0;
        while q < x.3.len()
            invariant
                q <= x.3@.len(),
                within(x.3@, rows.len() as int),
                rows_are(rows_v@, rows),
                path@.len() == q,
                forall|z: int| 0 <= z < q ==> same_function(#[trigger] path@[z], rows[x.3@[z] as int].0),
            decreases x.3@.len() - q,
        {
            let e = x.3[q];
            assert(callee_is(rows_v@[e as int], rows[e as int]));
            path.push(rows_v[e].function.copy());
            q += 1;
        }
        path.push(t.copy());
        proof {
            let want = xv.1.2.map_values(|z: usize| rows[z as int].0).push(ts[xv.0 as int]);
            assert(same_function(targets@[xv.0 as int], ts[xv.0 as int]));
            assert forall|z: int| 0 <= z < path@.len() implies same_function(#[trigger] path@[z], want[z]) by {
                if z < x.3@.len() {
                } else {
                }
            }
        }
        let sites = crate::ledger::copy_sites(&row.call_sites);
        let d = ImpactDependent {
            function: row.function.copy(),
            target: t,
            depth: x.2,
            path,
            call_sites: sites,
        };
        out.push(d);
        proof {
            assert(impact_is(out@[k as int], rows, ts, xv));
        }
        k += 1;
    }
    assert(impacts_are(out@, rows, ts, impact_report(fs, ins, text@)));
    out
}

// ---------------------------------------------------------------------------
// What the search guarantees
// ---------------------------------------------------------------------------
/// `p` is a chain of call rows that ends at the function with symbol `tsym`: each row's
/// callee is the caller of the next, and the last row's callee is that function.
pub open spec fn call_path(rows: Seq<EdgeRow>, tsym: Seq<char>, p: Seq<usize>) -> bool {
    &&& within(p, rows.len() as int)
    &&& forall|i: int| 0 <= i < p.len() - 1 ==> symbol_text(rows[p[i] as int].1) == caller_sym(rows, #[trigger] p[i + 1])
    &&& p.len() > 0 ==> symbol_text(rows[p.last() as int].1) == tsym
}

/// A node of the search is reached through a call path as long as its depth.
pub open spec fn visit_ok(rows: Seq<EdgeRow>, tsym: Seq<char>, v: Visit) -> bool {
    &&& call_path(rows, tsym, v.1)
    &&& v.1.len() == v.2
    &&& match v.0 {
        Some(e) => v.1.len() > 0 && v.1[0] == e,
        None => v.1.len() == 0,
    }
}

/// A dependent found is reached through a call path as long as its depth, which starts
/// with its own call.
pub open spec fn found_path(rows: Seq<EdgeRow>, tsym: Seq<char>, f: Found) -> bool {
    &&& call_path(rows, tsym, f.2)
    &&& f.2.len() == f.1
    &&& f.2.len() > 0
    &&& f.2[0] == f.0
}

/// The callers of the dependents found, in order.
pub open spec fn found_callers(rows: Seq<EdgeRow>, f: Seq<Found>) -> Seq<Seq<char>> {
    f.map_values(|x: Found| caller_sym(rows, x.0))
}

/// What holds of every search state.
pub open spec fn search_ok(rows: Seq<EdgeRow>, tsym: Seq<char>, st: Search) -> bool {
    &&& forall|k: int| 0 <= k < st.1.len() ==> visit_ok(rows, tsym, #[trigger] st.1[k])
    &&& forall|k: int| 0 <= k < st.2.len() ==> found_path(rows, tsym, #[trigger] st.2[k])
    &&& found_callers(rows, st.2) == st.0
    &&& st.0.no_duplicates()
    &&& !st.0.contains(tsym)
}

proof fn lemma_incoming_callee(rows: Seq<EdgeRow>, sym: Seq<char>, n: int)
    requires
        0 <= n <= rows.len(),
        rows.len() <= usize::MAX,
    ensures
        forall|k: int|
            0 <= k < incoming_from(rows, sym, n).len() ==> (#[trigger] incoming_from(rows, sym, n)[k]) < n
                && symbol_text(rows[incoming_from(rows, sym, n)[k] as int].1) == sym,
    decreases n,
{
    if n > 0 {
        lemma_incoming_callee(rows, sym, n - 1);
        let r = incoming_from(rows, sym, n - 1);
        if symbol_text(rows[n - 1].1) == sym {
            let p = first_later(rows, r, (n - 1) as usize, 0);
            lemma_first_later(rows, r, (n - 1) as usize, 0);
            let s = r.insert(p, (n - 1) as usize);
            assert forall|k: int| 0 <= k < s.len() implies #[trigger] s[k] < n && symbol_text(rows[s[k] as int].1) == sym by {
                if k < p {
                    assert(s[k] == r[k]);
                } else if k > p {
                    assert(s[k] == r[k - 1]);
                }
            }
        }
    }
}

proof fn lemma_step_ok(rows: Seq<EdgeRow>, tsym: Seq<char>, it: Visit, st: Search, e: usize)
    requires
        search_ok(rows, tsym, st),
        visit_ok(rows, tsym, it),
        e < rows.len(),
        symbol_text(rows[e as int].1) == node_sym(rows, tsym, it),
    ensures
        search_ok(rows, tsym, visit_step(rows, tsym, it, st, e)),
{
    let c = caller_sym(rows, e);
    if !(c == tsym || st.0.contains(c)) {
        let path = seq![e] + it.1;
        let nv: Visit = (Some(e), path, it.2 + 1);
        let nf: Found = (e, it.2 + 1, path);
        assert(call_path(rows, tsym, path)) by {
            assert forall|i: int| 0 <= i < path.len() implies #[trigger] path[i] < rows.len() by {
                if i > 0 {
                    assert(path[i] == it.1[i - 1]);
                }
            }
            assert forall|i: int| 0 <= i < path.len() - 1 implies symbol_text(rows[path[i] as int].1) == caller_sym(
                rows,
                #[trigger] path[i + 1],
            ) by {
                if i == 0 {
                    assert(path[1] == it.1[0]);
                    match it.0 {
                        Some(k) => {
                            assert(it.1[0] == k);
                        },
                        None => {},
                    }
                } else {
                    assert(path[i] == it.1[i - 1]);
                    assert(path[i + 1] == it.1[i]);
                    assert(symbol_text(rows[it.1[i - 1] as int].1) == caller_sym(rows, it.1[(i - 1) + 1]));
                }
            }
            if it.1.len() == 0 {
                assert(it.0 is None);
                assert(path.last() == e);
            } else {
                assert(path.last() == it.1.last());
            }
        }
        let st2 = visit_step(rows, tsym, it, st, e);
        assert(st2 == (st.0.push(c), st.1.push(nv), st.2.push(nf)));
        assert forall|k: int| 0 <= k < st2.1.len() implies visit_ok(rows, tsym, #[trigger] st2.1[k]) by {
            if k < st.1.len() {
                assert(st2.1[k] == st.1[k]);
            }
        }
        assert forall|k: int| 0 <= k < st2.2.len() implies found_path(rows, tsym, #[trigger] st2.2[k]) by {
            if k < st.2.len() {
                assert(st2.2[k] == st.2[k]);
            }
        }
        assert(found_callers(rows, st2.2) =~= st.0.push(c));
        assert(st2.0.no_duplicates()) by {
            assert forall|i: int, j: int| 0 <= i < st2.0.len() && 0 <= j < st2.0.len() && i != j implies st2.0[i] != st2.0[j] by {
                if i < st.0.len() && j < st.0.len() {
                } else if i == st.0.len() {
                    assert(st2.0[i] == c);
                    assert(st2.0[j] == st.0[j]);
                } else {
                    assert(st2.0[j] == c);
                    assert(st2.0[i] == st.0[i]);
                }
            }
        }
        assert(!st2.0.contains(tsym)) by {
            if st2.0.contains(tsym) {
                let j = choose|j: int| 0 <= j < st2.0.len() && st2.0[j] == tsym;
                if j < st.0.len() {
                    assert(st.0[j] == tsym);
                }
            }
        }
    }
}

proof fn lemma_edges_ok(rows: Seq<EdgeRow>, tsym: Seq<char>, it: Visit, es: Seq<usize>, st: Search)
    requires
        search_ok(rows, tsym, st),
        visit_ok(rows, tsym, it),
        forall|k: int| 0 <= k < es.len() ==> (#[trigger] es[k]) < rows.len() && symbol_text(rows[es[k] as int].1)
            == node_sym(rows, tsym, it),
    ensures
        search_ok(rows, tsym, visit_edges(rows, tsym, it, es, st)),
    decreases es.len(),
{
    if es.len() > 0 {
        lemma_edges_ok(rows, tsym, it, es.drop_last(), st);
        assert(es.last() == es[es.len() - 1]);
        lemma_step_ok(rows, tsym, it, visit_edges(rows, tsym, it, es.drop_last(), st), es.last());
    }
}

proof fn lemma_level_ok(rows: Seq<EdgeRow>, tsym: Seq<char>, fr: Seq<Visit>, st: Search)
    requires
        rows.len() <= usize::MAX,
        search_ok(rows, tsym, st),
        forall|k: int| 0 <= k < fr.len() ==> visit_ok(rows, tsym, #[trigger] fr[k]),
    ensures
        search_ok(rows, tsym, visit_level(rows, tsym, fr, st)),
    decreases fr.len(),
{
    if fr.len() > 0 {
        lemma_level_ok(rows, tsym, fr.drop_last(), st);
        let it = fr.last();
        assert(it == fr[fr.len() - 1]);
        let es = incoming(rows, node_sym(rows, tsym, it));
        lemma_incoming_callee(rows, node_sym(rows, tsym, it), rows.len() as int);
        lemma_edges_ok(rows, tsym, it, es, visit_level(rows, tsym, fr.drop_last(), st));
    }
}

proof fn lemma_search_ok(rows: Seq<EdgeRow>, tsym: Seq<char>, fr: Seq<Visit>, vis: Seq<Seq<char>>, found: Seq<Found>, k: nat)
    requires
        rows.len() <= usize::MAX,
        search_ok(rows, tsym, (vis, fr, found)),
    ensures
        forall|j: int| 0 <= j < search(rows, tsym, fr, vis, found, k).len() ==> found_path(
            rows,
            tsym,
            #[trigger] search(rows, tsym, fr, vis, found, k)[j],
        ),
        found_callers(rows, search(rows, tsym, fr, vis, found, k)).no_duplicates(),
        !found_callers(rows, search(rows, tsym, fr, vis, found, k)).contains(tsym),
    decreases k,
{
    if !(k == 0 || fr.len() == 0) {
        let st0: Search = (vis, seq![], found);
        let full: Search = (vis, fr, found);
        assert(search_ok(rows, tsym, full));
        assert forall|j: int| 0 <= j < fr.len() implies visit_ok(rows, tsym, #[trigger] fr[j]) by {
            assert(full.1[j] == fr[j]);
        }
        assert(search_ok(rows, tsym, st0));
        lemma_level_ok(rows, tsym, fr, st0);
        let st = visit_level(rows, tsym, fr, st0);
        lemma_search_ok(rows, tsym, st.1, st.0, st.2, (k - 1) as nat);
    }
}

/// Impact paths are call paths: every dependent reported for a target is reached through
/// a chain of calls that starts with its own call, ends at the target, and is as long as
/// its depth; and each dependent is reported once, never the target itself. (The rows
/// are the call edges of a program in memory, so their positions fit in `usize`.)
pub proof fn law_impact_paths(rows: Seq<EdgeRow>, tsym: Seq<char>)
    requires
        rows.len() <= usize::MAX,
    ensures
        forall|j: int| 0 <= j < impact_of(rows, tsym).len() ==> found_path(rows, tsym, #[trigger] impact_of(rows, tsym)[j]),
        found_callers(rows, impact_of(rows, tsym)).no_duplicates(),
        !found_callers(rows, impact_of(rows, tsym)).contains(tsym),
{
    let fr: Seq<Visit> = seq![(None, seq![], 0)];
    let vis: Seq<Seq<char>> = seq![];
    let found: Seq<Found> = seq![];
    assert(call_path(rows, tsym, fr[0].1));
    assert(found_callers(rows, found) =~= vis);
    assert(search_ok(rows, tsym, (vis, fr, found)));
    lemma_search_ok(rows, tsym, fr, vis, found, (rows.len() + 1) as nat);
}

} // verus!
