//! Call sites that pin a function's symbol version, and the version edit that they
//! guard.
use vstd::prelude::*;
use vstd::string::*;

use crate::calls::{fn_calls, resolved_calls, CallSpec, ResolvedCall, calls_are, call_is};
use crate::checks::first_symbol;
use crate::diagnostic::{add_command, push_arg, strs, Diagnostic};
use crate::eval::reference_parts;
use crate::model::{join2, same_function, symbol_text, target_text, Function, Program};
use crate::patch::{data_texts, prose, quote, reports_rejection, Decision};
use crate::text::{chars_of, join_spec, seq_less, string_of, text_less, seq_eq, owned, str_eq};

verus! {

/// A call that names a version of the target: (caller symbol, context, reference,
/// expression).
pub type PinnedSite = (Seq<char>, Seq<char>, Seq<char>, Seq<char>);

/// The calls among `calls`, made by `caller`, that name a version and resolve to the
/// function with symbol `tsym`, in order.
pub open spec fn pinned_in(calls: Seq<CallSpec>, caller: Seq<char>, tsym: Seq<char>) -> Seq<PinnedSite>
    decreases calls.len(),
{
    if calls.len() == 0 {
        seq![]
    } else {
        let rest = pinned_in(calls.drop_last(), caller, tsym);
        let c = calls.last();
        if reference_parts(c.2).2 is Some && symbol_text(c.3) == tsym {
            rest.push((caller, c.0, c.2, c.1))
        } else {
            rest
        }
    }
}

/// The version-pinned calls of the function with symbol `tsym` made by `callers`, caller
/// by caller, resolved against the functions `fs` and the intrinsics `ins`.
pub open spec fn pinned_sites(
    fs: Seq<Function>,
    ins: Seq<Function>,
    callers: Seq<Function>,
    tsym: Seq<char>,
) -> Seq<PinnedSite>
    decreases callers.len(),
{
    if callers.len() == 0 {
        seq![]
    } else {
        pinned_sites(fs, ins, callers.drop_last(), tsym) + pinned_in(
            fn_calls(fs, ins, callers.last()),
            symbol_text(callers.last()),
            tsym,
        )
    }
}

/// The order of sites: by caller, then context, then reference, then expression.
pub open spec fn site_less(a: PinnedSite, b: PinnedSite) -> bool {
    ||| seq_less(a.0, b.0)
    ||| (a.0 == b.0 && seq_less(a.1, b.1))
    ||| (a.0 == b.0 && a.1 == b.1 && seq_less(a.2, b.2))
    ||| (a.0 == b.0 && a.1 == b.1 && a.2 == b.2 && seq_less(a.3, b.3))
}

/// The first position from `i` on whose site sorts after `x`, or the length.
pub open spec fn first_after(s: Seq<PinnedSite>, x: PinnedSite, i: int) -> int
    decreases s.len() - i,
{
    if i < 0 || i >= s.len() {
        s.len() as int
    } else if site_less(x, s[i]) {
        i
    } else {
        first_after(s, x, i + 1)
    }
}

/// The sites in order, equal sites keeping their order.
pub open spec fn sorted_sites(s: Seq<PinnedSite>) -> Seq<PinnedSite>
    decreases s.len(),
{
    if s.len() == 0 {
        s
    } else {
        let r = sorted_sites(s.drop_last());
        r.insert(first_after(r, s.last(), 0), s.last())
    }
}

/// `caller context `reference` in `expression``
pub open spec fn site_label(s: PinnedSite) -> Seq<char> {
    s.0 + " "@ + s.1 + " `"@ + s.2 + "` in `"@ + s.3 + "`"@
}

/// The labels of the version-pinned calls of `target`, in order, joined by `; `.
pub open spec fn pinned_labels(p: Program, ins: Seq<Function>, target: Function) -> Seq<PinnedSite> {
    sorted_sites(pinned_sites(p.functions@, ins, p.functions@, symbol_text(target)))
}

pub open spec fn labels_text(s: Seq<PinnedSite>) -> Seq<char> {
    join_spec(s.map_values(|x: PinnedSite| site_label(x)), "; "@)
}

pub open spec fn site_view(t: (Vec<char>, Vec<char>, Vec<char>, Vec<char>)) -> PinnedSite {
    (t.0@, t.1@, t.2@, t.3@)
}

pub open spec fn site_views(v: Seq<(Vec<char>, Vec<char>, Vec<char>, Vec<char>)>) -> Seq<PinnedSite> {
    v.map_values(|t: (Vec<char>, Vec<char>, Vec<char>, Vec<char>)| site_view(t))
}

fn site_less_exec(
    a: &(Vec<char>, Vec<char>, Vec<char>, Vec<char>),
    b: &(Vec<char>, Vec<char>, Vec<char>, Vec<char>),
) -> (res: bool)
    ensures
        res == site_less(site_view(*a), site_view(*b)),
{
    if text_less(&a.0, &b.0) {
        return true;
    }
    if !seq_eq(&a.0, &b.0) {
        return false;
    }
    if text_less(&a.1, &b.1) {
        return true;
    }
    if !seq_eq(&a.1, &b.1) {
        return false;
    }
    if text_less(&a.2, &b.2) {
        return true;
    }
    if !seq_eq(&a.2, &b.2) {
        return false;
    }
    text_less(&a.3, &b.3)
}

fn copy_chars(v: &Vec<char>) -> (res: Vec<char>)
    ensures
        res@ == v@,
{
    let mut out: Vec<char> = Vec::new();
    let mut i: usize = 0;
    while i < v.len()
        invariant
            i <= v@.len(),
            out@ == v@.take(i as int),
        decreases v@.len() - i,
    {
        out.push(v[i]);
        assert(v@.take(i + 1) =~= v@.take(i as int).push(v@[i as int]));
        i += 1;
    }
    assert(v@.take(v@.len() as int) =~= v@);
    out
}

/// Sorts the sites by inserting each after the ones that do not sort after it.
fn sort_sites(v: Vec<(Vec<char>, Vec<char>, Vec<char>, Vec<char>)>) -> (res: Vec<
    (Vec<char>, Vec<char>, Vec<char>, Vec<char>),
>)
    ensures
        site_views(res@) == sorted_sites(site_views(v@)),
{
    let ghost sv = site_views(v@);
    let mut out: Vec<(Vec<char>, Vec<char>, Vec<char>, Vec<char>)> = Vec::new();
    let mut i: usize = 0;
    assert(sv.take(0) =~= Seq::<PinnedSite>::empty());
    while i < v.len()
        invariant
            i <= v@.len(),
            sv == site_views(v@),
            site_views(out@) == sorted_sites(sv.take(i as int)),
        decreases v@.len() - i,
    {
        let ghost r = site_views(out@);
        let x = (copy_chars(&v[i].0), copy_chars(&v[i].1), copy_chars(&v[i].2), copy_chars(&v[i].3));
        assert(site_view(x) == sv[i as int]);
        let mut p: usize = 0;
        assert(first_after(r, site_view(x), 0) == first_after(r, site_view(x), p as int));
        while p < out.len()
            invariant
                p <= out@.len(),
                r == site_views(out@),
                first_after(r, site_view(x), 0) == first_after(r, site_view(x), p as int),
            ensures
                p == first_after(r, site_view(x), 0),
            decreases out@.len() - p,
        {
            if site_less_exec(&x, &out[p]) {
                break;
            }
            p += 1;
        }
        out.insert(p, x);
        proof {
            assert(sv.take(i + 1).drop_last() =~= sv.take(i as int));
            assert(sv.take(i + 1).last() == sv[i as int]);
            assert(site_views(out@) =~= r.insert(p as int, site_view(x)));
        }
        i += 1;
    }
    assert(sv.take(v@.len() as int) =~= sv);
    out
}

fn site_of(caller: &Vec<char>, c: &ResolvedCall) -> (res: (Vec<char>, Vec<char>, Vec<char>, Vec<char>))
    ensures
        site_view(res) == (caller@, c.context@, c.reference.raw@, c.expression@),
{
    (copy_chars(caller), chars_of(c.context.as_str()), chars_of(c.reference.raw.as_str()), chars_of(c.expression.as_str()))
}

/// The version-pinned calls of `target` in the program, sorted.
pub fn pinned_call_sites(program: &Program, intrinsics: &[Function], target: &Function) -> (res: Vec<
    (Vec<char>, Vec<char>, Vec<char>, Vec<char>),
>)
    ensures
        site_views(res@) == pinned_labels(*program, intrinsics@, *target),
{
    let fs = &program.functions;
    let tsym = target.symbol();
    let tchars = chars_of(tsym.as_str());
    let mut all: Vec<(Vec<char>, Vec<char>, Vec<char>, Vec<char>)> = Vec::new();
    let mut i: usize = 0;
    assert(fs@.take(0) =~= Seq::<Function>::empty());
    while i < fs.len()
        invariant
            i <= fs@.len(),
            *fs == program.functions,
            tchars@ == symbol_text(*target),
            site_views(all@) == pinned_sites(fs@, intrinsics@, fs@.take(i as int), symbol_text(*target)),
        decreases fs@.len() - i,
    {
        let caller = &fs[i];
        let csym = chars_of(caller.symbol().as_str());
        let calls = resolved_calls(caller, fs.as_slice(), intrinsics);
        let ghost cs = fn_calls(fs@, intrinsics@, *caller);
        let ghost base = site_views(all@);
        let mut k: usize = 0;
        assert(cs.take(0) =~= Seq::<CallSpec>::empty());
        assert(base + pinned_in(cs.take(0), csym@, symbol_text(*target)) =~= base);
        while k < calls.len()
            invariant
                k <= calls@.len(),
                calls_are(calls@, cs),
                csym@ == symbol_text(*caller),
                tchars@ == symbol_text(*target),
                site_views(all@) == base + pinned_in(cs.take(k as int), csym@, symbol_text(*target)),
            decreases calls@.len() - k,
        {
            let c = &calls[k];
            assert(call_is(calls@[k as int], cs[k as int]));
            proof {
                assert(cs.take(k + 1).drop_last() =~= cs.take(k as int));
                assert(cs.take(k + 1).last() == cs[k as int]);
            }
            let cal = chars_of(c.callee.symbol().as_str());
            if c.reference.version.is_some() && seq_eq(&cal, &tchars) {
                let ghost before = site_views(all@);
                all.push(site_of(&csym, c));
                assert(site_views(all@) =~= before.push(site_view(all@.last())));
            }
            k += 1;
        }
        proof {
            assert(cs.take(calls@.len() as int) =~= cs);
            assert(fs@.take(i + 1).drop_last() =~= fs@.take(i as int));
            assert(fs@.take(i + 1).last() == fs@[i as int]);
        }
        i += 1;
    }
    assert(fs@.take(fs@.len() as int) =~= fs@);
    sort_sites(all)
}

/// The labels of sites, joined by `; `.
pub fn site_labels(v: &Vec<(Vec<char>, Vec<char>, Vec<char>, Vec<char>)>) -> (res: String)
    ensures
        res@ == labels_text(site_views(v@)),
{
    let mut parts: Vec<String> = Vec::new();
    let mut i: usize = 0;
    while i < v.len()
        invariant
            i <= v@.len(),
            parts@.len() == i,
            forall|j: int| 0 <= j < i ==> #[trigger] parts@[j]@ == site_label(site_view(v@[j])),
        decreases v@.len() - i,
    {
        let mut s = string_of(&v[i].0);
        s.append(" ");
        s.append(string_of(&v[i].1).as_str());
        s.append(" `");
        s.append(string_of(&v[i].2).as_str());
        s.append("` in `");
        s.append(string_of(&v[i].3).as_str());
        s.append("`");
        parts.push(s);
        i += 1;
    }
    let res = crate::text::join_strings(&parts, "; ");
    assert(parts@.map_values(|p: String| p@) =~= site_views(v@).map_values(|x: PinnedSite| site_label(x)));
    res
}

// ---------------------------------------------------------------------------
// The version edit
// ---------------------------------------------------------------------------
/// `@module.name.version` of `f` with version `v`.
pub open spec fn versioned_symbol(f: Function, v: Seq<char>) -> Seq<char> {
    seq!['@'] + join2(join2(f.module@, '.', f.name@), '.', v)
}

/// What moving `f` of program `p` to version `v` decides, with calls resolved against the
/// intrinsics `ins`: a conflict when another function already has the new symbol; a
/// refusal while calls pin the current version; nothing when the version is already
/// explicitly `v`; the new version otherwise.
pub open spec fn version_decision(p: Program, f: Function, v: Seq<char>, ins: Seq<Function>, path: Seq<char>) -> Decision {
    let s = versioned_symbol(f, v);
    let i = first_symbol(p.functions@, s, 0);
    let sites = pinned_labels(p, ins, f);
    if s != symbol_text(f) && i < p.functions@.len() {
        let c = p.functions@[i];
        Decision::Reject(
            "PatchConflict"@,
            quote("Public symbol `"@, s, "` already exists."@),
            seq![("symbol"@, s)],
            target_text(c.source_path@, c.line as nat, c.name@),
            prose("Choose a different version or update the existing symbol manually."@),
        )
    } else if f.version@ != v && sites.len() > 0 {
        Decision::Reject(
            "VersionPinnedDependent"@,
            "Function `"@ + f.name@ + "` cannot move from `"@ + f.version@ + "` to `"@ + v
                + "` while call sites pin the current symbol version."@,
            seq![
                ("current_symbol"@, symbol_text(f)),
                ("requested_symbol"@, s),
                ("pinned_call_sites"@, labels_text(sites)),
            ],
            target_text(f.source_path@, f.line as nat, f.name@),
            add_command(
                prose("Update version-pinned call sites manually or keep the existing public version."@),
                "Inspect dependents before changing the public version"@,
                seq!["bin/serow"@, "query"@, "dependents"@, symbol_text(f), path],
            ),
        )
    } else if f.version@ == v && f.version_explicit {
        Decision::Keep
    } else {
        Decision::Update
    }
}

/// `g` is `f` at the explicit version `v`.
pub open spec fn version_applied(f: Function, g: Function, v: Seq<char>) -> bool {
    same_function(g, Function { version: g.version, version_explicit: true, ..f }) && g.version@ == v
}

/// The index of the first function with symbol `sym`, or the length.
pub fn find_symbol(fs: &Vec<Function>, sym: &String) -> (res: usize)
    ensures
        res == first_symbol(fs@, sym@, 0),
{
    let mut i: usize = 0;
    while i < fs.len()
        invariant
            i <= fs@.len(),
            first_symbol(fs@, sym@, i as int) == first_symbol(fs@, sym@, 0),
        decreases fs@.len() - i,
    {
        let s = fs[i].symbol();
        if str_eq(s.as_str(), sym.as_str()) {
            return i;
        }
        i += 1;
    }
    i
}

/// Moves `f` to version `v`, unless another function has that symbol or calls pin its
/// current version.
pub fn apply_version_edit(
    v: &String,
    ins: &Vec<Function>,
    path: &String,
    program: &Program,
    f: &mut Function,
) -> (res: Result<
    bool,
    Diagnostic,
>)
    ensures
        match version_decision(*program, *old(f), v@, ins@, path@) {
            Decision::Keep => res == Ok::<bool, Diagnostic>(false),
            Decision::Update => res == Ok::<bool, Diagnostic>(true) && version_applied(*old(f), *final(f), v@),
            r => res is Err && reports_rejection(res->Err_0, r),
        },
{
    let mut s = owned("@");
    s.append(f.module.as_str());
    s.append(".");
    s.append(f.name.as_str());
    s.append(".");
    s.append(v.as_str());
    proof {
        reveal_strlit("@");
        reveal_strlit(".");
        assert(s@ =~= versioned_symbol(*f, v@));
    }
    let fsym = f.symbol();
    if !str_eq(s.as_str(), fsym.as_str()) {
        let i = find_symbol(&program.functions, &s);
        if i < program.functions.len() {
            let c = &program.functions[i];
            let mut m = owned("Public symbol `");
            m.append(s.as_str());
            m.append("` already exists.");
            let d = Diagnostic::error("PatchConflict", m.as_str(), Some(c.target()))
                .with_data("symbol", s.as_str())
                .with_repair("Choose a different version or update the existing symbol manually.");
            assert(data_texts(d) =~= seq![("symbol"@, versioned_symbol(*f, v@))]);
            return Err(d);
        }
    }
    if !str_eq(f.version.as_str(), v.as_str()) {
        let sites = pinned_call_sites(program, ins.as_slice(), f);
        if sites.len() > 0 {
            let labels = site_labels(&sites);
            let mut m = owned("Function `");
            m.append(f.name.as_str());
            m.append("` cannot move from `");
            m.append(f.version.as_str());
            m.append("` to `");
            m.append(v.as_str());
            m.append("` while call sites pin the current symbol version.");
            let mut command: Vec<String> = Vec::new();
            push_arg(&mut command, owned("bin/serow"));
            push_arg(&mut command, owned("query"));
            push_arg(&mut command, owned("dependents"));
            push_arg(&mut command, f.symbol());
            push_arg(&mut command, path.clone());
            assert(strs(command@) =~= seq!["bin/serow"@, "query"@, "dependents"@, symbol_text(*f), path@]);
            let d = Diagnostic::error("VersionPinnedDependent", m.as_str(), Some(f.target()))
                .with_data("current_symbol", fsym.as_str())
                .with_data("requested_symbol", s.as_str())
                .with_data("pinned_call_sites", labels.as_str())
                .with_repair("Update version-pinned call sites manually or keep the existing public version.")
                .with_command_repair("Inspect dependents before changing the public version", command);
            assert(data_texts(d) =~= seq![
                ("current_symbol"@, symbol_text(*f)),
                ("requested_symbol"@, versioned_symbol(*f, v@)),
                ("pinned_call_sites"@, labels_text(pinned_labels(*program, ins@, *f))),
            ]);
            return Err(d);
        }
    }
    if str_eq(f.version.as_str(), v.as_str()) && f.version_explicit {
        return Ok(false);
    }
    f.version = v.clone();
    f.version_explicit = true;
    Ok(true)
}

} // verus!
