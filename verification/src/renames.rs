//! Renaming a module or a function of a parsed Serow source, with every call that
//! resolves to what was renamed rewritten to name it by its new name.
use vstd::prelude::*;
use vstd::string::*;

use crate::eval::{reference_parts, resolution, resolve_in, CallReference};
use crate::intrinsics::{intrinsic_functions, is_intrinsic_list};
use crate::model::{same_function, symbol_text, Function};
use crate::patch::{is_header, texts};
use crate::qualify::{called_at, header_exec, ident_end, ident_end_exec, lemma_lit_end, lemma_ref_run, literal_end, literal_end_exec, push_range};
use crate::text::{chars_of, owned, skip_ws, starts_with, str_eq, string_of};

verus! {

/// What is renamed: module `old` to `new`, or function `target` to `new`.
pub enum RenameSpec {
    Module(Seq<char>, Seq<char>),
    Function(Function, Seq<char>),
}

/// The number of functions among the first `n`, other than the one with symbol `sym`,
/// called `name` (and in module `module`, when one is given).
pub open spec fn others_named(fs: Seq<Function>, sym: Seq<char>, name: Seq<char>, module: Option<Seq<char>>, n: int) -> nat
    decreases n,
{
    if n <= 0 || n > fs.len() {
        0
    } else {
        let f = fs[n - 1];
        let hit = symbol_text(f) != sym && f.name@ == name && (module matches Some(m) ==> f.module@ == m);
        others_named(fs, sym, name, module, n - 1) + if hit { 1nat } else { 0nat }
    }
}

/// How a reference to the renamed function is written after the rename: the full new
/// symbol for `@` references, the same qualification when it stays unambiguous, and the
/// full new symbol otherwise.
pub open spec fn renamed_reference(fs: Seq<Function>, t: Seq<char>, target: Function, new: Seq<char>) -> Seq<char> {
    let exact = "@"@ + target.module@ + "."@ + new + "."@ + target.version@;
    let (m, _, v) = reference_parts(t);
    let sym = symbol_text(target);
    if starts_with(t, "@"@) {
        exact
    } else {
        match (m, v) {
            (Some(md), Some(ver)) => md + "."@ + new + "."@ + ver,
            (Some(md), None) => if others_named(fs, sym, new, Some(md), fs.len() as int) == 0 {
                md + "."@ + new
            } else {
                exact
            },
            (None, Some(_)) => exact,
            (None, None) => if others_named(fs, sym, new, None, fs.len() as int) == 0 {
                new
            } else {
                exact
            },
        }
    }
}

/// The text that replaces call reference `t`, if the rename touches it: `fs` and `ins`
/// are the functions and intrinsics before the rename.
pub open spec fn replacement(fs: Seq<Function>, ins: Seq<Function>, r: RenameSpec, t: Seq<char>) -> Option<Seq<char>> {
    match resolution(fs, ins, t) {
        None => None,
        Some(c) => {
            let (m, _, v) = reference_parts(t);
            match r {
                RenameSpec::Module(old, new) => if c.module@ != old {
                    None
                } else if starts_with(t, "@"@) {
                    Some("@"@ + new + "."@ + c.name@ + "."@ + c.version@)
                } else {
                    match (m, v) {
                        (Some(_), Some(ver)) => Some(new + "."@ + c.name@ + "."@ + ver),
                        (Some(_), None) => Some(new + "."@ + c.name@),
                        _ => None,
                    }
                },
                RenameSpec::Function(target, new) => if symbol_text(c) == symbol_text(target) {
                    Some(renamed_reference(fs, t, target, new))
                } else if m is None && v is None && c.name@ == new && others_named(
                    fs,
                    symbol_text(target),
                    new,
                    None,
                    fs.len() as int,
                ) > 0 {
                    Some(symbol_text(c))
                } else {
                    None
                },
            }
        },
    }
}

/// The text from `i` on with each call reference outside string literals that the rename
/// touches replaced.
pub open spec fn rewrite_from(s: Seq<char>, i: int, fs: Seq<Function>, ins: Seq<Function>, r: RenameSpec) -> Seq<char>
    decreases s.len() - i,
{
    if i < 0 || i >= s.len() {
        seq![]
    } else if s[i] == '"' {
        let e = literal_end(s, i);
        proof {
            lemma_lit_end(s, i + 1, false);
        }
        s.subrange(i, e) + rewrite_from(s, e, fs, ins, r)
    } else {
        match ident_end(s, i) {
            Some(e) => {
                proof {
                    lemma_ref_run(s, i + 1);
                }
                let t = s.subrange(i, e);
                let rest = rewrite_from(s, e, fs, ins, r);
                match replacement(fs, ins, r, t) {
                    Some(x) => if called_at(s, e) {
                        x + rest
                    } else {
                        t + rest
                    },
                    None => t + rest,
                }
            },
            None => seq![s[i]] + rewrite_from(s, i + 1, fs, ins, r),
        }
    }
}

pub open spec fn rewritten(s: Seq<char>, fs: Seq<Function>, ins: Seq<Function>, r: RenameSpec) -> Seq<char> {
    rewrite_from(s, 0, fs, ins, r)
}

/// `g` is `f` with the call references of its implementation, preconditions, contract
/// clauses, examples and property expressions (not the `forall` headers) rewritten.
pub open spec fn rewritten_function(f: Function, g: Function, fs: Seq<Function>, ins: Seq<Function>, r: RenameSpec) -> bool {
    &&& same_function(
        g,
        Function {
            implementation: g.implementation,
            requires: g.requires,
            contracts: g.contracts,
            examples: g.examples,
            properties: g.properties,
            ..f
        },
    )
    &&& match (f.implementation, g.implementation) {
        (Some(a), Some(b)) => b@ == rewritten(a@, fs, ins, r),
        (None, None) => true,
        _ => false,
    }
    &&& texts(g.requires@) == texts(f.requires@).map_values(|l: Seq<char>| rewritten(l, fs, ins, r))
    &&& texts(g.contracts@) == texts(f.contracts@).map_values(|l: Seq<char>| rewritten(l, fs, ins, r))
    &&& texts(g.examples@) == texts(f.examples@).map_values(|l: Seq<char>| rewritten(l, fs, ins, r))
    &&& texts(g.properties@) == texts(f.properties@).map_values(
        |l: Seq<char>| if is_header(l) { l } else { rewritten(l, fs, ins, r) },
    )
}

/// What is renamed, as the code holds it.
pub enum Rename {
    Module(String, String),
    Function(Function, String),
}

pub open spec fn rename_view(r: Rename) -> RenameSpec {
    match r {
        Rename::Module(a, b) => RenameSpec::Module(a@, b@),
        Rename::Function(f, n) => RenameSpec::Function(f, n@),
    }
}

fn count_others(fs: &[Function], sym: &String, name: &String, module: &Option<String>) -> (res: usize)
    ensures
        res == others_named(fs@, sym@, name@, match module {
            Some(m) => Some(m@),
            None => None,
        }, fs@.len() as int),
{
    let ghost mv = match module {
        Some(m) => Some(m@),
        None => None::<Seq<char>>,
    };
    let mut n: usize = 0;
    let mut i: usize = 0;
    while i < fs.len()
        invariant
            i <= fs@.len(),
            n == others_named(fs@, sym@, name@, mv, i as int),
            n <= i,
            mv == match module {
                Some(m) => Some(m@),
                None => None::<Seq<char>>,
            },
        decreases fs@.len() - i,
    {
        let f = &fs[i];
        let fsym = f.symbol();
        let in_module = match module {
            Some(m) => str_eq(f.module.as_str(), m.as_str()),
            None => true,
        };
        assert(in_module == (mv matches Some(m) ==> fs@[i as int].module@ == m));
        if !str_eq(fsym.as_str(), sym.as_str()) && str_eq(f.name.as_str(), name.as_str()) && in_module {
            n = n + 1;
        }
        i += 1;
    }
    n
}

fn join5(a: &str, b: &str, c: &str, d: &str, e: &str) -> (res: String)
    ensures
        res@ == a@ + b@ + c@ + d@ + e@,
{
    let mut s = owned(a);
    s.append(b);
    s.append(c);
    s.append(d);
    s.append(e);
    s
}

fn renamed_reference_exec(fs: &[Function], t: &str, target: &Function, new: &String) -> (res: String)
    ensures
        res@ == renamed_reference(fs@, t@, *target, new@),
{
    proof {
        reveal_strlit("@");
        reveal_strlit(".");
        reveal_strlit("");
        assert("@"@ =~= seq!['@']);
    }
    let exact = join5("@", target.module.as_str(), ".", new.as_str(), ".");
    let mut exact = exact;
    exact.append(target.version.as_str());
    let r = CallReference::parse(t);
    let sym = target.symbol();
    let tc = chars_of(t);
    if tc.len() > 0 && tc[0] == '@' {
        assert(tc@.take(1) =~= "@"@);
        return exact;
    }
    proof {
        if starts_with(t@, "@"@) {
            assert(t@.take(1)[0] == '@');
        }
    }
    assert(!starts_with(t@, "@"@));
    match (&r.module, &r.version) {
        (Some(md), Some(ver)) => {
            let mut out = join5(md.as_str(), ".", new.as_str(), ".", "");
            out.append(ver.as_str());
            assert(out@ =~= md@ + "."@ + new@ + "."@ + ver@);
            out
        },
        (Some(md), None) => {
            let m2 = Some(md.clone());
            if count_others(fs, &sym, new, &m2) == 0 {
                let out = join5(md.as_str(), ".", new.as_str(), "", "");
                assert(out@ =~= md@ + "."@ + new@);
                out
            } else {
                exact
            }
        },
        (None, Some(_)) => exact,
        (None, None) => {
            if count_others(fs, &sym, new, &None) == 0 {
                new.clone()
            } else {
                exact
            }
        },
    }
}

fn replacement_exec(fs: &[Function], ins: &[Function], r: &Rename, t: &str) -> (res: Option<String>)
    ensures
        match (res, replacement(fs@, ins@, rename_view(*r), t@)) {
            (Some(x), Some(y)) => x@ == y,
            (None, None) => true,
            _ => false,
        },
{
    proof {
        reveal_strlit("@");
        reveal_strlit(".");
        reveal_strlit("");
        assert("@"@ =~= seq!['@']);
    }
    let rr = resolve_in(t, fs, ins);
    proof {
        crate::eval::lemma_resolution(rr, t@, fs@, ins@);
    }
    let c = match rr {
        Ok(c) => c,
        Err(_) => {
            return None;
        },
    };
    let reference = CallReference::parse(t);
    let tc = chars_of(t);
    let at = tc.len() > 0 && tc[0] == '@';
    proof {
        if at {
            assert(tc@.take(1) =~= "@"@);
        }
        if starts_with(t@, "@"@) {
            assert(t@.take(1)[0] == '@');
        }
    }
    assert(at == starts_with(t@, "@"@));
    match r {
        Rename::Module(old, new) => {
            if !str_eq(c.module.as_str(), old.as_str()) {
                return None;
            }
            if at {
                let mut out = join5("@", new.as_str(), ".", c.name.as_str(), ".");
                out.append(c.version.as_str());
                return Some(out);
            }
            match (&reference.module, &reference.version) {
                (Some(_), Some(ver)) => {
                    let mut out = join5(new.as_str(), ".", c.name.as_str(), ".", "");
                    out.append(ver.as_str());
                    assert(out@ =~= new@ + "."@ + c.name@ + "."@ + ver@);
                    Some(out)
                },
                (Some(_), None) => {
                    let out = join5(new.as_str(), ".", c.name.as_str(), "", "");
                    assert(out@ =~= new@ + "."@ + c.name@);
                    Some(out)
                },
                _ => None,
            }
        },
        Rename::Function(target, new) => {
            let csym = c.symbol();
            let tsym = target.symbol();
            if str_eq(csym.as_str(), tsym.as_str()) {
                return Some(renamed_reference_exec(fs, t, target, new));
            }
            if reference.module.is_none() && reference.version.is_none() && str_eq(c.name.as_str(), new.as_str())
                && count_others(fs, &tsym, new, &None) > 0 {
                return Some(csym);
            }
            None
        },
    }
}

/// Rewrites the call references of one expression that the rename touches.
pub fn rewrite_expression(expression: &String, fs: &[Function], ins: &[Function], r: &Rename) -> (res: String)
    ensures
        res@ == rewritten(expression@, fs@, ins@, rename_view(*r)),
{
    let s = chars_of(expression.as_str());
    let ghost rv = rename_view(*r);
    let ghost q = rewrite_from(s@, 0, fs@, ins@, rv);
    let mut out: Vec<char> = Vec::new();
    let mut i: usize = 0;
    while i < s.len()
        invariant
            i <= s@.len(),
            rv == rename_view(*r),
            out@ + rewrite_from(s@, i as int, fs@, ins@, rv) == q,
        decreases s@.len() - i,
    {
        if s[i] == '"' {
            let e = literal_end_exec(&s, i);
            push_range(&mut out, &s, i, e);
            assert(out@ + rewrite_from(s@, e as int, fs@, ins@, rv) =~= q);
            i = e;
        } else {
            match ident_end_exec(&s, i) {
                Some(e) => {
                    let t = crate::text::slice_chars(&s, i, e);
                    let after = skip_ws(&s, e);
                    let call = after < s.len() && s[after] == '(';
                    let ts = string_of(&t);
                    let rep = if call {
                        replacement_exec(fs, ins, r, ts.as_str())
                    } else {
                        None
                    };
                    proof {
                        assert(ident_end(s@, i as int) == Some(e as int));
                        assert(call == called_at(s@, e as int));
                    }
                    match rep {
                        Some(x) => {
                            let xc = chars_of(x.as_str());
                            let ghost before = out@;
                            let mut k: usize = 0;
                            while k < xc.len()
                                invariant
                                    k <= xc@.len(),
                                    out@ == before + xc@.take(k as int),
                                decreases xc@.len() - k,
                            {
                                out.push(xc[k]);
                                assert(xc@.take(k + 1) =~= xc@.take(k as int).push(xc@[k as int]));
                                k += 1;
                            }
                            assert(xc@.take(xc@.len() as int) =~= xc@);
                            assert(out@ + rewrite_from(s@, e as int, fs@, ins@, rv) =~= q);
                        },
                        None => {
                            push_range(&mut out, &s, i, e);
                            assert(out@ + rewrite_from(s@, e as int, fs@, ins@, rv) =~= q);
                        },
                    }
                    i = e;
                },
                None => {
                    out.push(s[i]);
                    assert(out@ + rewrite_from(s@, i + 1, fs@, ins@, rv) =~= q);
                    i += 1;
                },
            }
        }
    }
    string_of(&out)
}

fn rewrite_lines(lines: &mut Vec<String>, fs: &[Function], ins: &[Function], r: &Rename, skip_headers: bool)
    ensures
        !skip_headers ==> texts(final(lines)@) == texts(old(lines)@).map_values(
            |l: Seq<char>| rewritten(l, fs@, ins@, rename_view(*r)),
        ),
        skip_headers ==> texts(final(lines)@) == texts(old(lines)@).map_values(
            |l: Seq<char>| if is_header(l) { l } else { rewritten(l, fs@, ins@, rename_view(*r)) },
        ),
{
    let ghost ls = texts(lines@);
    let ghost rv = rename_view(*r);
    let mut i: usize = 0;
    while i < lines.len()
        invariant
            i <= lines@.len(),
            lines@.len() == ls.len(),
            ls == texts(old(lines)@),
            rv == rename_view(*r),
            forall|k: int|
                0 <= k < i ==> #[trigger] lines@[k]@ == if skip_headers && is_header(ls[k]) {
                    ls[k]
                } else {
                    rewritten(ls[k], fs@, ins@, rv)
                },
            forall|k: int| i <= k < lines@.len() ==> #[trigger] lines@[k]@ == ls[k],
        decreases lines@.len() - i,
    {
        let skip = skip_headers && header_exec(&lines[i]);
        if !skip {
            let t = rewrite_expression(&lines[i], fs, ins, r);
            lines.set(i, t);
        }
        i += 1;
    }
    proof {
        if skip_headers {
            assert(texts(lines@) =~= ls.map_values(|l: Seq<char>| if is_header(l) { l } else { rewritten(l, fs@, ins@, rv) }));
        } else {
            assert(texts(lines@) =~= ls.map_values(|l: Seq<char>| rewritten(l, fs@, ins@, rv)));
        }
    }
}

/// Rewrites the call references in every expression of `f`.
pub fn rewrite_function(f: &mut Function, fs: &[Function], ins: &[Function], r: &Rename)
    ensures
        rewritten_function(*old(f), *final(f), fs@, ins@, rename_view(*r)),
{
    let imp = match &f.implementation {
        Some(i) => Some(rewrite_expression(i, fs, ins, r)),
        None => None,
    };
    f.implementation = imp;
    rewrite_lines(&mut f.requires, fs, ins, r, false);
    rewrite_lines(&mut f.contracts, fs, ins, r, false);
    rewrite_lines(&mut f.examples, fs, ins, r, false);
    rewrite_lines(&mut f.properties, fs, ins, r, true);
}

} // verus!
