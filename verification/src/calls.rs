//! The expressions of a function and the calls they make.
use vstd::prelude::*;
use vstd::string::*;

use crate::eval::{
    call_names, called_functions, lemma_resolution, parsed_reference, resolution, resolve_in,
    CallReference,
};
use crate::model::{same_function, Function};
use crate::patch::{block_ranges, property_block_ranges, texts};
use crate::text::{owned, trim, trim_str};

verus! {

/// The expression lines of the property blocks: the trimmed line after each header.
pub open spec fn property_exprs(lines: Seq<Seq<char>>) -> Seq<Seq<char>> {
    block_ranges(lines, 0).map_values(|r: (int, int)| trim(lines[r.1]))
}

/// Each text paired with a context word.
pub open spec fn tagged(tag: Seq<char>, xs: Seq<Seq<char>>) -> Seq<(Seq<char>, Seq<char>)> {
    xs.map_values(|x: Seq<char>| (tag, x))
}

/// The views of (context, expression) pairs.
pub open spec fn pair_texts(v: Seq<(String, String)>) -> Seq<(Seq<char>, Seq<char>)> {
    v.map_values(|p: (String, String)| (p.0@, p.1@))
}

/// Every expression of a function with its context: the implementation, the
/// preconditions, the contract clauses, the examples and the property expressions.
pub open spec fn fn_exprs(f: Function) -> Seq<(Seq<char>, Seq<char>)> {
    (match f.implementation {
        Some(i) => seq![("impl"@, i@)],
        None => seq![],
    }) + tagged("requires"@, texts(f.requires@)) + tagged("contract"@, texts(f.contracts@))
        + tagged("example"@, texts(f.examples@)) + tagged(
        "property"@,
        property_exprs(texts(f.properties@)),
    )
}

fn push_tagged(out: &mut Vec<(String, String)>, tag: &str, lines: &Vec<String>)
    ensures
        pair_texts(final(out)@) == pair_texts(old(out)@) + tagged(tag@, texts(lines@)),
{
    let ghost start = pair_texts(out@);
    let mut i: usize = 0;
    while i < lines.len()
        invariant
            i <= lines@.len(),
            pair_texts(out@) == start + tagged(tag@, texts(lines@)).take(i as int),
        decreases lines@.len() - i,
    {
        let ghost before = pair_texts(out@);
        out.push((owned(tag), lines[i].clone()));
        assert(tagged(tag@, texts(lines@)).take(i + 1) =~= tagged(tag@, texts(lines@)).take(i as int).push(
            (tag@, lines@[i as int]@),
        ));
        assert(pair_texts(out@) =~= before.push((tag@, lines@[i as int]@)));
        i += 1;
    }
    assert(tagged(tag@, texts(lines@)).take(lines@.len() as int) =~= tagged(tag@, texts(lines@)));
}

/// Every expression of a function with its context.
pub fn function_expressions(f: &Function) -> (res: Vec<(String, String)>)
    ensures
        pair_texts(res@) == fn_exprs(*f),
{
    let mut out: Vec<(String, String)> = Vec::new();
    match &f.implementation {
        Some(i) => {
            out.push((owned("impl"), i.clone()));
        },
        None => {},
    }
    let ghost head = pair_texts(out@);
    assert(head =~= (match f.implementation {
        Some(i) => seq![("impl"@, i@)],
        None => Seq::<(Seq<char>, Seq<char>)>::empty(),
    }));
    push_tagged(&mut out, "requires", &f.requires);
    push_tagged(&mut out, "contract", &f.contracts);
    push_tagged(&mut out, "example", &f.examples);
    let ranges = property_block_ranges(&f.properties);
    let ghost ls = texts(f.properties@);
    let ghost mid = pair_texts(out@);
    let mut k: usize = 0;
    while k < ranges.len()
        invariant
            k <= ranges@.len(),
            ls == texts(f.properties@),
            ranges@.len() == block_ranges(ls, 0).len(),
            forall|j: int|
                0 <= j < ranges@.len() ==> (#[trigger] ranges@[j]).0 as int == block_ranges(ls, 0)[j].0
                    && ranges@[j].1 as int == block_ranges(ls, 0)[j].1 && ranges@[j].1 < f.properties@.len(),
            pair_texts(out@) == mid + tagged("property"@, property_exprs(ls)).take(k as int),
        decreases ranges@.len() - k,
    {
        let (_h, b) = ranges[k];
        let e = trim_str(f.properties[b].as_str());
        let ghost before = pair_texts(out@);
        out.push((owned("property"), e));
        proof {
            assert(ls[b as int] == f.properties@[b as int]@);
            assert(property_exprs(ls)[k as int] == trim(ls[b as int]));
            assert(tagged("property"@, property_exprs(ls)).take(k + 1) =~= tagged("property"@, property_exprs(ls)).take(
                k as int,
            ).push(("property"@, trim(ls[b as int]))));
            assert(pair_texts(out@) =~= before.push(("property"@, trim(ls[b as int]))));
        }
        k += 1;
    }
    assert(tagged("property"@, property_exprs(ls)).take(ranges@.len() as int) =~= tagged(
        "property"@,
        property_exprs(ls),
    ));
    proof {
        reveal_strlit("impl");
    }
    assert(pair_texts(out@) =~= fn_exprs(*f));
    out
}

// ---------------------------------------------------------------------------
// Resolved calls
// ---------------------------------------------------------------------------
/// The calls among `names` that resolve, with their callees, in order.
pub open spec fn site_calls(fs: Seq<Function>, ins: Seq<Function>, names: Seq<Seq<char>>) -> Seq<
    (Seq<char>, Function),
>
    decreases names.len(),
{
    if names.len() == 0 {
        seq![]
    } else {
        let rest = site_calls(fs, ins, names.drop_last());
        match resolution(fs, ins, names.last()) {
            Some(c) => rest.push((names.last(), c)),
            None => rest,
        }
    }
}

/// The resolved calls of one expression; none when it does not tokenize.
pub open spec fn expr_calls(fs: Seq<Function>, ins: Seq<Function>, expr: Seq<char>) -> Seq<
    (Seq<char>, Function),
> {
    match call_names(expr) {
        Ok(names) => site_calls(fs, ins, names),
        Err(_) => seq![],
    }
}

/// A resolved call: its context, its expression, the reference text and the callee.
pub type CallSpec = (Seq<char>, Seq<char>, Seq<char>, Function);

/// The resolved calls of a list of (context, expression) pairs, in order.
pub open spec fn exprs_calls(fs: Seq<Function>, ins: Seq<Function>, es: Seq<(Seq<char>, Seq<char>)>) -> Seq<
    CallSpec,
>
    decreases es.len(),
{
    if es.len() == 0 {
        seq![]
    } else {
        let (ctx, expr) = es.last();
        exprs_calls(fs, ins, es.drop_last()) + expr_calls(fs, ins, expr).map_values(
            |nc: (Seq<char>, Function)| (ctx, expr, nc.0, nc.1),
        )
    }
}

/// The resolved calls that a function's expressions make, in order.
pub open spec fn fn_calls(fs: Seq<Function>, ins: Seq<Function>, f: Function) -> Seq<CallSpec> {
    exprs_calls(fs, ins, fn_exprs(f))
}

pub struct ResolvedCall {
    pub context: String,
    pub expression: String,
    pub reference: CallReference,
    pub callee: Function,
}

/// A resolved call as the program holds it.
pub open spec fn call_is(c: ResolvedCall, s: CallSpec) -> bool {
    &&& c.context@ == s.0
    &&& c.expression@ == s.1
    &&& c.reference.raw@ == s.2
    &&& parsed_reference(c.reference, s.2)
    &&& same_function(c.callee, s.3)
}

pub open spec fn calls_are(v: Seq<ResolvedCall>, s: Seq<CallSpec>) -> bool {
    &&& v.len() == s.len()
    &&& forall|k: int| 0 <= k < v.len() ==> call_is(#[trigger] v[k], s[k])
}

/// Appends the resolved calls of one expression.
fn push_expr_calls(
    out: &mut Vec<ResolvedCall>,
    context: &String,
    expression: &String,
    functions: &[Function],
    intrinsics: &[Function],
)
    ensures
        final(out)@.len() == old(out)@.len() + expr_calls(functions@, intrinsics@, expression@).len(),
        final(out)@.take(old(out)@.len() as int) == old(out)@,
        forall|k: int|
            0 <= k < expr_calls(functions@, intrinsics@, expression@).len() ==> call_is(
                #[trigger] final(out)@[old(out)@.len() + k],
                (
                    context@,
                    expression@,
                    expr_calls(functions@, intrinsics@, expression@)[k].0,
                    expr_calls(functions@, intrinsics@, expression@)[k].1,
                ),
            ),
{
    let ghost start = out@;
    let calls = match called_functions(expression.as_str()) {
        Ok(calls) => calls,
        Err(_) => {
            assert(out@.take(start.len() as int) =~= start);
            return;
        },
    };
    let ghost names = call_names(expression@)->Ok_0;
    let mut i: usize = 0;
    assert(names.take(0) =~= Seq::<Seq<char>>::empty());
    while i < calls.len()
        invariant
            i <= calls@.len(),
            calls@.len() == names.len(),
            call_names(expression@) == Ok::<Seq<Seq<char>>, Seq<char>>(names),
            forall|j: int| 0 <= j < calls@.len() ==> #[trigger] calls@[j].raw@ == names[j],
            forall|j: int| 0 <= j < calls@.len() ==> parsed_reference(#[trigger] calls@[j], calls@[j].raw@),
            out@.len() == start.len() + site_calls(functions@, intrinsics@, names.take(i as int)).len(),
            out@.take(start.len() as int) == start,
            forall|k: int|
                0 <= k < site_calls(functions@, intrinsics@, names.take(i as int)).len() ==> call_is(
                    #[trigger] out@[start.len() + k],
                    (
                        context@,
                        expression@,
                        site_calls(functions@, intrinsics@, names.take(i as int))[k].0,
                        site_calls(functions@, intrinsics@, names.take(i as int))[k].1,
                    ),
                ),
        decreases calls@.len() - i,
    {
        proof {
            assert(names.take(i + 1).drop_last() =~= names.take(i as int));
            assert(names.take(i + 1).last() == names[i as int]);
        }
        let r = resolve_in(calls[i].raw.as_str(), functions, intrinsics);
        proof {
            lemma_resolution(r, calls@[i as int].raw@, functions@, intrinsics@);
        }
        match r {
            Ok(callee) => {
                let ghost before = out@;
                out.push(ResolvedCall {
                    context: context.clone(),
                    expression: expression.clone(),
                    reference: calls[i].clone_reference(),
                    callee,
                });
                proof {
                    assert(out@.take(start.len() as int) =~= before.take(start.len() as int));
                    let sc = site_calls(functions@, intrinsics@, names.take(i + 1));
                    assert forall|k: int| 0 <= k < sc.len() implies call_is(
                        #[trigger] out@[start.len() + k],
                        (context@, expression@, sc[k].0, sc[k].1),
                    ) by {
                        if k < sc.len() - 1 {
                            assert(out@[start.len() + k] == before[start.len() + k]);
                        }
                    }
                }
            },
            Err(_) => {},
        }
        i += 1;
    }
    assert(names.take(calls@.len() as int) =~= names);
}


/// The resolved calls of a function's expressions, in order.
pub fn resolved_calls(f: &Function, functions: &[Function], intrinsics: &[Function]) -> (res: Vec<
    ResolvedCall,
>)
    ensures
        calls_are(res@, fn_calls(functions@, intrinsics@, *f)),
{
    let es = function_expressions(f);
    let ghost ev = pair_texts(es@);
    let mut out: Vec<ResolvedCall> = Vec::new();
    let mut i: usize = 0;
    assert(ev.take(0) =~= Seq::<(Seq<char>, Seq<char>)>::empty());
    while i < es.len()
        invariant
            i <= es@.len(),
            ev == pair_texts(es@),
            ev == fn_exprs(*f),
            calls_are(out@, exprs_calls(functions@, intrinsics@, ev.take(i as int))),
        decreases es@.len() - i,
    {
        let ghost before = out@;
        let ghost prev = exprs_calls(functions@, intrinsics@, ev.take(i as int));
        push_expr_calls(&mut out, &es[i].0, &es[i].1, functions, intrinsics);
        proof {
            assert(ev.take(i + 1).drop_last() =~= ev.take(i as int));
            assert(ev.take(i + 1).last() == ev[i as int]);
            assert(ev[i as int] == (es@[i as int].0@, es@[i as int].1@));
            let ec = expr_calls(functions@, intrinsics@, es@[i as int].1@);
            let now = exprs_calls(functions@, intrinsics@, ev.take(i + 1));
            assert(now == prev + ec.map_values(
                |nc: (Seq<char>, Function)| (es@[i as int].0@, es@[i as int].1@, nc.0, nc.1),
            ));
            assert forall|k: int| 0 <= k < out@.len() implies call_is(#[trigger] out@[k], now[k]) by {
                if k < before.len() {
                    assert(out@[k] == out@.take(before.len() as int)[k]);
                } else {
                    let j = k - before.len();
                    assert(out@[before.len() + j] == out@[k]);
                    assert(now[k] == (es@[i as int].0@, es@[i as int].1@, ec[j].0, ec[j].1));
                }
            }
        }
        i += 1;
    }
    assert(ev.take(es@.len() as int) =~= ev);
    out
}

} // verus!
