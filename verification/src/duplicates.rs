//! The near-duplicate intent warning that the check reports for a function against a
//! similar earlier public function or intrinsic.
use vstd::prelude::*;
use vstd::string::*;

use crate::checks::{differences, intent_query, near_candidate, near_warning, target_of};
use crate::diagnostic::Diagnostic;
use crate::intrinsics::{intrinsic_functions, is_intrinsic_list};
use crate::ledger::{exact_intent_key, intent_key};
use crate::model::{symbol_text, Function, Program};
use crate::patch::data_texts;
use crate::text::{owned, seq_eq, chars_of};

verus! {

/// `g` may stand as a near-duplicate candidate of `f`: a public function with an intent
/// whose normalized key differs from that of `f`.
pub open spec fn near_pair(f: Function, g: Function) -> bool {
    g.public && g.intent is Some && f.intent is Some && intent_key(g.intent->0@) != intent_key(
        f.intent->0@,
    )
}

/// Intrinsic `k` is the same in every list that declares the intrinsics, as far as a
/// near-duplicate warning looks at it.
proof fn lemma_intrinsic_fixed(a: Seq<Function>, b: Seq<Function>, k: int)
    requires
        is_intrinsic_list(a),
        is_intrinsic_list(b),
        0 <= k < 5,
    ensures
        a[k].public == b[k].public,
        a[k].intent is Some && b[k].intent is Some,
        a[k].intent->0@ == b[k].intent->0@,
        symbol_text(a[k]) == symbol_text(b[k]),
        target_of(a[k]) == target_of(b[k]),
{
    if k == 0 {
    } else if k == 1 {
    } else if k == 2 {
    } else if k == 3 {
    } else {
    }
}

fn warning_for(f: &Function, g: &Function, score: &str, reasons: &str) -> (d: Diagnostic)
    requires
        near_pair(*f, *g),
    ensures
        near_warning(*f, *g, d),
        data_texts(d)[4].1 == score@,
        data_texts(d)[5].1 == reasons@,
{
    let intent = match &f.intent {
        Some(t) => t,
        None => {
            assert(false);
            return Diagnostic::warning("", "", None);
        },
    };
    let candidate_intent = match &g.intent {
        Some(t) => t,
        None => {
            assert(false);
            return Diagnostic::warning("", "", None);
        },
    };
    let (shared, left_only, right_only) = differences(intent, candidate_intent);
    let mut message = owned("Public function `");
    message.append(f.name.as_str());
    message.append("` has an intent similar to `");
    let gsym = g.symbol();
    message.append(gsym.as_str());
    message.append("`.");
    let mut command: Vec<String> = Vec::new();
    command.push(owned("bin/serow"));
    command.push(owned("query"));
    command.push(owned("intent"));
    command.push(owned(intent.as_str()));
    let gtarget = g.target();
    let d0 = Diagnostic::warning("NearDuplicateIntent", message.as_str(), Some(f.target()));
    let d1 = d0.with_data("candidate", gsym.as_str());
    let d2 = d1.with_data("candidate_target", gtarget.as_str());
    let d3 = d2.with_data("candidate_intent", candidate_intent.as_str());
    let d4 = d3.with_data("intent", intent.as_str());
    let d5 = d4.with_data("score", score);
    let d6 = d5.with_data("reasons", reasons);
    let d7 = d6.with_data("shared_terms", shared.as_str());
    let d8 = d7.with_data("new_only_terms", left_only.as_str());
    let d9 = d8.with_data("candidate_only_terms", right_only.as_str());
    let d10 = d9.with_command_repair("Review existing intent matches", command);
    let d = d10.with_repair("Reuse the closest existing symbol or make the new intent more specific.");
    proof {
        assert(d0.data@.len() == 0);
        let data = data_texts(d);
        assert(d.data@ == d9.data@);
        assert(d9.data@.len() == 9);
        assert(data[0] == ("candidate"@, symbol_text(*g)));
        assert(data[1] == ("candidate_target"@, target_of(*g)));
        assert(data[2] == ("candidate_intent"@, g.intent->0@));
        assert(data[3] == ("intent"@, f.intent->0@));
        assert(data.take(4) =~= seq![
            ("candidate"@, symbol_text(*g)),
            ("candidate_target"@, target_of(*g)),
            ("candidate_intent"@, g.intent->0@),
            ("intent"@, f.intent->0@),
        ]);
        assert(data.skip(6) =~= seq![
            ("shared_terms"@, shared@),
            ("new_only_terms"@, left_only@),
            ("candidate_only_terms"@, right_only@),
        ]);
        assert(command@.map_values(|s: String| s@) =~= intent_query(f.intent->0@));
    }
    d
}

/// The near-duplicate intent warning for function `i` of the program against candidate `j`
/// (the earlier function `j` when `j < i`, else intrinsic `j - i`), with the scorer's score
/// and reasons as data; `None` when that candidate cannot stand against function `i`.
pub fn near_duplicate_warning(program: &Program, i: usize, j: usize, score: &str, reasons: &str) -> (res: Option<Diagnostic>)
    requires
        i < program.functions@.len(),
    ensures
        match res {
            Some(d) => near_candidate(program.functions@, i as int, j as int, d) && data_texts(d)[4].1 == score@
                && data_texts(d)[5].1 == reasons@,
            None => forall|d: Diagnostic| !near_candidate(program.functions@, i as int, j as int, d),
        },
{
    let f = &program.functions[i];
    if j < i {
        let g = &program.functions[j];
        if pair_ok(f, g) {
            let d = warning_for(f, g, score, reasons);
            Some(d)
        } else {
            None
        }
    } else {
        let ins = intrinsic_functions();
        if j - i < ins.len() {
            let k = j - i;
            if pair_ok(f, &ins[k]) {
                let d = warning_for(f, &ins[k], score, reasons);
                proof {
                    assert(is_intrinsic_list(ins@) && (j - i) < ins@.len() && near_warning(
                        program.functions@[i as int],
                        ins@[j - i],
                        d,
                    ));
                }
                Some(d)
            } else {
                proof {
                    assert forall|d: Diagnostic| !near_candidate(program.functions@, i as int, j as int, d) by {
                        assert forall|other: Seq<Function>| is_intrinsic_list(other) && j - i < other.len() implies !near_warning(
                            program.functions@[i as int],
                            #[trigger] other[j - i],
                            d,
                        ) by {
                            lemma_intrinsic_fixed(ins@, other, k as int);
                        }
                    }
                }
                None
            }
        } else {
            None
        }
    }
}

fn pair_ok(f: &Function, g: &Function) -> (res: bool)
    ensures
        res == near_pair(*f, *g),
{
    if !g.public {
        return false;
    }
    match (&f.intent, &g.intent) {
        (Some(a), Some(b)) => {
            let ka = exact_intent_key(a.as_str());
            let kb = exact_intent_key(b.as_str());
            let same = seq_eq(&chars_of(ka.as_str()), &chars_of(kb.as_str()));
            !same
        },
        _ => false,
    }
}

} // verus!
