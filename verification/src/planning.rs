//! Assembling a change plan: the changed symbols in symbol order, the residual risks that
//! the plan still carries, and whether it is clean.
use vstd::prelude::*;
use vstd::string::*;

use crate::checker::CheckSummary;
use crate::diagnostic::{any_error, copy_diagnostics, has_errors, same_diagnostic};
use crate::model::symbol_text;
use crate::patch::texts;
use crate::plan::{
    acknowledges, behavior_acknowledged, executable_evidence_strengthened, has_migration,
    public_behavior_change_acknowledged, strengthened, ChangePlan, ChangedSymbol, RemovedPublicSymbol,
};
use crate::text::{chars_of, is_permutation, owned, sort_order, stably_sorted_by, views};

verus! {

/// Whether changed symbol `s` carries the residual risk of kind `kind` (1 to 10).
pub open spec fn risk(kind: int, s: ChangedSymbol) -> bool {
    let f = s.function;
    let impl_ack = acknowledges(f, "implementation-change"@);
    let covered = s.implementation_evidence is Some && s.implementation_evidence->0.covered;
    if kind == 1 {
        s.impact@.len() > 0 && !acknowledges(f, "impact-review"@)
    } else if kind == 2 {
        s.evidence_weakening@.len() > 0 && !acknowledges(f, "evidence-weakening"@)
    } else if kind == 3 {
        s.behavior_change is Some && !behavior_acknowledged(f, s.behavior_change->0)
    } else if kind == 4 {
        s.capability_change is Some && s.capability_change->0.added@.len() > 0 && !acknowledges(
            f,
            "capability-expansion"@,
        )
    } else if kind == 5 {
        s.implementation_change is Some && !strengthened(s.evidence_delta) && !impl_ack
    } else if kind == 6 {
        s.implementation_change is Some && strengthened(s.evidence_delta) && !covered && !impl_ack
    } else if kind == 7 {
        s.implementation_change is Some && strengthened(s.evidence_delta) && covered
            && !s.implementation_evidence->0.behavior_sensitive && !impl_ack
    } else if kind == 8 {
        s.evidence_drift is Some && !impl_ack
    } else if kind == 9 {
        s.intent_implementation_risks@.len() > 0
    } else {
        s.stale_migrations@.len() > 0
    }
}

/// The text of each kind of residual risk, from 0 (checker errors) to 11 (removed symbols).
pub open spec fn risk_message(kind: int) -> Seq<char> {
    if kind == 0 {
        "Checker errors are present; impact and evidence data may be incomplete."@
    } else if kind == 1 {
        "Changed public symbols have transitive dependents; review the listed impact before certification."@
    } else if kind == 2 {
        "Changed public symbols weaken executable evidence compared with HEAD."@
    } else if kind == 3 {
        "Changed public symbols modify their public contract surface without a new symbol version compared with HEAD."@
    } else if kind == 4 {
        "Changed public symbols expand declared capabilities without acknowledgement."@
    } else if kind == 5 {
        "Changed public symbols modify implementations without adding executable evidence compared with HEAD."@
    } else if kind == 6 {
        "Changed public symbols add executable evidence that does not call the changed function."@
    } else if kind == 7 {
        "Changed public symbols add executable evidence that also passes against the HEAD implementation."@
    } else if kind == 8 {
        "Changed public symbols modify implementations and executable evidence in the same patch without acknowledgement."@
    } else if kind == 9 {
        "Changed public symbols have advisory intent/implementation mismatch risks."@
    } else if kind == 10 {
        "Changed public symbols have stale migration acknowledgements."@
    } else {
        "Changed files remove public symbols without a same-name replacement version."@
    }
}

/// Whether the plan raises the risk of kind `kind`.
pub open spec fn raised(kind: int, syms: Seq<ChangedSymbol>, removed: Seq<RemovedPublicSymbol>, errors: bool) -> bool {
    if kind == 0 {
        errors
    } else if kind <= 10 {
        exists|k: int| 0 <= k < syms.len() && risk(kind, #[trigger] syms[k])
    } else {
        exists|k: int| 0 <= k < removed.len() && (#[trigger] removed[k]).replacement_candidates@.len() == 0
    }
}

/// The messages of the raised risks among the first `m` kinds, in kind order.
pub open spec fn residual_risks(syms: Seq<ChangedSymbol>, removed: Seq<RemovedPublicSymbol>, errors: bool, m: int) -> Seq<Seq<char>>
    decreases m,
{
    if m <= 0 {
        seq![]
    } else if raised(m - 1, syms, removed, errors) {
        residual_risks(syms, removed, errors, m - 1).push(risk_message(m - 1))
    } else {
        residual_risks(syms, removed, errors, m - 1)
    }
}

fn risk_exec(kind: u8, s: &ChangedSymbol) -> (res: bool)
    requires
        1 <= kind <= 10,
    ensures
        res == risk(kind as int, *s),
{
    let f = &s.function;
    let impl_ack = has_migration(f, "implementation-change");
    let covered = match &s.implementation_evidence {
        Some(c) => c.covered,
        None => false,
    };
    if kind == 1 {
        s.impact.len() > 0 && !has_migration(f, "impact-review")
    } else if kind == 2 {
        s.evidence_weakening.len() > 0 && !has_migration(f, "evidence-weakening")
    } else if kind == 3 {
        match &s.behavior_change {
            Some(c) => !public_behavior_change_acknowledged(f, c),
            None => false,
        }
    } else if kind == 4 {
        match &s.capability_change {
            Some(c) => c.added.len() > 0 && !has_migration(f, "capability-expansion"),
            None => false,
        }
    } else if kind == 5 {
        s.implementation_change.is_some() && !executable_evidence_strengthened(&s.evidence_delta) && !impl_ack
    } else if kind == 6 {
        s.implementation_change.is_some() && executable_evidence_strengthened(&s.evidence_delta) && !covered
            && !impl_ack
    } else if kind == 7 {
        let insensitive = match &s.implementation_evidence {
            Some(c) => c.covered && !c.behavior_sensitive,
            None => false,
        };
        s.implementation_change.is_some() && executable_evidence_strengthened(&s.evidence_delta)
            && insensitive && !impl_ack
    } else if kind == 8 {
        s.evidence_drift.is_some() && !impl_ack
    } else if kind == 9 {
        s.intent_implementation_risks.len() > 0
    } else {
        s.stale_migrations.len() > 0
    }
}

fn raised_exec(kind: u8, syms: &Vec<ChangedSymbol>, removed: &Vec<RemovedPublicSymbol>, errors: bool) -> (res: bool)
    requires
        kind <= 11,
    ensures
        res == raised(kind as int, syms@, removed@, errors),
{
    if kind == 0 {
        return errors;
    }
    if kind <= 10 {
        let mut i: usize = 0;
        while i < syms.len()
            invariant
                1 <= kind <= 10,
                i <= syms@.len(),
                forall|k: int| 0 <= k < i ==> !risk(kind as int, #[trigger] syms@[k]),
            decreases syms@.len() - i,
        {
            if risk_exec(kind, &syms[i]) {
                assert(risk(kind as int, syms@[i as int]));
                assert(raised(kind as int, syms@, removed@, errors));
                return true;
            }
            i += 1;
        }
        return false;
    }
    let mut i: usize = 0;
    while i < removed.len()
        invariant
            kind == 11,
            i <= removed@.len(),
            forall|k: int| 0 <= k < i ==> (#[trigger] removed@[k]).replacement_candidates@.len() != 0,
        decreases removed@.len() - i,
    {
        if removed[i].replacement_candidates.len() == 0 {
            assert(removed@[i as int].replacement_candidates@.len() == 0);
            assert(raised(kind as int, syms@, removed@, errors));
            return true;
        }
        i += 1;
    }
    false
}

fn risk_message_exec(kind: u8) -> (res: &'static str)
    ensures
        res@ == risk_message(kind as int),
{
    if kind == 0 {
        "Checker errors are present; impact and evidence data may be incomplete."
    } else if kind == 1 {
        "Changed public symbols have transitive dependents; review the listed impact before certification."
    } else if kind == 2 {
        "Changed public symbols weaken executable evidence compared with HEAD."
    } else if kind == 3 {
        "Changed public symbols modify their public contract surface without a new symbol version compared with HEAD."
    } else if kind == 4 {
        "Changed public symbols expand declared capabilities without acknowledgement."
    } else if kind == 5 {
        "Changed public symbols modify implementations without adding executable evidence compared with HEAD."
    } else if kind == 6 {
        "Changed public symbols add executable evidence that does not call the changed function."
    } else if kind == 7 {
        "Changed public symbols add executable evidence that also passes against the HEAD implementation."
    } else if kind == 8 {
        "Changed public symbols modify implementations and executable evidence in the same patch without acknowledgement."
    } else if kind == 9 {
        "Changed public symbols have advisory intent/implementation mismatch risks."
    } else if kind == 10 {
        "Changed public symbols have stale migration acknowledgements."
    } else {
        "Changed files remove public symbols without a same-name replacement version."
    }
}

/// The changed symbols listed in the order `perm`, which sorts them stably by symbol.
pub open spec fn symbol_sorted(res: Seq<ChangedSymbol>, syms: Seq<ChangedSymbol>, perm: Seq<usize>) -> bool {
    &&& is_permutation(perm, syms.len() as int)
    &&& stably_sorted_by(perm, syms.map_values(|s: ChangedSymbol| symbol_text(s.function)))
    &&& res.len() == syms.len()
    &&& forall|k: int| 0 <= k < res.len() ==> #[trigger] res[k] == syms[perm[k] as int]
}

fn sort_by_symbol(syms: Vec<ChangedSymbol>) -> (res: Vec<ChangedSymbol>)
    ensures
        exists|perm: Seq<usize>| symbol_sorted(res@, syms@, perm),
{
    let ghost orig = syms@;
    let mut keys: Vec<Vec<char>> = Vec::new();
    let mut i: usize = 0;
    while i < syms.len()
        invariant
            i <= syms@.len(),
            keys@.len() == i,
            forall|k: int| 0 <= k < i ==> #[trigger] keys@[k]@ == symbol_text(syms@[k].function),
        decreases syms@.len() - i,
    {
        keys.push(chars_of(syms[i].function.symbol().as_str()));
        i += 1;
    }
    let perm = sort_order(&keys);
    assert(views(keys@) =~= orig.map_values(|s: ChangedSymbol| symbol_text(s.function)));
    let mut slots: Vec<Option<ChangedSymbol>> = Vec::new();
    let mut syms = syms;
    while syms.len() > 0
        invariant
            slots@.len() + syms@.len() == orig.len(),
            forall|k: int| 0 <= k < slots@.len() ==> #[trigger] slots@[k] == Some(orig[k]),
            syms@ == orig.skip(slots@.len() as int),
        decreases syms@.len(),
    {
        let s = syms.remove(0);
        slots.push(Some(s));
        assert(syms@ =~= orig.skip(slots@.len() as int));
    }
    let mut res: Vec<ChangedSymbol> = Vec::new();
    let mut k: usize = 0;
    while k < perm.len()
        invariant
            k <= perm@.len(),
            perm@.len() == orig.len(),
            slots@.len() == orig.len(),
            is_permutation(perm@, orig.len() as int),
            stably_sorted_by(perm@, orig.map_values(|s: ChangedSymbol| symbol_text(s.function))),
            forall|j: int| 0 <= j < orig.len() ==> (exists|q: int| 0 <= q < k && perm@[q] == j) || #[trigger] slots@[j] == Some(orig[j]),
            res@.len() == k,
            forall|q: int| 0 <= q < k ==> #[trigger] res@[q] == orig[perm@[q] as int],
        decreases perm@.len() - k,
    {
        let p = perm[k];
        assert(slots@[p as int] == Some(orig[p as int])) by {
            if exists|q: int| 0 <= q < k && perm@[q] == p {
                let q = choose|q: int| 0 <= q < k && perm@[q] == p;
                assert(perm@[q] != perm@[k as int]);
            }
        }
        let taken = slots.remove(p);
        slots.insert(p, None);
        match taken {
            Some(s) => {
                res.push(s);
            },
            None => {},
        }
        proof {
            assert forall|j: int| 0 <= j < orig.len() implies (exists|q: int| 0 <= q < k + 1 && perm@[q] == j) || #[trigger] slots@[j] == Some(orig[j]) by {
                if j == p {
                    assert(perm@[k as int] == j);
                } else if exists|q: int| 0 <= q < k && perm@[q] == j {
                    let q = choose|q: int| 0 <= q < k && perm@[q] == j;
                    assert(perm@[q] == j);
                }
            }
        }
        k += 1;
    }
    assert(symbol_sorted(res@, orig, perm@));
    res
}

/// `res` is the plan assembled from a check summary, the changed symbols, the removed
/// symbols and the paths: the changed symbols sorted by symbol, the residual risks that
/// remain, and whether the plan is clean.
pub open spec fn plan_built(
    res: ChangePlan,
    summary: CheckSummary,
    changed_symbols: Seq<ChangedSymbol>,
    removed_symbols: Vec<RemovedPublicSymbol>,
    changed_paths: Vec<String>,
    source_paths: Vec<String>,
    explicit: bool,
) -> bool {
    &&& res.ok == (!any_error(summary.diagnostics@) && res.residual_risks@.len() == 0)
    &&& texts(res.residual_risks@) == residual_risks(changed_symbols, removed_symbols@, any_error(summary.diagnostics@), 12)
    &&& res.mode@ == (if explicit { "explicit-paths"@ } else { "git-status"@ })
    &&& res.source_paths == source_paths
    &&& res.changed_paths == changed_paths
    &&& res.removed_symbols == removed_symbols
    &&& exists|perm: Seq<usize>| symbol_sorted(res.changed_symbols@, changed_symbols, perm)
    &&& res.summary == summary
    &&& res.diagnostics@.len() == summary.diagnostics@.len()
    &&& forall|k: int| 0 <= k < summary.diagnostics@.len() ==> same_diagnostic(#[trigger] res.diagnostics@[k], summary.diagnostics@[k])
}

/// Assembles the change plan of a check: the changed symbols sorted by symbol, the removed
/// symbols, the residual risks that remain, and whether the plan is clean (no error among
/// the check's diagnostics and no residual risk). `explicit` tells whether the paths were
/// named on the command line rather than found by version control.
pub fn build_plan(
    summary: CheckSummary,
    changed_symbols: Vec<ChangedSymbol>,
    removed_symbols: Vec<RemovedPublicSymbol>,
    changed_paths: Vec<String>,
    source_paths: Vec<String>,
    explicit: bool,
) -> (res: ChangePlan)
    ensures
        res.ok == (!any_error(summary.diagnostics@) && res.residual_risks@.len() == 0),
        texts(res.residual_risks@) == residual_risks(
            changed_symbols@,
            removed_symbols@,
            any_error(summary.diagnostics@),
            12,
        ),
        res.mode@ == (if explicit { "explicit-paths"@ } else { "git-status"@ }),
        res.source_paths == source_paths,
        res.changed_paths == changed_paths,
        res.removed_symbols == removed_symbols,
        exists|perm: Seq<usize>| symbol_sorted(res.changed_symbols@, changed_symbols@, perm),
        res.summary == summary,
        res.diagnostics@.len() == summary.diagnostics@.len(),
        forall|k: int| 0 <= k < summary.diagnostics@.len() ==> same_diagnostic(#[trigger] res.diagnostics@[k], summary.diagnostics@[k]),
        plan_built(res, summary, changed_symbols@, removed_symbols, changed_paths, source_paths, explicit),
{
    let errors = has_errors(&summary.diagnostics);
    let mut risks: Vec<String> = Vec::new();
    let mut kind: u8 = 0;
    assert(texts(risks@) =~= residual_risks(changed_symbols@, removed_symbols@, errors, 0));
    while kind < 12
        invariant
            kind <= 12,
            texts(risks@) == residual_risks(changed_symbols@, removed_symbols@, errors, kind as int),
        decreases 12 - kind,
    {
        if raised_exec(kind, &changed_symbols, &removed_symbols, errors) {
            let ghost before = texts(risks@);
            risks.push(owned(risk_message_exec(kind)));
            assert(texts(risks@) =~= before.push(risk_message(kind as int)));
        }
        kind += 1;
    }
    let ok = !errors && risks.len() == 0;
    let mode = if explicit {
        owned("explicit-paths")
    } else {
        owned("git-status")
    };
    let ghost cs = changed_symbols@;
    let sorted = sort_by_symbol(changed_symbols);
    let ghost perm = choose|perm: Seq<usize>| symbol_sorted(sorted@, cs, perm);
    let diagnostics = copy_diagnostics(&summary.diagnostics);
    let plan = ChangePlan {
        ok,
        mode,
        source_paths,
        changed_paths,
        removed_symbols,
        changed_symbols: sorted,
        diagnostics,
        summary,
        residual_risks: risks,
    };
    assert(symbol_sorted(plan.changed_symbols@, cs, perm));
    plan
}

} // verus!
