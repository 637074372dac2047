//! The semantic changes of a changed public symbol: each kind of change that the plan
//! found, whether a migration acknowledges it, and its details, sorted and each once.
use vstd::prelude::*;
use vstd::string::*;

use crate::ledger::ImpactDependent;
use crate::model::{symbol_text, Function};
use crate::patch::texts;
use crate::plan::{
    acknowledges, behavior_acknowledged, has_migration, public_behavior_change_acknowledged,
    CapabilityAnalysis, CapabilityChange, EvidenceDrift, EvidenceWeakening, ImpactEvidenceCoverage,
    ImplementationChange, ImplementationEvidenceCoverage, PublicBehaviorChange, SemanticChange,
    StaleMigration,
};
use crate::ledger::strings_of;
use crate::text::{
    chars_of, decimal, insert_sorted_unique, lemma_sorted_of, owned, sorted_of, strictly_sorted,
    usize_text, views,
};

verus! {

/// A semantic change as plain values: its label, whether it is acknowledged, its details.
pub open spec fn change_view(c: SemanticChange) -> (Seq<char>, bool, Seq<Seq<char>>) {
    (c.label@, c.acknowledged, texts(c.details@))
}

pub open spec fn change_views(v: Seq<SemanticChange>) -> Seq<(Seq<char>, bool, Seq<Seq<char>>)> {
    v.map_values(|c: SemanticChange| change_view(c))
}

/// The change with a label, an acknowledgement, and the given details sorted, each once.
pub open spec fn change_of(label: Seq<char>, ack: bool, details: Seq<Seq<char>>) -> (Seq<char>, bool, Seq<Seq<char>>) {
    (label, ack, sorted_of(details.to_set()))
}

/// One change when `cond` holds, none otherwise.
pub open spec fn when(cond: bool, c: (Seq<char>, bool, Seq<Seq<char>>)) -> Seq<(Seq<char>, bool, Seq<Seq<char>>)> {
    if cond {
        seq![c]
    } else {
        seq![]
    }
}

/// A changed implementation is acknowledged by an implementation-change migration, or by
/// added evidence that calls the function and fails against the baseline implementation.
pub open spec fn implementation_acknowledged(f: Function, ie: Option<ImplementationEvidenceCoverage>) -> bool {
    acknowledges(f, "implementation-change"@) || (ie is Some && ie->0.covered && ie->0.behavior_sensitive)
}

/// Which kinds of evidence were added: examples, properties.
pub open spec fn evidence_details(c: ImplementationEvidenceCoverage) -> Seq<Seq<char>> {
    (if c.added_examples@.len() > 0 { seq!["examples"@] } else { seq![] }) + (if c.added_properties@.len() > 0 {
        seq!["properties"@]
    } else {
        seq![]
    })
}

/// How the added evidence stands to the changed implementation.
pub open spec fn coverage_change(f: Function, c: ImplementationEvidenceCoverage) -> (Seq<char>, bool, Seq<Seq<char>>) {
    if !c.covered {
        change_of(
            "implementation_evidence_not_covering_changed_function"@,
            acknowledges(f, "implementation-change"@),
            evidence_details(c),
        )
    } else if !c.behavior_sensitive {
        change_of(
            "implementation_evidence_not_behavior_sensitive"@,
            acknowledges(f, "implementation-change"@),
            evidence_details(c),
        )
    } else {
        change_of("implementation_evidence_behavior_sensitive"@, true, evidence_details(c))
    }
}

/// `kind#index` of a stale migration.
pub open spec fn stale_label(m: StaleMigration) -> Seq<char> {
    m.kind@ + "#"@ + decimal(m.index as nat)
}

/// The symbols of the dependents whose call edge no executable evidence covers, in order.
pub open spec fn uncovered_symbols(v: Seq<ImpactEvidenceCoverage>) -> Seq<Seq<char>>
    decreases v.len(),
{
    if v.len() == 0 {
        seq![]
    } else if !v.last().covered {
        uncovered_symbols(v.drop_last()).push(symbol_text(v.last().dependent))
    } else {
        uncovered_symbols(v.drop_last())
    }
}

/// The change of the public contract surface, if any.
pub open spec fn behavior_part(f: Function, behavior: Option<PublicBehaviorChange>) -> Seq<(Seq<char>, bool, Seq<Seq<char>>)> {
    match behavior {
        Some(c) => seq![change_of("public_contract_surface_changed"@, behavior_acknowledged(f, c), texts(c.changed@))],
        None => seq![],
    }
}

/// The expansion and the reduction of the declared capabilities, if any.
pub open spec fn capability_part(f: Function, capability_change: Option<CapabilityChange>) -> Seq<(Seq<char>, bool, Seq<Seq<char>>)> {
    match capability_change {
        Some(c) => when(
            c.added@.len() > 0,
            change_of("capability_expanded"@, acknowledges(f, "capability-expansion"@), texts(c.added@)),
        ) + when(
            c.removed@.len() > 0,
            change_of("capability_reduced"@, acknowledges(f, "public-behavior-change"@), texts(c.removed@)),
        ),
        None => seq![],
    }
}

/// The evidence that changed together with the implementation, if any.
pub open spec fn drift_part(f: Function, drift: Option<EvidenceDrift>) -> Seq<(Seq<char>, bool, Seq<Seq<char>>)> {
    match drift {
        Some(d) => seq![change_of("implementation_evidence_changed"@, acknowledges(f, "implementation-change"@), texts(d.changed@))],
        None => seq![],
    }
}

/// How the evidence added with a changed implementation covers it, if any was looked at.
pub open spec fn coverage_part(f: Function, ie: Option<ImplementationEvidenceCoverage>) -> Seq<(Seq<char>, bool, Seq<Seq<char>>)> {
    match ie {
        Some(c) => seq![coverage_change(f, c)],
        None => seq![],
    }
}

/// The first changes: an implicit version, the contract surface, the capabilities, the
/// weakened evidence.
pub open spec fn surface_part(
    f: Function,
    behavior: Option<PublicBehaviorChange>,
    capability_change: Option<CapabilityChange>,
    weakening: Seq<EvidenceWeakening>,
) -> Seq<(Seq<char>, bool, Seq<Seq<char>>)> {
    when(!f.version_explicit, change_of("implicit_public_version"@, false, seq!["version defaults to v1"@]))
    + behavior_part(f, behavior)
    + capability_part(f, capability_change)
    + when(
        weakening.len() > 0,
        change_of(
            "executable_evidence_weakened"@,
            acknowledges(f, "evidence-weakening"@),
            weakening.map_values(|w: EvidenceWeakening| w.kind@),
        ),
    )
}

/// The changes of the implementation and of the evidence that goes with it.
pub open spec fn implementation_part(
    f: Function,
    drift: Option<EvidenceDrift>,
    implementation: Option<ImplementationChange>,
    ie: Option<ImplementationEvidenceCoverage>,
) -> Seq<(Seq<char>, bool, Seq<Seq<char>>)> {
    when(
        implementation is Some,
        change_of("public_implementation_changed"@, implementation_acknowledged(f, ie), seq![]),
    )
    + drift_part(f, drift)
    + coverage_part(f, ie)
}

/// The intent risks, the stale migrations, the impacted dependents and their coverage.
pub open spec fn review_part(
    f: Function,
    risks: Seq<Seq<char>>,
    stale: Seq<StaleMigration>,
    impact: Seq<ImpactDependent>,
    impact_coverage: Seq<ImpactEvidenceCoverage>,
) -> Seq<(Seq<char>, bool, Seq<Seq<char>>)> {
    when(risks.len() > 0, change_of("intent_implementation_mismatch_risk"@, false, risks))
    + when(
        stale.len() > 0,
        change_of("stale_migration_acknowledgement"@, false, stale.map_values(|m: StaleMigration| stale_label(m))),
    )
    + when(
        impact.len() > 0,
        change_of(
            "impacted_dependents"@,
            acknowledges(f, "impact-review"@),
            impact.map_values(|d: ImpactDependent| symbol_text(d.function)),
        ),
    )
    + when(
        uncovered_symbols(impact_coverage).len() > 0,
        change_of("uncovered_impact_evidence"@, acknowledges(f, "impact-review"@), uncovered_symbols(impact_coverage)),
    )
}

/// The capabilities that the direct callees need and are not declared, or are declared
/// and not needed.
pub open spec fn callee_part(capability: CapabilityAnalysis) -> Seq<(Seq<char>, bool, Seq<Seq<char>>)> {
    when(
        capability.missing_for_direct_callees@.len() > 0,
        change_of("direct_call_capability_underdeclared"@, false, texts(capability.missing_for_direct_callees@)),
    )
    + when(
        capability.unused_for_direct_callees@.len() > 0,
        change_of("direct_call_capability_overdeclared"@, false, texts(capability.unused_for_direct_callees@)),
    )
}

/// The semantic changes of changed function `f`, in a fixed order of kinds, from what the
/// plan found of it.
pub open spec fn semantic_change_list(
    f: Function,
    behavior: Option<PublicBehaviorChange>,
    capability: CapabilityAnalysis,
    capability_change: Option<CapabilityChange>,
    drift: Option<EvidenceDrift>,
    weakening: Seq<EvidenceWeakening>,
    implementation: Option<ImplementationChange>,
    ie: Option<ImplementationEvidenceCoverage>,
    risks: Seq<Seq<char>>,
    stale: Seq<StaleMigration>,
    impact: Seq<ImpactDependent>,
    impact_coverage: Seq<ImpactEvidenceCoverage>,
) -> Seq<(Seq<char>, bool, Seq<Seq<char>>)> {
    surface_part(f, behavior, capability_change, weakening)
    + implementation_part(f, drift, implementation, ie)
    + review_part(f, risks, stale, impact, impact_coverage)
    + callee_part(capability)
}

/// The texts sorted, each once.
pub fn sorted_texts(v: &Vec<String>) -> (res: Vec<String>)
    ensures
        texts(res@) == sorted_of(texts(v@).to_set()),
{
    let ghost tv = texts(v@);
    let mut acc: Vec<Vec<char>> = Vec::new();
    let mut i: usize = 0;
    assert(views(acc@).to_set() =~= tv.take(0).to_set());
    while i < v.len()
        invariant
            i <= v@.len(),
            tv == texts(v@),
            strictly_sorted(views(acc@)),
            views(acc@).to_set() == tv.take(i as int).to_set(),
        decreases v@.len() - i,
    {
        assert(tv.take(i + 1) =~= tv.take(i as int).push(v@[i as int]@));
        proof {
            tv.take(i as int).lemma_push_to_set_commute(v@[i as int]@);
        }
        insert_sorted_unique(&mut acc, chars_of(v[i].as_str()));
        i += 1;
    }
    assert(tv.take(v@.len() as int) =~= tv);
    proof {
        lemma_sorted_of(views(acc@));
    }
    strings_of(&acc)
}

fn push_change(out: &mut Vec<SemanticChange>, label: &str, ack: bool, details: &Vec<String>)
    ensures
        change_views(final(out)@) == change_views(old(out)@).push(change_of(label@, ack, texts(details@))),
{
    let sorted = sorted_texts(details);
    let ghost before = change_views(out@);
    out.push(SemanticChange { label: owned(label), acknowledged: ack, details: sorted });
    assert(change_views(out@) =~= before.push(change_of(label@, ack, texts(details@))));
}

fn copy_strings(v: &Vec<String>) -> (res: Vec<String>)
    ensures
        texts(res@) == texts(v@),
{
    let mut out: Vec<String> = Vec::new();
    let mut i: usize = 0;
    while i < v.len()
        invariant
            i <= v@.len(),
            texts(out@) == texts(v@).take(i as int),
        decreases v@.len() - i,
    {
        let ghost before = texts(out@);
        out.push(owned(v[i].as_str()));
        assert(texts(out@) =~= before.push(v@[i as int]@));
        assert(texts(v@).take(i + 1) =~= texts(v@).take(i as int).push(v@[i as int]@));
        i += 1;
    }
    assert(texts(v@).take(v@.len() as int) =~= texts(v@));
    out
}

fn weakening_kinds(v: &Vec<EvidenceWeakening>) -> (res: Vec<String>)
    ensures
        texts(res@) == v@.map_values(|w: EvidenceWeakening| w.kind@),
{
    let ghost full = v@.map_values(|w: EvidenceWeakening| w.kind@);
    let mut out: Vec<String> = Vec::new();
    let mut i: usize = 0;
    while i < v.len()
        invariant
            i <= v@.len(),
            full == v@.map_values(|w: EvidenceWeakening| w.kind@),
            texts(out@) == full.take(i as int),
        decreases v@.len() - i,
    {
        let ghost before = texts(out@);
        out.push(owned(v[i].kind.as_str()));
        assert(texts(out@) =~= before.push(full[i as int]));
        assert(full.take(i + 1) =~= full.take(i as int).push(full[i as int]));
        i += 1;
    }
    assert(full.take(v@.len() as int) =~= full);
    out
}

fn stale_labels(v: &Vec<StaleMigration>) -> (res: Vec<String>)
    ensures
        texts(res@) == v@.map_values(|m: StaleMigration| stale_label(m)),
{
    let ghost full = v@.map_values(|m: StaleMigration| stale_label(m));
    let mut out: Vec<String> = Vec::new();
    let mut i: usize = 0;
    while i < v.len()
        invariant
            i <= v@.len(),
            full == v@.map_values(|m: StaleMigration| stale_label(m)),
            texts(out@) == full.take(i as int),
        decreases v@.len() - i,
    {
        let ghost before = texts(out@);
        let mut s = owned(v[i].kind.as_str());
        s.append("#");
        let n = usize_text(v[i].index);
        s.append(n.as_str());
        out.push(s);
        assert(texts(out@) =~= before.push(full[i as int]));
        assert(full.take(i + 1) =~= full.take(i as int).push(full[i as int]));
        i += 1;
    }
    assert(full.take(v@.len() as int) =~= full);
    out
}

fn impact_symbols(v: &Vec<ImpactDependent>) -> (res: Vec<String>)
    ensures
        texts(res@) == v@.map_values(|d: ImpactDependent| symbol_text(d.function)),
{
    let ghost full = v@.map_values(|d: ImpactDependent| symbol_text(d.function));
    let mut out: Vec<String> = Vec::new();
    let mut i: usize = 0;
    while i < v.len()
        invariant
            i <= v@.len(),
            full == v@.map_values(|d: ImpactDependent| symbol_text(d.function)),
            texts(out@) == full.take(i as int),
        decreases v@.len() - i,
    {
        let ghost before = texts(out@);
        out.push(v[i].function.symbol());
        assert(texts(out@) =~= before.push(full[i as int]));
        assert(full.take(i + 1) =~= full.take(i as int).push(full[i as int]));
        i += 1;
    }
    assert(full.take(v@.len() as int) =~= full);
    out
}

fn uncovered_list(v: &Vec<ImpactEvidenceCoverage>) -> (res: Vec<String>)
    ensures
        texts(res@) == uncovered_symbols(v@),
{
    let mut out: Vec<String> = Vec::new();
    let mut i: usize = 0;
    assert(v@.take(0) =~= seq![]);
    while i < v.len()
        invariant
            i <= v@.len(),
            texts(out@) == uncovered_symbols(v@.take(i as int)),
        decreases v@.len() - i,
    {
        let ghost before = texts(out@);
        assert(v@.take(i + 1).drop_last() =~= v@.take(i as int));
        if !v[i].covered {
            out.push(v[i].dependent.symbol());
            assert(texts(out@) =~= before.push(symbol_text(v@[i as int].dependent)));
        }
        i += 1;
    }
    assert(v@.take(v@.len() as int) =~= v@);
    out
}

fn evidence_detail_list(c: &ImplementationEvidenceCoverage) -> (res: Vec<String>)
    ensures
        texts(res@) == evidence_details(*c),
{
    let mut out: Vec<String> = Vec::new();
    if c.added_examples.len() > 0 {
        out.push(owned("examples"));
    }
    if c.added_properties.len() > 0 {
        out.push(owned("properties"));
    }
    assert(texts(out@) =~= evidence_details(*c));
    out
}

fn push_behavior(out: &mut Vec<SemanticChange>, f: &Function, behavior: &Option<PublicBehaviorChange>)
    ensures
        change_views(final(out)@) == change_views(old(out)@) + behavior_part(*f, *behavior),
{
    let ghost start = change_views(out@);
    if let Some(c) = behavior {
        let ack = public_behavior_change_acknowledged(f, c);
        push_change(out, "public_contract_surface_changed", ack, &c.changed);
    }
    assert(change_views(out@) =~= start + behavior_part(*f, *behavior));
}

fn push_capability(out: &mut Vec<SemanticChange>, f: &Function, capability_change: &Option<CapabilityChange>)
    ensures
        change_views(final(out)@) == change_views(old(out)@) + capability_part(*f, *capability_change),
{
    let ghost start = change_views(out@);
    if let Some(c) = capability_change {
        if c.added.len() > 0 {
            let ack = has_migration(f, "capability-expansion");
            push_change(out, "capability_expanded", ack, &c.added);
        }
        let ghost mid = change_views(out@);
        if c.removed.len() > 0 {
            let ack = has_migration(f, "public-behavior-change");
            push_change(out, "capability_reduced", ack, &c.removed);
        }
    }
    assert(change_views(out@) =~= start + capability_part(*f, *capability_change));
}

fn push_surface(
    out: &mut Vec<SemanticChange>,
    f: &Function,
    behavior: &Option<PublicBehaviorChange>,
    capability_change: &Option<CapabilityChange>,
    weakening: &Vec<EvidenceWeakening>,
)
    ensures
        change_views(final(out)@) == change_views(old(out)@) + surface_part(*f, *behavior, *capability_change, weakening@),
{
    let ghost start = change_views(out@);
    let ghost mut acc: Seq<(Seq<char>, bool, Seq<Seq<char>>)> = seq![];
    if !f.version_explicit {
        let mut d: Vec<String> = Vec::new();
        d.push(owned("version defaults to v1"));
        assert(texts(d@) =~= seq!["version defaults to v1"@]);
        push_change(out, "implicit_public_version", false, &d);
    }
    proof {
        acc = when(!f.version_explicit, change_of("implicit_public_version"@, false, seq!["version defaults to v1"@]));
        assert(change_views(out@) =~= start + acc);
    }
    push_behavior(out, f, behavior);
    proof {
        acc = acc + behavior_part(*f, *behavior);
        assert(change_views(out@) =~= start + acc);
    }
    push_capability(out, f, capability_change);
    proof {
        acc = acc + capability_part(*f, *capability_change);
        assert(change_views(out@) =~= start + acc);
    }
    if weakening.len() > 0 {
        let ack = has_migration(f, "evidence-weakening");
        let kinds = weakening_kinds(weakening);
        push_change(out, "executable_evidence_weakened", ack, &kinds);
    }
    proof {
        acc = acc + when(
            weakening@.len() > 0,
            change_of(
                "executable_evidence_weakened"@,
                acknowledges(*f, "evidence-weakening"@),
                weakening@.map_values(|w: EvidenceWeakening| w.kind@),
            ),
        );
        assert(change_views(out@) =~= start + acc);
    }
}

fn push_implementation(
    out: &mut Vec<SemanticChange>,
    f: &Function,
    drift: &Option<EvidenceDrift>,
    implementation: &Option<ImplementationChange>,
    implementation_evidence: &Option<ImplementationEvidenceCoverage>,
)
    ensures
        change_views(final(out)@) == change_views(old(out)@) + implementation_part(*f, *drift, *implementation, *implementation_evidence),
{
    let ghost start = change_views(out@);
    let ghost mut acc: Seq<(Seq<char>, bool, Seq<Seq<char>>)> = seq![];
    let impl_ack = has_migration(f, "implementation-change");
    if implementation.is_some() {
        let ack = impl_ack || match implementation_evidence {
            Some(c) => c.covered && c.behavior_sensitive,
            None => false,
        };
        let d: Vec<String> = Vec::new();
        assert(texts(d@) =~= seq![]);
        push_change(out, "public_implementation_changed", ack, &d);
    }
    proof {
        acc = when(
            implementation is Some,
            change_of("public_implementation_changed"@, implementation_acknowledged(*f, *implementation_evidence), seq![]),
        );
        assert(change_views(out@) =~= start + acc);
    }
    if let Some(d) = drift {
        push_change(out, "implementation_evidence_changed", impl_ack, &d.changed);
    }
    proof {
        acc = acc + drift_part(*f, *drift);
        assert(change_views(out@) =~= start + acc);
    }
    if let Some(c) = implementation_evidence {
        let details = evidence_detail_list(c);
        if !c.covered {
            push_change(out, "implementation_evidence_not_covering_changed_function", impl_ack, &details);
        } else if !c.behavior_sensitive {
            push_change(out, "implementation_evidence_not_behavior_sensitive", impl_ack, &details);
        } else {
            push_change(out, "implementation_evidence_behavior_sensitive", true, &details);
        }
    }
    proof {
        acc = acc + coverage_part(*f, *implementation_evidence);
        assert(change_views(out@) =~= start + acc);
    }
}

fn push_review(
    out: &mut Vec<SemanticChange>,
    f: &Function,
    risks: &Vec<String>,
    stale: &Vec<StaleMigration>,
    impact: &Vec<ImpactDependent>,
    impact_coverage: &Vec<ImpactEvidenceCoverage>,
)
    ensures
        change_views(final(out)@) == change_views(old(out)@) + review_part(*f, texts(risks@), stale@, impact@, impact_coverage@),
{
    let ghost start = change_views(out@);
    let ghost mut acc: Seq<(Seq<char>, bool, Seq<Seq<char>>)> = seq![];
    if risks.len() > 0 {
        push_change(out, "intent_implementation_mismatch_risk", false, risks);
    }
    proof {
        acc = when(texts(risks@).len() > 0, change_of("intent_implementation_mismatch_risk"@, false, texts(risks@)));
        assert(change_views(out@) =~= start + acc);
    }
    if stale.len() > 0 {
        let labels = stale_labels(stale);
        push_change(out, "stale_migration_acknowledgement", false, &labels);
    }
    proof {
        acc = acc + when(
            stale@.len() > 0,
            change_of("stale_migration_acknowledgement"@, false, stale@.map_values(|m: StaleMigration| stale_label(m))),
        );
        assert(change_views(out@) =~= start + acc);
    }
    let review_ack = has_migration(f, "impact-review");
    if impact.len() > 0 {
        let syms = impact_symbols(impact);
        push_change(out, "impacted_dependents", review_ack, &syms);
    }
    proof {
        acc = acc + when(
            impact@.len() > 0,
            change_of(
                "impacted_dependents"@,
                acknowledges(*f, "impact-review"@),
                impact@.map_values(|d: ImpactDependent| symbol_text(d.function)),
            ),
        );
        assert(change_views(out@) =~= start + acc);
    }
    let uncovered = uncovered_list(impact_coverage);
    if uncovered.len() > 0 {
        push_change(out, "uncovered_impact_evidence", review_ack, &uncovered);
    }
    proof {
        acc = acc + when(
            uncovered_symbols(impact_coverage@).len() > 0,
            change_of("uncovered_impact_evidence"@, acknowledges(*f, "impact-review"@), uncovered_symbols(impact_coverage@)),
        );
        assert(change_views(out@) =~= start + acc);
    }
}

fn push_callees(out: &mut Vec<SemanticChange>, capability: &CapabilityAnalysis)
    ensures
        change_views(final(out)@) == change_views(old(out)@) + callee_part(*capability),
{
    let ghost start = change_views(out@);
    if capability.missing_for_direct_callees.len() > 0 {
        push_change(out, "direct_call_capability_underdeclared", false, &capability.missing_for_direct_callees);
    }
    let ghost mid = change_views(out@);
    if capability.unused_for_direct_callees.len() > 0 {
        push_change(out, "direct_call_capability_overdeclared", false, &capability.unused_for_direct_callees);
    }
    assert(change_views(out@) =~= start + callee_part(*capability));
}

/// The semantic changes of changed function `function`, from what the plan found of it:
/// its behavior change, capability analysis and change, evidence drift and weakening,
/// implementation change and the evidence added with it, intent risks, stale migrations,
/// impacted dependents and their evidence coverage.
pub fn semantic_changes(
    function: &Function,
    behavior: &Option<PublicBehaviorChange>,
    capability: &CapabilityAnalysis,
    capability_change: &Option<CapabilityChange>,
    drift: &Option<EvidenceDrift>,
    weakening: &Vec<EvidenceWeakening>,
    implementation: &Option<ImplementationChange>,
    implementation_evidence: &Option<ImplementationEvidenceCoverage>,
    risks: &Vec<String>,
    stale: &Vec<StaleMigration>,
    impact: &Vec<ImpactDependent>,
    impact_coverage: &Vec<ImpactEvidenceCoverage>,
) -> (res: Vec<SemanticChange>)
    ensures
        change_views(res@) == semantic_change_list(
            *function,
            *behavior,
            *capability,
            *capability_change,
            *drift,
            weakening@,
            *implementation,
            *implementation_evidence,
            texts(risks@),
            stale@,
            impact@,
            impact_coverage@,
        ),
{
    let mut out: Vec<SemanticChange> = Vec::new();
    assert(change_views(out@) =~= seq![]);
    push_surface(&mut out, function, behavior, capability_change, weakening);
    push_implementation(&mut out, function, drift, implementation, implementation_evidence);
    push_review(&mut out, function, risks, stale, impact, impact_coverage);
    push_callees(&mut out, capability);
    assert(change_views(out@) =~= semantic_change_list(
        *function,
        *behavior,
        *capability,
        *capability_change,
        *drift,
        weakening@,
        *implementation,
        *implementation_evidence,
        texts(risks@),
        stale@,
        impact@,
        impact_coverage@,
    ));
    out
}

} // verus!
