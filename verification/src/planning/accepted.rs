//! What an accepted plan satisfies, told item by item.
use crate::graph;
use crate::graph::Entity;
use crate::planning::model::{
    ExecutionPlan, Invariant, PlannerPacket, ProjectPolicy, VerificationContract,
};
use crate::planning::plan;
use crate::planning::plan::PlanFacts;
use crate::planning::scope;
use crate::planning::scope::{ProtectedPath, ScopePath};
use crate::planning::validation;
use crate::planning::validation::Objection;
use crate::protocol;
use crate::protocol::{TaskPacket, VerificationRequirements};
use crate::repository::RepositoryInfo;
use crate::store;
use crate::store::{Store, StoredRequest};
use crate::text;
use vstd::prelude::*;

verus! {

// ---------------------------------------------------------------------------
// Lookups
// ---------------------------------------------------------------------------

/// Nothing is held against a subject exactly where no objection is to it, and
/// otherwise what the first one says.
pub proof fn law_objections_are_to_their_subject(list: Seq<Objection>, subject: Seq<char>, i: int)
    requires
        0 <= i,
    ensures
        validation::objection(list, subject, i) is None <==> forall|k: int|
            i <= k < list.len() ==> (#[trigger] list[k]).subject@ != subject,
        validation::objection(list, subject, i) matches Some(m) ==> exists|k: int|
            i <= k < list.len() && (#[trigger] list[k]).subject@ == subject && list[k].message@ == m
                && forall|j: int| i <= j < k ==> (#[trigger] list[j]).subject@ != subject,
    decreases list.len() - i,
{
    if i < list.len() {
        law_objections_are_to_their_subject(list, subject, i + 1);
        if list[i].subject@ == subject {
            assert(list[i].message@ == validation::objection(list, subject, i)->0);
        }
    }
}

pub proof fn lemma_task_at(tasks: Seq<TaskPacket>, id: Seq<char>, i: int)
    requires
        0 <= i,
    ensures
        match protocol::task_at(tasks, id, i) {
            Some(k) => i <= k < tasks.len() && tasks[k].task_id@ == id && forall|j: int|
                i <= j < k ==> (#[trigger] tasks[j]).task_id@ != id,
            None => forall|j: int| i <= j < tasks.len() ==> (#[trigger] tasks[j]).task_id@ != id,
        },
    decreases tasks.len() - i,
{
    if i < tasks.len() {
        lemma_task_at(tasks, id, i + 1);
    }
}

pub proof fn lemma_request_at(
    requests: Seq<StoredRequest>,
    workspace: Seq<char>,
    id: Seq<char>,
    i: int,
)
    requires
        0 <= i,
    ensures
        match store::request_at(requests, workspace, id, i) {
            Some(k) => i <= k < requests.len() && requests[k].workspace_id@ == workspace
                && requests[k].packet.request.request_id@ == id && forall|j: int|
                i <= j < k ==> !((#[trigger] requests[j]).workspace_id@ == workspace
                    && requests[j].packet.request.request_id@ == id),
            None => forall|j: int|
                i <= j < requests.len() ==> !((#[trigger] requests[j]).workspace_id@ == workspace
                    && requests[j].packet.request.request_id@ == id),
        },
    decreases requests.len() - i,
{
    if i < requests.len() {
        lemma_request_at(requests, workspace, id, i + 1);
    }
}

proof fn lemma_entity_at(entities: Seq<Entity>, id: Seq<char>, i: int)
    requires
        0 <= i,
    ensures
        match plan::entity_at(entities, id, i) {
            Some(k) => i <= k < entities.len() && entities[k].id@ == id && forall|j: int|
                i <= j < k ==> (#[trigger] entities[j]).id@ != id,
            None => forall|j: int| i <= j < entities.len() ==> (#[trigger] entities[j]).id@ != id,
        },
    decreases entities.len() - i,
{
    if i < entities.len() {
        lemma_entity_at(entities, id, i + 1);
    }
}

pub proof fn lemma_content_of(list: Seq<Invariant>, key: Seq<char>, i: int)
    requires
        0 <= i,
    ensures
        match validation::content_of(list, key, i) {
            Some(c) => exists|k: int|
                i <= k < list.len() && (#[trigger] list[k]).key@ == key && list[k].content@ == c
                    && forall|j: int| i <= j < k ==> (#[trigger] list[j]).key@ != key,
            None => forall|j: int| i <= j < list.len() ==> (#[trigger] list[j]).key@ != key,
        },
    decreases list.len() - i,
{
    if i < list.len() {
        lemma_content_of(list, key, i + 1);
        if list[i].key@ == key {
            assert(list[i].content@ == validation::content_of(list, key, i)->0);
        }
    }
}

pub proof fn lemma_entries(list: Seq<Invariant>, key: Seq<char>, i: int)
    requires
        0 <= i,
    ensures
        validation::entries(list, key, i) >= 0,
        validation::entries(list, key, i) == 0 <==> forall|k: int|
            i <= k < list.len() ==> (#[trigger] list[k]).key@ != key,
        validation::entries(list, key, i) == 1 ==> exists|k: int|
            i <= k < list.len() && (#[trigger] list[k]).key@ == key && forall|j: int|
                i <= j < list.len() && j != k ==> (#[trigger] list[j]).key@ != key,
        validation::entries(list, key, i) > 1 ==> exists|k: int, j: int|
            i <= k < j < list.len() && (#[trigger] list[k]).key@ == key && (
            #[trigger] list[j]).key@ == key,
    decreases list.len() - i,
{
    if i < list.len() {
        lemma_entries(list, key, i + 1);
        if list[i].key@ == key {
            if validation::entries(list, key, i + 1) == 0 {
                assert(list[i].key@ == key);
            } else if validation::entries(list, key, i + 1) == 1 {
                let k = choose|k: int|
                    i + 1 <= k < list.len() && (#[trigger] list[k]).key@ == key && forall|j: int|
                        i + 1 <= j < list.len() && j != k ==> (#[trigger] list[j]).key@ != key;
                assert(list[i].key@ == key && list[k].key@ == key);
            }
        } else if validation::entries(list, key, i) == 1 {
            let k = choose|k: int|
                i + 1 <= k < list.len() && (#[trigger] list[k]).key@ == key && forall|j: int|
                    i + 1 <= j < list.len() && j != k ==> (#[trigger] list[j]).key@ != key;
            assert(list[k].key@ == key);
        }
    }
}

// ---------------------------------------------------------------------------
// Scopes
// ---------------------------------------------------------------------------

/// Whether a scope of a task stays where it may: nothing is held against its path,
/// which leads through no symbolic link and not into Git's own storage; it neither
/// holds nor lies below a path that is kept from reading, or from writing where it is
/// written to; it stays inside a requested scope, where any are requested; and it
/// meets no exclusion.
pub open spec fn stays(
    s: ScopePath,
    write: bool,
    asked: Seq<ScopePath>,
    exclusions: Seq<ScopePath>,
    policy: ProjectPolicy,
    facts: PlanFacts,
) -> bool {
    &&& forall|i: int|
        0 <= i < facts.paths@.len() ==> (#[trigger] facts.paths@[i]).subject@ != s.at()
    &&& forall|i: int|
        0 <= i < facts.symlinked@.len() ==> (#[trigger] facts.symlinked@[i])@ != s.at()
    &&& !text::pieces(s.at(), '/').contains(".git"@)
    &&& forall|i: int|
        #![trigger policy.protected@[i]]
        0 <= i < policy.protected@.len() && (policy.protected@[i].deny_read || (write
            && policy.protected@[i].deny_write)) ==> !scope::allows(s, policy.protected@[i].path@)
            && !scope::below(s.at(), policy.protected@[i].path@)
    &&& asked.len() > 0 ==> exists|r: int|
        0 <= r < asked.len() && scope::allows(#[trigger] asked[r], s.at()) && (asked[r] is Directory
            || s is File)
    &&& forall|x: int|
        0 <= x < exclusions.len() ==> !scope::allows(#[trigger] exclusions[x], s.at())
            && !scope::allows(s, exclusions[x].at())
}

proof fn lemma_denials(rules: Seq<ProtectedPath>, s: ScopePath, write: bool, i: int)
    requires
        0 <= i,
    ensures
        scope::first_denial(rules, s, write, i) is None <==> forall|k: int|
            #![trigger rules[k]]
            i <= k < rules.len() && (rules[k].deny_read || (write && rules[k].deny_write))
                ==> !scope::allows(s, rules[k].path@) && !scope::below(s.at(), rules[k].path@),
    decreases rules.len() - i,
{
    if i < rules.len() {
        lemma_denials(rules, s, write, i + 1);
    }
}

/// A scope can be given to a task if and only if it stays where it may.
pub proof fn law_scopes_stay_where_they_may(
    s: ScopePath,
    write: bool,
    asked: Seq<ScopePath>,
    exclusions: Seq<ScopePath>,
    policy: ProjectPolicy,
    facts: PlanFacts,
)
    ensures
        plan::task_scope_refusal(s, write, asked, exclusions, policy, facts) is None <==> stays(
            s,
            write,
            asked,
            exclusions,
            policy,
            facts,
        ),
{
    law_objections_are_to_their_subject(facts.paths@, s.at(), 0);
    lemma_denials(policy.protected@, s, write, 0);
    let linked = text::texts(facts.symlinked@);
    assert(linked.contains(s.at()) <==> exists|i: int|
        0 <= i < facts.symlinked@.len() && (#[trigger] facts.symlinked@[i])@ == s.at()) by {
        if linked.contains(s.at()) {
            let i = choose|i: int| 0 <= i < linked.len() && linked[i] == s.at();
            assert(facts.symlinked@[i]@ == s.at());
        }
        if exists|i: int|
            0 <= i < facts.symlinked@.len() && (#[trigger] facts.symlinked@[i])@ == s.at() {
            let i = choose|i: int|
                0 <= i < facts.symlinked@.len() && (#[trigger] facts.symlinked@[i])@ == s.at();
            assert(linked[i] == s.at());
        }
    }
    if asked.len() > 0 && stays(s, write, asked, exclusions, policy, facts) {
        let r = choose|r: int|
            0 <= r < asked.len() && scope::allows(#[trigger] asked[r], s.at()) && (
            asked[r] is Directory || s is File);
        assert(plan::covers(asked[r], s));
    }
}

proof fn lemma_all_stay(
    scopes: Seq<ScopePath>,
    write: bool,
    asked: Seq<ScopePath>,
    exclusions: Seq<ScopePath>,
    policy: ProjectPolicy,
    facts: PlanFacts,
    i: int,
)
    requires
        0 <= i,
    ensures
        plan::task_scopes_refusal(scopes, write, asked, exclusions, policy, facts, i) is None
            <==> forall|k: int|
            i <= k < scopes.len() ==> stays(
                #[trigger] scopes[k],
                write,
                asked,
                exclusions,
                policy,
                facts,
            ),
    decreases scopes.len() - i,
{
    if i < scopes.len() {
        lemma_all_stay(scopes, write, asked, exclusions, policy, facts, i + 1);
        law_scopes_stay_where_they_may(scopes[i], write, asked, exclusions, policy, facts);
    }
}

// ---------------------------------------------------------------------------
// References
// ---------------------------------------------------------------------------

/// Whether the graph references of a task hold: the first entity of every name is
/// backed by the plan's own source, in a file that the task may read.
#[verifier::opaque]
pub open spec fn refers(p: ExecutionPlan, task: TaskPacket, facts: PlanFacts, i: int) -> bool {
    exists|k: int|
        {
            &&& 0 <= k < facts.entities@.len()
            &&& (#[trigger] facts.entities@[k]).id@ == task.graph_entities@[i]@
            &&& forall|j: int|
                0 <= j < k ==> (#[trigger] facts.entities@[j]).id@ != task.graph_entities@[i]@
            &&& exists|n: int|
                0 <= n < p.metadata.source.support@.len() && graph::same_provenance(
                    #[trigger] p.metadata.source.support@[n],
                    facts.entities@[k].provenance,
                )
            &&& exists|r: int|
                0 <= r < task.read_scope@.len() && scope::allows(
                    #[trigger] task.read_scope@[r],
                    facts.entities@[k].provenance.path@,
                )
        }
}

proof fn lemma_refers_at(p: ExecutionPlan, task: TaskPacket, facts: PlanFacts, i: int)
    requires
        0 <= i < task.graph_entities@.len(),
    ensures
        refers(p, task, facts, i) <==> match plan::entity_at(
            facts.entities@,
            task.graph_entities@[i]@,
            0,
        ) {
            Some(k) => graph::supported(p.metadata.source.support@, facts.entities@[k].provenance)
                && scope::any_allows(task.read_scope@, facts.entities@[k].provenance.path@),
            None => false,
        },
{
    reveal(refers);
    let id = task.graph_entities@[i]@;
    lemma_entity_at(facts.entities@, id, 0);
    if let Some(k) = plan::entity_at(facts.entities@, id, 0) {
        let e = facts.entities@[k];
        if refers(p, task, facts, i) {
            let j = choose|j: int|
                {
                    &&& 0 <= j < facts.entities@.len()
                    &&& (#[trigger] facts.entities@[j]).id@ == id
                    &&& forall|m: int| 0 <= m < j ==> (#[trigger] facts.entities@[m]).id@ != id
                    &&& exists|n: int|
                        0 <= n < p.metadata.source.support@.len() && graph::same_provenance(
                            #[trigger] p.metadata.source.support@[n],
                            facts.entities@[j].provenance,
                        )
                    &&& exists|r: int|
                        0 <= r < task.read_scope@.len() && scope::allows(
                            #[trigger] task.read_scope@[r],
                            facts.entities@[j].provenance.path@,
                        )
                };
            assert(facts.entities@[k].id@ == id);
            assert(j == k);
        }
        if graph::supported(p.metadata.source.support@, e.provenance) && scope::any_allows(
            task.read_scope@,
            e.provenance.path@,
        ) {
            assert(facts.entities@[k].id@ == id);
            assert(refers(p, task, facts, i));
        }
    }
}

proof fn lemma_refers(p: ExecutionPlan, task: TaskPacket, facts: PlanFacts, i: int)
    requires
        0 <= i,
    ensures
        plan::references_refusal(p, task, facts, i) is None <==> forall|n: int|
            i <= n < task.graph_entities@.len() ==> #[trigger] refers(p, task, facts, n),
    decreases task.graph_entities@.len() - i,
{
    if i < task.graph_entities@.len() {
        lemma_refers(p, task, facts, i + 1);
        lemma_refers_at(p, task, facts, i);
    }
}

/// Whether a check is defined by policy.
pub open spec fn defined(policy: ProjectPolicy, name: Seq<char>) -> bool {
    exists|i: int|
        0 <= i < policy.verification@.len() && (#[trigger] policy.verification@[i]).name@ == name
}

proof fn lemma_checks_defined(refs: Seq<Seq<char>>, policy: ProjectPolicy, i: int)
    requires
        0 <= i,
    ensures
        validation::undefined_check(refs, policy.verification@, i) is None <==> forall|k: int|
            i <= k < refs.len() ==> defined(policy, #[trigger] refs[k]),
    decreases refs.len() - i,
{
    if i < refs.len() {
        lemma_checks_defined(refs, policy, i + 1);
        assert(validation::has_profile(policy.verification@, refs[i]) == defined(policy, refs[i]));
    }
}

/// Checks can be required if and only if nothing is held against their shape, there
/// are at most 32, and project policy defines every one.
pub proof fn law_required_checks_are_defined(
    policy: ProjectPolicy,
    v: VerificationRequirements,
    shape: Option<Seq<char>>,
)
    ensures
        validation::checks_refusal(policy, v, shape) is None <==> {
            &&& shape is None
            &&& v.requirement_refs@.len() <= 32
            &&& forall|k: int|
                0 <= k < v.requirement_refs@.len() ==> defined(
                    policy,
                    (#[trigger] v.requirement_refs@[k])@,
                )
        },
{
    let refs = text::texts(v.requirement_refs@);
    lemma_checks_defined(refs, policy, 0);
    assert forall|k: int| 0 <= k < refs.len() implies #[trigger] refs[k]
        == v.requirement_refs@[k]@ by {}
    if forall|k: int|
        0 <= k < v.requirement_refs@.len() ==> defined(policy, (#[trigger] v.requirement_refs@[k])@) {
        assert forall|k: int| 0 <= k < refs.len() implies defined(policy, #[trigger] refs[k]) by {
            assert(refs[k] == v.requirement_refs@[k]@);
        }
    }
    if forall|k: int| 0 <= k < refs.len() ==> defined(policy, #[trigger] refs[k]) {
        assert forall|k: int| 0 <= k < v.requirement_refs@.len() implies defined(
            policy,
            (#[trigger] v.requirement_refs@[k])@,
        ) by {
            assert(refs[k] == v.requirement_refs@[k]@);
        }
    }
}

/// Whether an invariant is live: of project policy, or of exactly one canonical
/// entry.
pub open spec fn live(policy: Seq<Invariant>, canonical: Seq<Invariant>, key: Seq<char>) -> bool {
    ||| exists|i: int| 0 <= i < policy.len() && (#[trigger] policy[i]).key@ == key
    ||| exists|i: int|
        0 <= i < canonical.len() && (#[trigger] canonical[i]).key@ == key && forall|j: int|
            0 <= j < canonical.len() && j != i ==> (#[trigger] canonical[j]).key@ != key
}

proof fn lemma_live(
    refs: Seq<Seq<char>>,
    policy: Seq<Invariant>,
    canonical: Seq<Invariant>,
    identifiers: Seq<Objection>,
    i: int,
)
    requires
        0 <= i,
    ensures
        validation::invariant_refs_refusal(refs, policy, canonical, identifiers, i) is None
            <==> forall|k: int|
            i <= k < refs.len() ==> live(policy, canonical, #[trigger] refs[k])
                && validation::objection(identifiers, refs[k], 0) is None,
    decreases refs.len() - i,
{
    if i < refs.len() {
        lemma_live(refs, policy, canonical, identifiers, i + 1);
        lemma_content_of(policy, refs[i], 0);
        lemma_entries(canonical, refs[i], 0);
        assert((validation::content_of(policy, refs[i], 0) is Some || validation::entries(
            canonical,
            refs[i],
            0,
        ) == 1) == live(policy, canonical, refs[i]));
    }
}

/// Invariants can be referred to if and only if there are at most 32, each is live,
/// and nothing is held against its name.
pub proof fn law_invariant_references_are_live(
    refs: Seq<Seq<char>>,
    policy: Seq<Invariant>,
    canonical: Seq<Invariant>,
    identifiers: Seq<Objection>,
)
    ensures
        validation::invariants_refusal(refs, policy, canonical, identifiers) is None <==> {
            &&& refs.len() <= 32
            &&& forall|k: int|
                0 <= k < refs.len() ==> live(policy, canonical, #[trigger] refs[k])
            &&& forall|k: int, j: int|
                0 <= k < refs.len() && 0 <= j < identifiers.len() ==> (
                #[trigger] identifiers[j]).subject@ != #[trigger] refs[k]
        },
{
    lemma_live(refs, policy, canonical, identifiers, 0);
    assert forall|k: int| 0 <= k < refs.len() implies (validation::objection(
        identifiers,
        #[trigger] refs[k],
        0,
    ) is None <==> forall|j: int|
        0 <= j < identifiers.len() ==> (#[trigger] identifiers[j]).subject@ != refs[k]) by {
        law_objections_are_to_their_subject(identifiers, refs[k], 0);
    }
}

// ---------------------------------------------------------------------------
// Tasks and contracts
// ---------------------------------------------------------------------------

/// Whether a text is one of a list.
pub open spec fn has(list: Seq<String>, t: Seq<char>) -> bool {
    exists|j: int| 0 <= j < list.len() && (#[trigger] list[j])@ == t
}

/// Whether an invariant of a key is one of a list.
pub open spec fn keyed(list: Seq<Invariant>, key: Seq<char>) -> bool {
    exists|j: int| 0 <= j < list.len() && (#[trigger] list[j]).key@ == key
}

/// Whether every text of a list is among others.
pub open spec fn all_among(part: Seq<String>, whole: Seq<String>) -> bool {
    forall|i: int| 0 <= i < part.len() ==> has(whole, (#[trigger] part[i])@)
}

proof fn lemma_subset(part: Seq<String>, whole: Seq<String>)
    ensures
        text::subset(text::texts(part), text::texts(whole)) == all_among(part, whole),
{
    let (a, b) = (text::texts(part), text::texts(whole));
    if text::subset(a, b) {
        assert forall|i: int| 0 <= i < part.len() implies has(whole, (#[trigger] part[i])@) by {
            assert(b.contains(a[i]));
            let j = choose|j: int| 0 <= j < b.len() && b[j] == a[i];
            assert(whole[j]@ == part[i]@);
        }
    }
    if all_among(part, whole) {
        assert forall|i: int| 0 <= i < a.len() implies b.contains(#[trigger] a[i]) by {
            assert(a[i] == part[i]@);
            let j = choose|j: int| 0 <= j < whole.len() && (#[trigger] whole[j])@ == part[i]@;
            assert(b[j] == a[i]);
        }
    }
}

/// Whether a task holds what its contract, its request and its project ask of it.
pub open spec fn task_holds(
    p: ExecutionPlan,
    contract: VerificationContract,
    task: TaskPacket,
    prepared: PlannerPacket,
    policy: ProjectPolicy,
    facts: PlanFacts,
) -> bool {
    let asked = prepared.request.intent.scope@;
    let exclusions = contract.exclusions@;
    &&& forall|i: int|
        0 <= i < task.read_scope@.len() ==> stays(
            #[trigger] task.read_scope@[i],
            false,
            asked,
            exclusions,
            policy,
            facts,
        )
    &&& forall|i: int|
        0 <= i < task.write_scope@.len() ==> stays(
            #[trigger] task.write_scope@[i],
            true,
            asked,
            exclusions,
            policy,
            facts,
        )
    &&& forall|i: int|
        0 <= i < task.graph_entities@.len() ==> #[trigger] refers(p, task, facts, i)
    &&& forall|i: int|
        0 <= i < task.verification.requirement_refs@.len() ==> defined(
            policy,
            (#[trigger] task.verification.requirement_refs@[i])@,
        )
    &&& forall|i: int|
        0 <= i < task.invariant_refs@.len() ==> live(
            policy.invariants@,
            facts.canonical@,
            (#[trigger] task.invariant_refs@[i])@,
        )
    &&& forall|i: int|
        0 <= i < task.invariant_refs@.len() ==> keyed(
            prepared.context.invariants@,
            (#[trigger] task.invariant_refs@[i])@,
        )
    &&& all_among(prepared.request.intent.invariant_refs@, task.invariant_refs@)
}

proof fn lemma_prepared(refs: Seq<String>, prepared: Seq<Invariant>)
    ensures
        plan::all_prepared(text::texts(refs), prepared) == forall|i: int|
            0 <= i < refs.len() ==> keyed(prepared, (#[trigger] refs[i])@),
{
    let all = text::texts(refs);
    assert forall|i: int| 0 <= i < refs.len() implies (validation::content_of(
        prepared,
        #[trigger] all[i],
        0,
    ) is Some <==> keyed(prepared, refs[i]@)) by {
        lemma_content_of(prepared, all[i], 0);
    }
    if plan::all_prepared(all, prepared) {
        assert forall|i: int| 0 <= i < refs.len() implies keyed(prepared, (#[trigger] refs[i])@) by {
            assert(validation::content_of(prepared, all[i], 0) is Some);
        }
    }
    if forall|i: int| 0 <= i < refs.len() ==> keyed(prepared, (#[trigger] refs[i])@) {
        assert forall|i: int| 0 <= i < all.len() implies validation::content_of(
            prepared,
            #[trigger] all[i],
            0,
        ) is Some by {
            assert(keyed(prepared, refs[i]@));
        }
    }
}

/// A task that nothing is held against holds what is asked of it; and one that holds
/// it, with acceptable non-goals, exclusions, shape and names, has nothing held
/// against it.
pub proof fn law_tasks_hold_what_is_asked(
    p: ExecutionPlan,
    contract: VerificationContract,
    task: TaskPacket,
    prepared: PlannerPacket,
    policy: ProjectPolicy,
    facts: PlanFacts,
)
    ensures
        plan::task_refusal(p, contract, task, prepared, policy, facts) is None <==> {
            &&& task_holds(p, contract, task, prepared, policy, facts)
            &&& validation::texts_refusal(
                text::texts(contract.non_goals@),
                "task non-goals"@,
            ) is None
            &&& validation::scope_paths_refusal(contract.exclusions@, facts.paths@, 0) is None
            &&& validation::objection(facts.task_shapes@, task.task_id@, 0) is None
            &&& task.verification.requirement_refs@.len() <= 32
            &&& task.invariant_refs@.len() <= 32
            &&& forall|k: int, j: int|
                0 <= k < task.invariant_refs@.len() && 0 <= j < facts.identifiers@.len() ==> (
                #[trigger] facts.identifiers@[j]).subject@ != (#[trigger] task.invariant_refs@[k])@
        },
{
    let asked = prepared.request.intent.scope@;
    let exclusions = contract.exclusions@;
    let refs = text::texts(task.invariant_refs@);
    lemma_all_stay(task.read_scope@, false, asked, exclusions, policy, facts, 0);
    lemma_all_stay(task.write_scope@, true, asked, exclusions, policy, facts, 0);
    lemma_refers(p, task, facts, 0);
    law_required_checks_are_defined(
        policy,
        task.verification,
        validation::objection(facts.task_shapes@, task.task_id@, 0),
    );
    law_invariant_references_are_live(
        refs,
        policy.invariants@,
        facts.canonical@,
        facts.identifiers@,
    );
    lemma_prepared(task.invariant_refs@, prepared.context.invariants@);
    lemma_subset(prepared.request.intent.invariant_refs@, task.invariant_refs@);
    let given = task.invariant_refs@;
    assert forall|k: int| 0 <= k < given.len() implies refs[k] == (#[trigger] given[k])@ by {}
    assert((forall|k: int|
        0 <= k < refs.len() ==> live(policy.invariants@, facts.canonical@, #[trigger] refs[k]))
        <==> (forall|k: int|
        0 <= k < given.len() ==> live(
            policy.invariants@,
            facts.canonical@,
            (#[trigger] given[k])@,
        ))) by {
        if forall|k: int|
            0 <= k < given.len() ==> live(
                policy.invariants@,
                facts.canonical@,
                (#[trigger] given[k])@,
            ) {
            assert forall|k: int| 0 <= k < refs.len() implies live(
                policy.invariants@,
                facts.canonical@,
                #[trigger] refs[k],
            ) by {
                assert(refs[k] == given[k]@);
            }
        }
    }
    assert((forall|k: int, j: int|
        0 <= k < refs.len() && 0 <= j < facts.identifiers@.len() ==> (
        #[trigger] facts.identifiers@[j]).subject@ != #[trigger] refs[k]) <==> (forall|
        k: int,
        j: int,
    |
        0 <= k < given.len() && 0 <= j < facts.identifiers@.len() ==> (
        #[trigger] facts.identifiers@[j]).subject@ != (#[trigger] given[k])@)) by {
        if forall|k: int, j: int|
            0 <= k < given.len() && 0 <= j < facts.identifiers@.len() ==> (
            #[trigger] facts.identifiers@[j]).subject@ != (#[trigger] given[k])@ {
            assert forall|k: int, j: int|
                0 <= k < refs.len() && 0 <= j < facts.identifiers@.len() implies (
            #[trigger] facts.identifiers@[j]).subject@ != #[trigger] refs[k] by {
                assert(refs[k] == given[k]@);
            }
        }
    }
}

/// Whether the `k`-th contract of a plan binds its task: no earlier contract is on the
/// same one, an independent verifier is bound to the exact packet, and both stay
/// inside their bounds.
pub open spec fn contract_holds(
    p: ExecutionPlan,
    prepared: PlannerPacket,
    policy: ProjectPolicy,
    facts: PlanFacts,
    k: int,
    t: int,
) -> bool {
    let contract = p.metadata.contracts@[k];
    let task = p.packet.tasks@[t];
    &&& 0 <= t < p.packet.tasks@.len()
    &&& task.task_id@ == contract.task_id@
    &&& forall|j: int| 0 <= j < k ==> (#[trigger] p.metadata.contracts@[j]).task_id@
        != contract.task_id@
    &&& facts.tasks@[t].bytes <= 16384
    &&& facts.contract_bytes@[k] <= 8192
    &&& contract.independent_verifier
    &&& contract.task_packet_hash@ == facts.tasks@[t].hash@
    &&& task.read_scope@.len() > 0 || task.write_scope@.len() > 0
    &&& task.read_scope@.len() + task.write_scope@.len() <= 32
    &&& task.graph_entities@.len() <= 32
    &&& contract.memory_refs@.len() <= 32
    &&& contract.exclusions@.len() <= 32
    &&& task_holds(p, contract, task, prepared, policy, facts)
}

proof fn lemma_contract(
    p: ExecutionPlan,
    prepared: PlannerPacket,
    policy: ProjectPolicy,
    facts: PlanFacts,
    i: int,
    k: int,
) -> (t: int)
    requires
        0 <= i <= k < p.metadata.contracts@.len(),
        plan::contracts_refusal(p, prepared, policy, facts, i) is None,
    ensures
        contract_holds(p, prepared, policy, facts, k, t),
        forall|j: int|
            0 <= j < t ==> (#[trigger] p.packet.tasks@[j]).task_id@
                != p.metadata.contracts@[k].task_id@,
    decreases k - i,
{
    if i < k {
        lemma_contract(p, prepared, policy, facts, i + 1, k)
    } else {
        let contract = p.metadata.contracts@[k];
        lemma_task_at(p.packet.tasks@, contract.task_id@, 0);
        let t = protocol::task_at(p.packet.tasks@, contract.task_id@, 0)->0;
        law_tasks_hold_what_is_asked(
            p,
            contract,
            p.packet.tasks@[t],
            prepared,
            policy,
            facts,
        );
        assert forall|j: int| 0 <= j < k implies (#[trigger] p.metadata.contracts@[j]).task_id@
            != contract.task_id@ by {
            assert(!plan::repeats(p.metadata.contracts@, k));
        }
        t
    }
}

/// In an accepted plan, which has a contract for every task, every contract binds a
/// task that holds what is asked of it: its scopes stay inside what was requested and
/// away from what is protected or excluded, its entities are readable and backed by
/// the plan's source, its checks are defined, and its invariants are live, were
/// prepared, and leave none of the request out. The request is one of the workspace.
pub proof fn law_accepted_plans_bind_tasks_that_hold(
    p: ExecutionPlan,
    records: Store,
    info: RepositoryInfo,
    policy: ProjectPolicy,
    facts: PlanFacts,
    k: int,
)
    requires
        plan::plan_refusal(p, records, info, policy, facts) is None,
        0 <= k < p.metadata.contracts@.len(),
    ensures
        p.metadata.contracts@.len() == p.packet.tasks@.len() <= 32,
        facts.plan_bytes <= 262144,
        exists|r: int, t: int|
            {
                &&& 0 <= r < records.requests@.len()
                &&& (#[trigger] records.requests@[r]).workspace_id@ == info.workspace_id@
                &&& records.requests@[r].packet.request.request_id@ == p.metadata.request_id@
                &&& #[trigger] contract_holds(
                    p,
                    records.requests@[r].packet,
                    policy,
                    facts,
                    k,
                    t,
                )
            },
{
    lemma_request_at(records.requests@, info.workspace_id@, p.metadata.request_id@, 0);
    let r = store::request_at(records.requests@, info.workspace_id@, p.metadata.request_id@, 0)->0;
    let t = lemma_contract(p, records.requests@[r].packet, policy, facts, 0, k);
    assert(records.requests@[r].workspace_id@ == info.workspace_id@);
}

/// An accepted plan is one for its request: it has the request's objective and source,
/// was made after it and not in the future, keeps every check and every criterion that
/// was requested, and has itself verified independently and as a whole.
pub proof fn law_accepted_plans_answer_their_request(
    p: ExecutionPlan,
    records: Store,
    info: RepositoryInfo,
    policy: ProjectPolicy,
    facts: PlanFacts,
)
    requires
        plan::plan_refusal(p, records, info, policy, facts) is None,
    ensures
        exists|r: int|
            {
                let request = (#[trigger] records.requests@[r]).packet.request;
                let required = request.intent.verification;
                let given = p.packet.integration_verification;
                let c = p.metadata.integration;
                &&& 0 <= r < records.requests@.len()
                &&& records.requests@[r].workspace_id@ == info.workspace_id@
                &&& request.request_id@ == p.metadata.request_id@
                &&& p.packet.objective@ == request.intent.objective@
                &&& crate::planning::model::same_source(p.metadata.source, request.source)
                &&& request.created_at_ms <= p.metadata.created_at_ms <= facts.now_ms
                &&& facts.index_fresh
                &&& required is Some ==> all_among(
                    required->0.requirement_refs@,
                    given.requirement_refs@,
                ) && (required->0.evidence_required ==> given.evidence_required)
                &&& forall|i: int|
                    0 <= i < given.requirement_refs@.len() ==> defined(
                        policy,
                        (#[trigger] given.requirement_refs@[i])@,
                    )
                &&& c.plan_id@ == p.packet.plan_id@
                &&& c.plan_packet_hash@ == facts.packet_hash@
                &&& c.independent_verifier
                &&& c.require_all_task_verifications
                &&& c.require_final_diff_and_evidence
                &&& c.expectations@.len() > 0
                &&& all_among(request.intent.definition_of_done@, c.expectations@)
            },
{
    lemma_request_at(records.requests@, info.workspace_id@, p.metadata.request_id@, 0);
    let r = store::request_at(records.requests@, info.workspace_id@, p.metadata.request_id@, 0)->0;
    let request = records.requests@[r].packet.request;
    if let Some(v) = request.intent.verification {
        lemma_subset(v.requirement_refs@, p.packet.integration_verification.requirement_refs@);
    }
    lemma_subset(request.intent.definition_of_done@, p.metadata.integration.expectations@);
    law_required_checks_are_defined(
        policy,
        p.packet.integration_verification,
        validation::message(facts.integration_shape),
    );
    assert(records.requests@[r].workspace_id@ == info.workspace_id@);
}

} // verus!
