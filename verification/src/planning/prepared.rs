//! When a request is prepared, and when the tasks of a plan can be shown.
use crate::planning::context;
use crate::planning::context::PreparationFacts;
use crate::planning::intents;
use crate::planning::lifecycle;
use crate::planning::lifecycle::TaskGuard;
use crate::planning::model;
use crate::planning::model::{PlannerPacket, PlanningLimits, ProjectPolicy, RequestDraft};
use crate::planning::scope;
use crate::planning::scope::ScopePath;
use crate::planning::stages;
use crate::planning::validation;
use crate::store;
use crate::store::{Store, StoredPlan};
use crate::text;
use vstd::prelude::*;

verus! {

proof fn lemma_scopes(
    scopes: Seq<ScopePath>,
    policy: ProjectPolicy,
    facts: PreparationFacts,
    i: int,
    n: int,
)
    requires
        0 <= i <= n < scopes.len(),
        context::scopes_refusal(scopes, policy, facts, i) is None,
    ensures
        validation::objection(facts.paths@, scopes[n].at(), 0) is None,
        scope::scope_refusal(
            None,
            policy.protected@,
            scopes[n],
            false,
            text::texts(facts.symlinked@).contains(scopes[n].at()),
        ) is None,
    decreases n - i,
{
    if i < n {
        lemma_scopes(scopes, policy, facts, i + 1, n);
    }
}

/// A request is prepared only where its intent is complete, the limits are allowed, the
/// policy is small enough, its checks and invariants are defined, and each scope that it
/// asks for is well formed, reached through no symbolic link, and meets no path that may
/// not be read.
pub proof fn law_prepared_requests_ask_for_what_may_be_read(
    intent: RequestDraft,
    limits: PlanningLimits,
    policy: ProjectPolicy,
    facts: PreparationFacts,
    n: int,
    r: int,
)
    requires
        context::preparation_refusal(intent, limits, policy, facts) is None,
    ensures
        validation::intent_refusal(intent, facts.intent) is None,
        4096 <= limits.bytes <= 131072,
        1 <= limits.files <= 16,
        facts.policy_bytes <= 16384,
        intent.verification is Some ==> validation::checks_refusal(
            policy,
            intent.verification->0,
            validation::message(facts.verification_shape),
        ) is None,
        0 <= n < intent.scope@.len() ==> {
            let s = intent.scope@[n];
            &&& !text::texts(facts.symlinked@).contains(s.at())
            &&& intents::unopposed(facts.paths@, s.at())
            &&& 0 <= r < policy.protected@.len() && policy.protected@[r].deny_read ==> !scope::allows(
                s,
                policy.protected@[r].path@,
            ) && !scope::below(s.at(), policy.protected@[r].path@)
        },
{
    if 0 <= n < intent.scope@.len() {
        let s = intent.scope@[n];
        lemma_scopes(intent.scope@, policy, facts, 0, n);
        scope::law_scopes_are_refused_for_a_reason(
            None,
            policy.protected@,
            s,
            false,
            text::texts(facts.symlinked@).contains(s.at()),
        );
        intents::law_unopposed_subjects_have_no_objection(facts.paths@, s.at());
    }
}

/// A prepared packet is handed out exactly where the limits are allowed, it answers the
/// intent under these limits, and it is within the budget.
pub proof fn law_packets_answer_their_intent(
    packet: PlannerPacket,
    intent: RequestDraft,
    limits: PlanningLimits,
)
    ensures
        context::unprepared(packet, intent, limits) is None ==> {
            &&& packet.context.limits == limits
            &&& packet.serialized_bytes <= limits.bytes
            &&& limits.bytes <= 131072
            &&& model::same_intent(packet.request.intent, intent)
            &&& forall|key: Seq<char>|
                text::texts(packet.request.intent.invariant_refs@).contains(key)
                    <==> #[trigger] (text::texts(intent.invariant_refs@) + context::keys(
                    packet.context.policy.invariants@,
                )).contains(key)
        },
{
    let all = text::texts(intent.invariant_refs@) + context::keys(
        packet.context.policy.invariants@,
    );
    text::law_texts_can_be_ordered(all);
    if context::unprepared(packet, intent, limits) is None {
        assert forall|key: Seq<char>|
            text::texts(packet.request.intent.invariant_refs@).contains(key)
                <==> #[trigger] all.contains(key) by {
            assert(text::in_order(all).contains(key) <==> all.contains(key));
        }
    }
}

proof fn lemma_inspection(p: StoredPlan, guards: Seq<TaskGuard>, i: int, t: int)
    requires
        0 <= i <= t < p.view.plan.packet.tasks@.len(),
        lifecycle::inspection_refusal(p, guards, i) is None,
    ensures
        store::state_of(p.tasks@, p.view.plan.packet.tasks@[t].task_id@, 0) is Some,
        lifecycle::contract_at(
            p.view.plan.metadata.contracts@,
            p.view.plan.packet.tasks@[t].task_id@,
            0,
        ) is Some,
    decreases t - i,
{
    if i < t {
        lemma_inspection(p, guards, i + 1, t);
    }
}

proof fn lemma_contract(
    contracts: Seq<model::VerificationContract>,
    id: Seq<char>,
    i: int,
)
    requires
        0 <= i,
    ensures
        match lifecycle::contract_at(contracts, id, i) {
            Some(k) => i <= k < contracts.len() && contracts[k].task_id@ == id && forall|j: int|
                i <= j < k ==> (#[trigger] contracts[j]).task_id@ != id,
            None => forall|j: int| i <= j < contracts.len() ==> (#[trigger] contracts[j]).task_id@ != id,
        },
    decreases contracts.len() - i,
{
    if i < contracts.len() {
        lemma_contract(contracts, id, i + 1);
    }
}

/// The tasks of a plan are shown only where the workspace has the plan and its request,
/// and every task has a state and a contract.
pub proof fn law_shown_tasks_have_a_state_and_a_contract(
    records: Store,
    workspace: Seq<char>,
    id: Seq<char>,
    guards: Seq<TaskGuard>,
    t: int,
) -> (at: (int, int, int))
    requires
        lifecycle::tasks_refusal(records, workspace, id, guards) is None,
    ensures
        0 <= at.0 < records.plans@.len(),
        stages::is_plan(records.plans@[at.0], workspace, id),
        ({
            let p = records.plans@[at.0];
            &&& 0 <= at.1 < records.requests@.len()
            &&& stages::is_request(
                records.requests@[at.1],
                workspace,
                p.view.plan.metadata.request_id@,
            )
            &&& 0 <= t < p.view.plan.packet.tasks@.len() ==> {
                let task = p.view.plan.packet.tasks@[t].task_id@;
                &&& 0 <= at.2 < p.view.plan.metadata.contracts@.len()
                &&& p.view.plan.metadata.contracts@[at.2].task_id@ == task
                &&& exists|s: int|
                    0 <= s < p.tasks@.len() && (#[trigger] p.tasks@[s]).task_id@ == task
            }
        }),
{
    stages::law_plans_are_found_by_name(records.plans@, workspace, id, 0);
    let k = store::plan_at(records.plans@, workspace, id, 0)->0;
    let p = records.plans@[k];
    let request = p.view.plan.metadata.request_id@;
    stages::law_requests_are_found_by_name(records.requests@, workspace, request, 0);
    let r = store::request_at(records.requests@, workspace, request, 0)->0;
    if 0 <= t < p.view.plan.packet.tasks@.len() {
        let task = p.view.plan.packet.tasks@[t].task_id@;
        lemma_inspection(p, guards, 0, t);
        lemma_contract(p.view.plan.metadata.contracts@, task, 0);
        let state = store::state_of(p.tasks@, task, 0)->0;
        stages::law_task_states_are_the_recorded_ones(p.tasks@, task, state);
        assert(stages::is_in(p.tasks@, task, state));
        reveal(stages::is_in);
        (k, r, lifecycle::contract_at(p.view.plan.metadata.contracts@, task, 0)->0)
    } else {
        (k, r, 0)
    }
}

} // verus!
