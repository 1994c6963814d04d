//! What holds of plans on their way from import to completion.
use crate::planning::completion;
use crate::planning::completion::{AcceptedVerification, EvidenceRow, ProofFacts};
use crate::planning::lifecycle;
use crate::planning::lifecycle::TaskGuard;
use crate::planning::model::{
    ExecutionPlan, Invariant, PlanState, PlannerPacket, ProjectPolicy, SourceStateRef,
    TaskInspection,
};
use crate::planning::plan;
use crate::planning::plan::PlanFacts;
use crate::protocol::{
    AgentJob, AgentRole, JobState, TaskPacket, TaskState, VerificationDecision, VerificationPacket,
};
use crate::repository::RepositoryInfo;
use crate::store;
use crate::store::{Store, StoredPlan, StoredRequest, TaskStatus};
use crate::text;
use vstd::prelude::*;

verus! {

// ---------------------------------------------------------------------------
// Records by name
// ---------------------------------------------------------------------------
/// Whether a stored plan is the one of a workspace that has a name.
pub open spec fn is_plan(p: StoredPlan, workspace: Seq<char>, id: Seq<char>) -> bool {
    p.workspace_id@ == workspace && p.view.plan.packet.plan_id@ == id
}

/// A plan is found where the workspace has one of that name, and the first such plan is.
pub proof fn law_plans_are_found_by_name(
    plans: Seq<StoredPlan>,
    workspace: Seq<char>,
    id: Seq<char>,
    i: int,
)
    requires
        0 <= i,
    ensures
        match store::plan_at(plans, workspace, id, i) {
            Some(k) => i <= k < plans.len() && is_plan(plans[k], workspace, id) && forall|j: int|
                i <= j < k ==> !is_plan(#[trigger] plans[j], workspace, id),
            None => forall|j: int|
                i <= j < plans.len() ==> !is_plan(#[trigger] plans[j], workspace, id),
        },
    decreases plans.len() - i,
{
    if i < plans.len() {
        law_plans_are_found_by_name(plans, workspace, id, i + 1);
    }
}

/// Whether a stored request is the one of a workspace that has a name.
pub open spec fn is_request(r: StoredRequest, workspace: Seq<char>, id: Seq<char>) -> bool {
    r.workspace_id@ == workspace && r.packet.request.request_id@ == id
}

/// A request is found where the workspace has one of that name, and the first such
/// request is.
pub proof fn law_requests_are_found_by_name(
    requests: Seq<StoredRequest>,
    workspace: Seq<char>,
    id: Seq<char>,
    i: int,
)
    requires
        0 <= i,
    ensures
        match store::request_at(requests, workspace, id, i) {
            Some(k) => i <= k < requests.len() && is_request(requests[k], workspace, id)
                && forall|j: int|
                i <= j < k ==> !is_request(#[trigger] requests[j], workspace, id),
            None => forall|j: int|
                i <= j < requests.len() ==> !is_request(#[trigger] requests[j], workspace, id),
        },
    decreases requests.len() - i,
{
    if i < requests.len() {
        law_requests_are_found_by_name(requests, workspace, id, i + 1);
    }
}

/// A job is found where one has that name, and the first such job is.
pub proof fn law_jobs_are_found_by_name(jobs: Seq<AgentJob>, id: Seq<char>, i: int)
    requires
        0 <= i,
    ensures
        match store::job_at(jobs, id, i) {
            Some(k) => i <= k < jobs.len() && jobs[k].job_id@ == id && forall|j: int|
                i <= j < k ==> (#[trigger] jobs[j]).job_id@ != id,
            None => forall|j: int| i <= j < jobs.len() ==> (#[trigger] jobs[j]).job_id@ != id,
        },
    decreases jobs.len() - i,
{
    if i < jobs.len() {
        law_jobs_are_found_by_name(jobs, id, i + 1);
    }
}

/// Whether a task has a state: the first record of the task says so.
#[verifier::opaque]
pub open spec fn is_in(tasks: Seq<TaskStatus>, id: Seq<char>, state: TaskState) -> bool {
    exists|n: int|
        {
            &&& 0 <= n < tasks.len()
            &&& (#[trigger] tasks[n]).task_id@ == id
            &&& tasks[n].state == state
            &&& forall|m: int| 0 <= m < n ==> (#[trigger] tasks[m]).task_id@ != id
        }
}

proof fn lemma_state_of(tasks: Seq<TaskStatus>, id: Seq<char>, i: int) -> (n: int)
    requires
        0 <= i,
    ensures
        match store::state_of(tasks, id, i) {
            Some(s) => i <= n < tasks.len() && tasks[n].task_id@ == id && tasks[n].state == s
                && forall|m: int| i <= m < n ==> (#[trigger] tasks[m]).task_id@ != id,
            None => forall|m: int| i <= m < tasks.len() ==> (#[trigger] tasks[m]).task_id@ != id,
        },
    decreases tasks.len() - i,
{
    if i >= tasks.len() || tasks[i].task_id@ == id {
        i
    } else {
        lemma_state_of(tasks, id, i + 1)
    }
}

/// The state of a task is what the first record of the task says.
pub proof fn law_task_states_are_the_recorded_ones(
    tasks: Seq<TaskStatus>,
    id: Seq<char>,
    state: TaskState,
)
    ensures
        store::state_of(tasks, id, 0) == Some(state) <==> is_in(tasks, id, state),
{
    reveal(is_in);
    let n = lemma_state_of(tasks, id, 0);
    if store::state_of(tasks, id, 0) == Some(state) {
        assert(tasks[n].task_id@ == id);
    }
    if is_in(tasks, id, state) {
        let m = choose|m: int|
            {
                &&& 0 <= m < tasks.len()
                &&& (#[trigger] tasks[m]).task_id@ == id
                &&& tasks[m].state == state
                &&& forall|j: int| 0 <= j < m ==> (#[trigger] tasks[j]).task_id@ != id
            };
        assert(tasks[m].task_id@ == id);
        if store::state_of(tasks, id, 0) is Some {
            assert(n == m);
        }
    }
}

// ---------------------------------------------------------------------------
// Readiness
// ---------------------------------------------------------------------------
proof fn lemma_waiting(dependencies: Seq<Seq<char>>, states: Seq<TaskStatus>, i: int)
    requires
        0 <= i,
    ensures
        lifecycle::waiting(dependencies, states, i).len() == 0 <==> forall|d: int|
            i <= d < dependencies.len() ==> is_in(
                states,
                #[trigger] dependencies[d],
                TaskState::Verified,
            ),
    decreases dependencies.len() - i,
{
    if i < dependencies.len() {
        lemma_waiting(dependencies, states, i + 1);
        law_task_states_are_the_recorded_ones(states, dependencies[i], TaskState::Verified);
        if lifecycle::waiting(dependencies, states, i).len() == 0 {
            assert forall|d: int| i <= d < dependencies.len() implies is_in(
                states,
                #[trigger] dependencies[d],
                TaskState::Verified,
            ) by {
                if d == i {
                    assert(is_in(states, dependencies[i], TaskState::Verified));
                }
            }
        } else if store::state_of(states, dependencies[i], 0) != Some(TaskState::Verified) {
            assert(!is_in(states, dependencies[i], TaskState::Verified));
        }
    }
}

/// A task is ready exactly where its plan is validated or active, it has not been
/// started, nothing of its own stands against it, and every task that it depends on has
/// been verified.
pub proof fn law_tasks_are_ready_when_nothing_stands_against_them(
    x: TaskInspection,
    p: StoredPlan,
    prepared: PlannerPacket,
    guards: Seq<TaskGuard>,
    contract_bytes: Seq<usize>,
    t: int,
)
    requires
        lifecycle::shows(x, p, prepared, guards, contract_bytes, t),
    ensures
        x.structurally_ready <==> {
            &&& p.view.state == PlanState::Validated || p.view.state == PlanState::Active
            &&& (x.state == TaskState::Planned && guards[t].may_be_ready) || (x.state
                == TaskState::Ready && guards[t].runnable)
            &&& forall|d: int|
                0 <= d < p.view.plan.packet.tasks@[t].dependencies@.len() ==> is_in(
                    p.tasks@,
                    (#[trigger] p.view.plan.packet.tasks@[t].dependencies@[d])@,
                    TaskState::Verified,
                )
        },
{
    let task = p.view.plan.packet.tasks@[t];
    let names = text::texts(task.dependencies@);
    let own = lifecycle::reasons(p.view.state, x.state, names, p.tasks@);
    lemma_waiting(names, p.tasks@, 0);
    assert(x.reasons@.len() == own.len()) by {
        assert(text::texts(x.reasons@).len() == x.reasons@.len());
    }
    if lifecycle::waiting(names, p.tasks@, 0).len() == 0 {
        assert forall|d: int| 0 <= d < task.dependencies@.len() implies is_in(
            p.tasks@,
            (#[trigger] task.dependencies@[d])@,
            TaskState::Verified,
        ) by {
            assert(is_in(p.tasks@, names[d], TaskState::Verified));
        }
    } else {
        let d = choose|d: int|
            0 <= d < names.len() && !is_in(p.tasks@, #[trigger] names[d], TaskState::Verified);
        assert(!is_in(p.tasks@, task.dependencies@[d]@, TaskState::Verified));
    }
}

proof fn lemma_selected(list: Seq<Invariant>, refs: Seq<Seq<char>>, i: int, n: int, v: Invariant)
    requires
        0 <= i,
    ensures
        ({
            let out = lifecycle::selected(list, refs, i);
            &&& i <= n < list.len() && refs.contains(list[n].key@) ==> out.contains(list[n])
            &&& out.contains(v) ==> refs.contains(v.key@) && list.contains(v)
        }),
    decreases list.len() - i,
{
    if i < list.len() {
        lemma_selected(list, refs, i + 1, n, v);
        let out = lifecycle::selected(list, refs, i);
        let rest = lifecycle::selected(list, refs, i + 1);
        if refs.contains(list[i].key@) {
            assert(out[0] == list[i]);
            if rest.contains(list[n]) {
                let m = choose|m: int| 0 <= m < rest.len() && rest[m] == list[n];
                assert(out[m + 1] == list[n]);
            }
            if out.contains(v) {
                let m = choose|m: int| 0 <= m < out.len() && out[m] == v;
                if m > 0 {
                    assert(rest[m - 1] == v);
                }
            }
        }
    }
}

/// An inspected task shows every prepared invariant that it names, and no other.
pub proof fn law_inspections_show_the_named_invariants(
    x: TaskInspection,
    p: StoredPlan,
    prepared: PlannerPacket,
    guards: Seq<TaskGuard>,
    contract_bytes: Seq<usize>,
    t: int,
    n: int,
    v: Invariant,
)
    requires
        lifecycle::shows(x, p, prepared, guards, contract_bytes, t),
    ensures
        ({
            let refs = text::texts(p.view.plan.packet.tasks@[t].invariant_refs@);
            let list = prepared.context.invariants@;
            &&& 0 <= n < list.len() && refs.contains(list[n].key@) ==> x.invariants@.contains(
                list[n],
            )
            &&& x.invariants@.contains(v) ==> list.contains(v) && refs.contains(v.key@)
        }),
{
    lemma_selected(
        prepared.context.invariants@,
        text::texts(p.view.plan.packet.tasks@[t].invariant_refs@),
        0,
        n,
        v,
    );
}

// ---------------------------------------------------------------------------
// Moves
// ---------------------------------------------------------------------------
/// Whether no job of a plan is still to end.
pub open spec fn at_rest(jobs: Seq<AgentJob>, plan: Seq<char>) -> bool {
    forall|j: int|
        0 <= j < jobs.len() && (#[trigger] jobs[j]).plan_id@ == plan ==> jobs[j].state
            != JobState::Queued && jobs[j].state != JobState::Running && jobs[j].state
            != JobState::Waiting
}

/// A plan is activated, or validated once more, exactly where the workspace has it, it
/// is validated and not yet active, and nothing stands against it.
pub proof fn law_only_validated_plans_are_activated(
    records: Store,
    info: RepositoryInfo,
    id: Seq<char>,
    policy: ProjectPolicy,
    facts: PlanFacts,
    k: int,
)
    requires
        0 <= k < records.plans@.len(),
        is_plan(records.plans@[k], info.workspace_id@, id),
        forall|j: int|
            0 <= j < k ==> !is_plan(#[trigger] records.plans@[j], info.workspace_id@, id),
    ensures
        ({
            let p = records.plans@[k].view;
            let may = p.state == PlanState::Validated && plan::plan_refusal(
                p.plan,
                records,
                info,
                policy,
                facts,
            ) is None;
            &&& lifecycle::activation_refusal(records, info, id, policy, facts) is None <==> may
            &&& lifecycle::revalidation_refusal(records, info, id, policy, facts) is None <==> may
        }),
{
    law_plans_are_found_by_name(records.plans@, info.workspace_id@, id, 0);
}

/// A plan is cancelled exactly where it is validated or active, none of its jobs is
/// still to end, and a reason is given.
pub proof fn law_plans_at_rest_are_cancelled(
    records: Store,
    workspace: Seq<char>,
    id: Seq<char>,
    reason: Seq<char>,
    k: int,
)
    requires
        0 <= k < records.plans@.len(),
        is_plan(records.plans@[k], workspace, id),
        forall|j: int| 0 <= j < k ==> !is_plan(#[trigger] records.plans@[j], workspace, id),
    ensures
        lifecycle::cancellation_refusal(records, workspace, id, reason) is None <==> {
            &&& records.plans@[k].view.state == PlanState::Validated
                || records.plans@[k].view.state == PlanState::Active
            &&& at_rest(records.jobs@, id)
            &&& !text::blank(reason)
            &&& !reason.contains('\0')
            &&& text::size(reason) <= 1024
        },
{
    law_plans_are_found_by_name(records.plans@, workspace, id, 0);
    lemma_quiescent(records.jobs@, id);
}

proof fn lemma_quiescent(jobs: Seq<AgentJob>, plan: Seq<char>)
    ensures
        lifecycle::quiescent(jobs, plan) <==> at_rest(jobs, plan),
{
    if at_rest(jobs, plan) {
        assert forall|i: int|
            0 <= i < jobs.len() && (#[trigger] jobs[i]).plan_id@
                == plan implies !crate::protocol::job_unfinished(jobs[i].state) by {}
    }
}

/// A plan takes the place of another exactly where the other is validated or active and
/// at rest, and where it is validated, says that it replaces just that plan, and nothing
/// stands against it.
pub proof fn law_plans_are_superseded_by_their_replacement(
    records: Store,
    info: RepositoryInfo,
    id: Seq<char>,
    other: Seq<char>,
    policy: ProjectPolicy,
    facts: PlanFacts,
    k: int,
    n: int,
)
    requires
        0 <= k < records.plans@.len(),
        is_plan(records.plans@[k], info.workspace_id@, id),
        forall|j: int|
            0 <= j < k ==> !is_plan(#[trigger] records.plans@[j], info.workspace_id@, id),
        0 <= n < records.plans@.len(),
        is_plan(records.plans@[n], info.workspace_id@, other),
        forall|j: int|
            0 <= j < n ==> !is_plan(#[trigger] records.plans@[j], info.workspace_id@, other),
    ensures
        lifecycle::supersession_refusal(records, info, id, other, policy, facts) is None <==> {
            &&& id != other
            &&& records.plans@[k].view.state == PlanState::Validated
                || records.plans@[k].view.state == PlanState::Active
            &&& at_rest(records.jobs@, id)
            &&& records.plans@[n].view.state == PlanState::Validated
            &&& records.plans@[n].view.plan.metadata.replan is Some
            &&& records.plans@[n].view.plan.metadata.replan->0.previous_plan_id@ == id
            &&& plan::plan_refusal(
                records.plans@[n].view.plan,
                records,
                info,
                policy,
                facts,
            ) is None
        },
{
    law_plans_are_found_by_name(records.plans@, info.workspace_id@, id, 0);
    law_plans_are_found_by_name(records.plans@, info.workspace_id@, other, 0);
    lemma_quiescent(records.jobs@, id);
}

/// A plan is shown by default exactly where it belongs to the workspace and can still
/// change; the one that changed last comes first, and the name decides between two.
pub proof fn law_current_plans_are_listed(a: StoredPlan, b: StoredPlan, workspace: Seq<char>)
    ensures
        lifecycle::listed(a, workspace, true),
        lifecycle::listed(a, workspace, false) <==> a.workspace_id@ == workspace && (a.view.state
            == PlanState::Validated || a.view.state == PlanState::Active),
        a.view.updated_at_ms > b.view.updated_at_ms ==> lifecycle::listed_before(a, b)
            && !lifecycle::listed_before(b, a),
        a.view.updated_at_ms == b.view.updated_at_ms ==> (lifecycle::listed_before(a, b)
            <==> text::before(a.view.plan.packet.plan_id@, b.view.plan.packet.plan_id@)),
{
}

// ---------------------------------------------------------------------------
// Completion
// ---------------------------------------------------------------------------
/// Whether some record ties evidence to a source state and a workspace.
pub open spec fn tied(
    rows: Seq<EvidenceRow>,
    id: Seq<char>,
    source: SourceStateRef,
    workspace: Seq<char>,
) -> bool {
    exists|n: int|
        {
            &&& 0 <= n < rows.len()
            &&& (#[trigger] rows[n]).evidence_id@ == id
            &&& rows[n].source is Some
            &&& crate::planning::model::same_source_ref(rows[n].source->0, source)
            &&& rows[n].workspace is Some
            &&& rows[n].workspace->0@ == workspace
        }
}

proof fn lemma_tied(
    ids: Seq<Seq<char>>,
    rows: Seq<EvidenceRow>,
    source: SourceStateRef,
    workspace: Seq<char>,
    i: int,
)
    requires
        completion::all_evidence_binds(ids, rows, source, workspace),
        0 <= i < ids.len(),
    ensures
        tied(rows, ids[i], source, workspace),
{
    assert(completion::evidence_binds(rows, ids[i], source, workspace));
    let n = choose|n: int|
        0 <= n < rows.len() && (#[trigger] rows[n]).evidence_id@ == ids[i] && completion::binds(
            rows[n],
            source,
            workspace,
        );
    assert(rows[n].evidence_id@ == ids[i]);
}

proof fn lemma_jobs(
    jobs: Seq<AgentJob>,
    ids: Seq<Seq<char>>,
    plan: Seq<char>,
    workspace: Seq<char>,
    i: int,
    n: int,
) -> (k: int)
    requires
        0 <= i <= n < ids.len(),
        completion::jobs_refusal(jobs, ids, plan, workspace, i) is None,
    ensures
        0 <= k < jobs.len(),
        jobs[k].job_id@ == ids[n],
        jobs[k].plan_id@ == plan,
        jobs[k].state == JobState::Succeeded,
        jobs[k].workspace_id is Some,
        jobs[k].workspace_id->0@ == workspace,
    decreases n - i,
{
    law_jobs_are_found_by_name(jobs, ids[i], 0);
    if i == n {
        store::job_at(jobs, ids[i], 0)->0
    } else {
        lemma_jobs(jobs, ids, plan, workspace, i + 1, n)
    }
}

proof fn lemma_accepted(
    tasks: Seq<TaskPacket>,
    accepted: Seq<AcceptedVerification>,
    i: int,
    n: int,
)
    requires
        0 <= i <= n < tasks.len(),
        completion::accepted_refusal(tasks, accepted, i) is None,
    ensures
        accepted[n].verification is Some ==> {
            &&& accepted[n].shape is None
            &&& accepted[n].verifier is None
            &&& accepted[n].verification->0.decision == VerificationDecision::Pass
            &&& accepted[n].verification->0.target is Packet
            &&& accepted[n].verification->0.target->Packet_task_id@ == tasks[n].task_id@
        },
    decreases n - i,
{
    if i < n {
        lemma_accepted(tasks, accepted, i + 1, n);
    }
}

/// A plan is completed only on an integration verdict of a verifier job of the whole plan
/// that has succeeded, over tasks that were each passed, on evidence that is tied to the
/// final source and the workspace, under the policy that the plan was made for.
pub proof fn law_completion_rests_on_an_integration_verdict(
    plan: ExecutionPlan,
    prepared: PlannerPacket,
    policy: ProjectPolicy,
    workspace: Seq<char>,
    given: VerificationPacket,
    source: SourceStateRef,
    facts: ProofFacts,
    t: int,
    e: int,
    x: int,
) -> (jobs: (int, int))
    requires
        facts.accepted@.len() == plan.packet.tasks@.len(),
        completion::proof_refusal(plan, prepared, policy, workspace, given, source, facts) is None,
    ensures
        plan.metadata.source.policy_hash@ == facts.policy_hash@,
        given.target is Integration,
        0 <= t < plan.packet.tasks@.len() ==> {
            let a = facts.accepted@[t];
            &&& a.verification is Some
            &&& a.shape is None
            &&& a.verifier is None
            &&& a.verification->0.decision == VerificationDecision::Pass
            &&& a.verification->0.target is Packet
            &&& a.verification->0.target->Packet_task_id@ == plan.packet.tasks@[t].task_id@
        },
        given.evidence@.len() > 0,
        facts.evidence_refusal is None,
        0 <= e < given.evidence@.len() ==> tied(
            facts.evidence@,
            given.evidence@[e]@,
            source,
            workspace,
        ),
        0 <= jobs.0 < facts.jobs@.len(),
        ({
            let v = facts.jobs@[jobs.0];
            &&& v.job_id@ == given.verifier_job_id@
            &&& v.role == AgentRole::Verifier
            &&& v.plan_id@ == plan.packet.plan_id@
            &&& v.task_id is None
            &&& v.state == JobState::Succeeded
            &&& v.workspace_id is Some
            &&& v.workspace_id->0@ == workspace
        }),
        0 <= x < given.target->executor_job_ids@.len() ==> {
            let v = facts.jobs@[jobs.1];
            &&& 0 <= jobs.1 < facts.jobs@.len()
            &&& v.job_id@ == given.target->executor_job_ids@[x]@
            &&& v.plan_id@ == plan.packet.plan_id@
            &&& v.state == JobState::Succeeded
            &&& v.workspace_id is Some
            &&& v.workspace_id->0@ == workspace
        },
{
    let id = plan.packet.plan_id@;
    let named = text::texts(given.target->executor_job_ids@);
    let all = named.push(given.verifier_job_id@);
    law_jobs_are_found_by_name(facts.jobs@, given.verifier_job_id@, 0);
    let v = store::job_at(facts.jobs@, given.verifier_job_id@, 0)->0;
    let last = lemma_jobs_at(facts.jobs@, all, id, workspace, named.len() as int);
    assert(last == v);
    if 0 <= t < plan.packet.tasks@.len() {
        completion::law_completion_needs_a_pass_for_every_task(
            plan,
            prepared,
            policy,
            workspace,
            given,
            source,
            facts,
            t,
        );
        lemma_accepted(plan.packet.tasks@, facts.accepted@, 0, t);
    }
    if 0 <= e < given.evidence@.len() {
        lemma_tied(text::texts(given.evidence@), facts.evidence@, source, workspace, e);
    }
    assert(text::texts(given.evidence@).len() == given.evidence@.len());
    if 0 <= x < named.len() {
        assert(all[x] == named[x]);
        (v, lemma_jobs(facts.jobs@, all, id, workspace, 0, x))
    } else {
        (v, 0)
    }
}

proof fn lemma_jobs_at(
    jobs: Seq<AgentJob>,
    ids: Seq<Seq<char>>,
    plan: Seq<char>,
    workspace: Seq<char>,
    n: int,
) -> (k: int)
    requires
        0 <= n < ids.len(),
        completion::jobs_refusal(jobs, ids, plan, workspace, 0) is None,
    ensures
        store::job_at(jobs, ids[n], 0) == Some(k),
        0 <= k < jobs.len(),
        jobs[k].state == JobState::Succeeded,
        jobs[k].workspace_id is Some,
        jobs[k].workspace_id->0@ == workspace,
{
    lemma_jobs_from(jobs, ids, plan, workspace, 0, n)
}

proof fn lemma_jobs_from(
    jobs: Seq<AgentJob>,
    ids: Seq<Seq<char>>,
    plan: Seq<char>,
    workspace: Seq<char>,
    i: int,
    n: int,
) -> (k: int)
    requires
        0 <= i <= n < ids.len(),
        completion::jobs_refusal(jobs, ids, plan, workspace, i) is None,
    ensures
        store::job_at(jobs, ids[n], 0) == Some(k),
        0 <= k < jobs.len(),
        jobs[k].state == JobState::Succeeded,
        jobs[k].workspace_id is Some,
        jobs[k].workspace_id->0@ == workspace,
    decreases n - i,
{
    law_jobs_are_found_by_name(jobs, ids[i], 0);
    if i == n {
        store::job_at(jobs, ids[i], 0)->0
    } else {
        lemma_jobs_from(jobs, ids, plan, workspace, i + 1, n)
    }
}

} // verus!
