//! What justifies the completion of a plan: the accepted verification of every
//! task, the jobs behind them, and evidence of the final source.
use crate::error::{invalid, Error};
use crate::planning::model::{
    ExecutionPlan, Invariant, PlannerPacket, ProjectPolicy, SourceStateRef,
};
use crate::planning::validation;
use crate::planning::validation::Objection;
use crate::protocol;
use crate::protocol::{
    AgentJob, AgentRole, JobState, PlanPacket, TaskPacket, TaskState, VerificationDecision,
    VerificationPacket, VerificationTarget,
};
use crate::repository::WorkspaceId;
use crate::store;
use crate::store::TaskStatus;
use crate::text;
use vstd::prelude::*;

verus! {

// ---------------------------------------------------------------------------
// Evidence
// ---------------------------------------------------------------------------

/// A stored evidence record: the source it was taken of, and its workspace.
#[derive(Debug)]
pub struct EvidenceRow {
    pub evidence_id: String,
    pub source: Option<SourceStateRef>,
    pub workspace: Option<String>,
}

/// Whether an evidence record binds a final source in a workspace.
pub open spec fn binds(row: EvidenceRow, source: SourceStateRef, workspace: Seq<char>) -> bool {
    &&& row.source matches Some(s) && crate::planning::model::same_source_ref(s, source)
    &&& validation::is_text(row.workspace, workspace)
}

/// Whether a named evidence record binds a final source in a workspace.
pub open spec fn evidence_binds(
    rows: Seq<EvidenceRow>,
    id: Seq<char>,
    source: SourceStateRef,
    workspace: Seq<char>,
) -> bool {
    exists|i: int|
        0 <= i < rows.len() && (#[trigger] rows[i]).evidence_id@ == id && binds(
            rows[i],
            source,
            workspace,
        )
}

fn bound_evidence(
    rows: &Vec<EvidenceRow>,
    id: &str,
    source: &SourceStateRef,
    workspace: &str,
) -> (r: bool)
    ensures
        r == evidence_binds(rows@, id@, *source, workspace@),
{
    let mut i: usize = 0;
    while i < rows.len()
        invariant
            i <= rows@.len(),
            forall|j: int|
                0 <= j < i ==> !((#[trigger] rows@[j]).evidence_id@ == id@ && binds(
                    rows@[j],
                    *source,
                    workspace@,
                )),
        decreases rows@.len() - i,
    {
        if text::same(rows[i].evidence_id.as_str(), id) {
            let taken: bool = match &rows[i].source {
                Some(s) => s.same(source),
                None => false,
            };
            if taken && validation::holds_text(&rows[i].workspace, workspace) {
                return true;
            }
        }
        i += 1;
    }
    false
}

/// Whether every named evidence record binds a final source in a workspace.
pub open spec fn all_evidence_binds(
    ids: Seq<Seq<char>>,
    rows: Seq<EvidenceRow>,
    source: SourceStateRef,
    workspace: Seq<char>,
) -> bool {
    forall|i: int|
        0 <= i < ids.len() ==> evidence_binds(rows, #[trigger] ids[i], source, workspace)
}

/// Why the evidence of an integration is not acceptable, if anything. What the
/// evidence rule of the store says comes first.
pub open spec fn evidence_refusal(
    ids: Seq<Seq<char>>,
    stored_refusal: Option<String>,
    rows: Seq<EvidenceRow>,
    source: SourceStateRef,
    workspace: Seq<char>,
    unbound: Seq<char>,
) -> Option<Seq<char>> {
    crate::error::either(
        validation::message(stored_refusal),
        if ids.len() == 0 {
            Some("integration requires final evidence"@)
        } else if !all_evidence_binds(ids, rows, source, workspace) {
            Some(unbound)
        } else {
            None
        },
    )
}

fn evidence_acceptable(
    ids: &Vec<String>,
    stored_refusal: &Option<String>,
    rows: &Vec<EvidenceRow>,
    source: &SourceStateRef,
    workspace: &str,
    unbound: &str,
) -> (r: Result<(), Error>)
    ensures
        crate::error::settles(
            r,
            evidence_refusal(
                text::texts(ids@),
                *stored_refusal,
                rows@,
                *source,
                workspace@,
                unbound@,
            ),
        ),
{
    match validation::unless(stored_refusal) {
        Ok(()) => {},
        Err(e) => return Err(e),
    }
    if ids.len() == 0 {
        return invalid("integration requires final evidence");
    }
    let ghost all = text::texts(ids@);
    let mut i: usize = 0;
    while i < ids.len()
        invariant
            all == text::texts(ids@),
            i <= ids@.len(),
            ids@.len() > 0,
            stored_refusal is None,
            forall|j: int|
                0 <= j < i ==> evidence_binds(rows@, #[trigger] all[j], *source, workspace@),
        decreases ids@.len() - i,
    {
        assert(all[i as int] == ids@[i as int]@);
        if !bound_evidence(rows, ids[i].as_str(), source, workspace) {
            assert(!evidence_binds(rows@, all[i as int], *source, workspace@));
            return invalid(unbound);
        }
        i += 1;
    }
    Ok(())
}

// ---------------------------------------------------------------------------
// Jobs
// ---------------------------------------------------------------------------

/// Whether a job is the succeeded verifier of a whole plan.
pub open spec fn verifies_plan(job: AgentJob, plan: Seq<char>) -> bool {
    job.role == AgentRole::Verifier && job.plan_id@ == plan && job.task_id is None && job.state
        == JobState::Succeeded
}

fn is_plan_verifier(job: &AgentJob, plan: &str) -> (r: bool)
    ensures
        r == verifies_plan(*job, plan@),
{
    job.role == AgentRole::Verifier && text::same(job.plan_id.as_str(), plan)
        && job.task_id.is_none() && job.state == JobState::Succeeded
}

/// Why the jobs behind an integration are not acceptable, from the `i`-th on.
pub open spec fn jobs_refusal(
    jobs: Seq<AgentJob>,
    ids: Seq<Seq<char>>,
    plan: Seq<char>,
    workspace: Seq<char>,
    i: int,
) -> Option<Seq<char>>
    decreases ids.len() - i,
{
    if i < 0 || i >= ids.len() {
        None
    } else {
        match store::job_at(jobs, ids[i], 0) {
            None => Some("integration job is not registered"@),
            Some(k) => if !(jobs[k].plan_id@ == plan && jobs[k].state == JobState::Succeeded) {
                Some("integration job has wrong plan or unfinished state"@)
            } else if !validation::is_text(jobs[k].workspace_id, workspace) {
                Some("integration jobs must belong to the plan workspace"@)
            } else {
                jobs_refusal(jobs, ids, plan, workspace, i + 1)
            },
        }
    }
}

fn jobs_acceptable(jobs: &Vec<AgentJob>, ids: &Vec<String>, plan: &str, workspace: &str) -> (r: Result<
    (),
    Error,
>)
    ensures
        crate::error::settles(r, jobs_refusal(jobs@, text::texts(ids@), plan@, workspace@, 0)),
{
    let ghost all = text::texts(ids@);
    let mut i: usize = 0;
    while i < ids.len()
        invariant
            all == text::texts(ids@),
            i <= ids@.len(),
            jobs_refusal(jobs@, all, plan@, workspace@, 0) == jobs_refusal(
                jobs@,
                all,
                plan@,
                workspace@,
                i as int,
            ),
        decreases ids@.len() - i,
    {
        assert(all[i as int] == ids@[i as int]@);
        match store::find_job(jobs, ids[i].as_str()) {
            None => return invalid("integration job is not registered"),
            Some(k) => {
                if !(text::same(jobs[k].plan_id.as_str(), plan) && jobs[k].state
                    == JobState::Succeeded) {
                    return invalid("integration job has wrong plan or unfinished state");
                }
                if !validation::holds_text(&jobs[k].workspace_id, workspace) {
                    return invalid("integration jobs must belong to the plan workspace");
                }
            },
        }
        i += 1;
    }
    Ok(())
}

// ---------------------------------------------------------------------------
// Accepted verifications
// ---------------------------------------------------------------------------

/// The last recorded verification of a task that made it VERIFIED, with what
/// the protocol and the verifier rule of the store have against it.
#[derive(Debug)]
pub struct AcceptedVerification {
    pub verification: Option<VerificationPacket>,
    pub shape: Option<String>,
    pub verifier: Option<String>,
}

/// Whether a verification passes a task.
pub open spec fn passes(v: VerificationPacket, task: Seq<char>) -> bool {
    &&& v.decision == VerificationDecision::Pass
    &&& v.target matches VerificationTarget::Packet { task_id, .. } && task_id@ == task
}

/// Why the accepted verifications from the `i`-th task on are not acceptable.
pub open spec fn accepted_refusal(
    tasks: Seq<TaskPacket>,
    accepted: Seq<AcceptedVerification>,
    i: int,
) -> Option<Seq<char>>
    decreases tasks.len() - i,
{
    if i < 0 || i >= tasks.len() {
        None
    } else {
        crate::error::either(
            match accepted[i].verification {
                None => None,
                Some(v) => crate::error::either(
                    validation::message(accepted[i].shape),
                    if !passes(v, tasks[i].task_id@) {
                        Some("accepted packet verification must be PASS for the task"@)
                    } else {
                        validation::message(accepted[i].verifier)
                    },
                ),
            },
            accepted_refusal(tasks, accepted, i + 1),
        )
    }
}

/// The executor jobs that the first `k` accepted verifications speak of.
pub open spec fn executors(accepted: Seq<AcceptedVerification>, k: int) -> Seq<Seq<char>>
    decreases k,
{
    if k <= 0 {
        Seq::empty()
    } else {
        match accepted[k - 1].verification {
            Some(v) => match v.target {
                VerificationTarget::Packet { executor_job_id, .. } => executors(
                    accepted,
                    k - 1,
                ).push(executor_job_id@),
                _ => executors(accepted, k - 1),
            },
            None => executors(accepted, k - 1),
        }
    }
}

fn accepted_executors(tasks: &Vec<TaskPacket>, accepted: &Vec<AcceptedVerification>) -> (r: Result<
    Vec<String>,
    Error,
>)
    requires
        accepted@.len() == tasks@.len(),
    ensures
        crate::error::settles(r, accepted_refusal(tasks@, accepted@, 0)),
        r matches Ok(v) ==> text::texts(v@) == executors(accepted@, accepted@.len() as int),
{
    let mut out: Vec<String> = Vec::new();
    let mut i: usize = 0;
    while i < tasks.len()
        invariant
            i <= tasks@.len(),
            accepted@.len() == tasks@.len(),
            accepted_refusal(tasks@, accepted@, 0) == accepted_refusal(
                tasks@,
                accepted@,
                i as int,
            ),
            text::texts(out@) == executors(accepted@, i as int),
        decreases tasks@.len() - i,
    {
        let ghost so_far = text::texts(out@);
        if let Some(v) = &accepted[i].verification {
            if let Some(m) = &accepted[i].shape {
                return invalid(m.as_str());
            }
            let target: bool = match &v.target {
                VerificationTarget::Packet { task_id, .. } => text::same(
                    task_id.as_str(),
                    tasks[i].task_id.as_str(),
                ),
                _ => false,
            };
            if !(target && v.decision == VerificationDecision::Pass) {
                return invalid("accepted packet verification must be PASS for the task");
            }
            if let Some(m) = &accepted[i].verifier {
                return invalid(m.as_str());
            }
            if let VerificationTarget::Packet { executor_job_id, .. } = &v.target {
                out.push(executor_job_id.clone());
                assert(text::texts(out@) =~= so_far.push(executor_job_id@));
            }
        }
        i += 1;
    }
    Ok(out)
}

/// Whether the executor jobs that a proof names are exactly those whose work
/// was accepted, one for each task.
pub open spec fn executors_match(accepted: Seq<Seq<char>>, tasks: int, named: Seq<Seq<char>>) -> bool {
    accepted.to_set().len() == tasks && accepted.to_set() == named.to_set()
}

fn executors_agree(accepted: &Vec<String>, tasks: usize, named: &Vec<String>) -> (r: bool)
    ensures
        r == executors_match(text::texts(accepted@), tasks as int, text::texts(named@)),
{
    text::distinct(accepted) == tasks && text::same_set(accepted, named)
}

// ---------------------------------------------------------------------------
// The proof of an integration
// ---------------------------------------------------------------------------

/// What the completion of a plan is held against, beside the policy.
#[derive(Debug)]
pub struct ProofFacts {
    pub policy_hash: String,
    pub canonical: Vec<Invariant>,
    pub identifiers: Vec<Objection>,
    pub jobs: Vec<AgentJob>,
    /// The accepted verifications, in the order of the plan packet.
    pub accepted: Vec<AcceptedVerification>,
    pub evidence_refusal: Option<String>,
    pub evidence: Vec<EvidenceRow>,
}

pub const UNBOUND_EVIDENCE: &'static str =
    "integration evidence must bind the submitted final source and workspace";

/// Why a proof does not justify the completion of a plan, if anything.
pub open spec fn proof_refusal(
    plan: ExecutionPlan,
    prepared: PlannerPacket,
    policy: ProjectPolicy,
    workspace: Seq<char>,
    given: VerificationPacket,
    source: SourceStateRef,
    facts: ProofFacts,
) -> Option<Seq<char>> {
    let refs = text::texts(prepared.request.intent.invariant_refs@);
    let id = plan.packet.plan_id@;
    let tasks = plan.packet.tasks@;
    crate::error::either(
        validation::invariants_refusal(
            refs,
            policy.invariants@,
            facts.canonical@,
            facts.identifiers@,
        ),
        if !validation::invariants_current(
            refs,
            policy.invariants@,
            facts.canonical@,
            prepared.context.invariants@,
        ) {
            Some("critical invariant text drifted before completion"@)
        } else if plan.metadata.source.policy_hash@ != facts.policy_hash@ {
            Some("verification policy drifted; explicit replan required"@)
        } else {
            match store::job_at(facts.jobs@, given.verifier_job_id@, 0) {
                None => Some("integration verifier is not registered"@),
                Some(k) => if !verifies_plan(facts.jobs@[k], id) {
                    Some("integration requires a succeeded plan-level verifier job"@)
                } else {
                    match given.target {
                        VerificationTarget::Packet { .. } => Some("expected integration target"@),
                        VerificationTarget::Integration { executor_job_ids, .. } => {
                            let named = text::texts(executor_job_ids@);
                            crate::error::either(
                                accepted_refusal(tasks, facts.accepted@, 0),
                                if !executors_match(
                                    executors(facts.accepted@, facts.accepted@.len() as int),
                                    tasks.len() as int,
                                    named,
                                ) {
                                    Some(
                                        "integration executor set must match every accepted packet verification"@,
                                    )
                                } else {
                                    crate::error::either(
                                        jobs_refusal(
                                            facts.jobs@,
                                            named.push(given.verifier_job_id@),
                                            id,
                                            workspace,
                                            0,
                                        ),
                                        evidence_refusal(
                                            text::texts(given.evidence@),
                                            facts.evidence_refusal,
                                            facts.evidence@,
                                            source,
                                            workspace,
                                            UNBOUND_EVIDENCE@,
                                        ),
                                    )
                                },
                            )
                        },
                    }
                },
            }
        },
    )
}

/// Checks that a proof justifies the completion of a plan.
pub fn integration_proof(
    plan: &ExecutionPlan,
    prepared: &PlannerPacket,
    policy: &ProjectPolicy,
    workspace: &WorkspaceId,
    given: &VerificationPacket,
    source: &SourceStateRef,
    facts: &ProofFacts,
) -> (r: Result<(), Error>)
    requires
        facts.accepted@.len() == plan.packet.tasks@.len(),
    ensures
        crate::error::settles(
            r,
            proof_refusal(*plan, *prepared, *policy, workspace@, *given, *source, *facts),
        ),
{
    let refs: &Vec<String> = &prepared.request.intent.invariant_refs;
    let id: &str = plan.packet.plan_id.as_str();
    match validation::validate_invariants(
        refs,
        &policy.invariants,
        &facts.canonical,
        &facts.identifiers,
    ) {
        Ok(()) => {},
        Err(e) => return Err(e),
    }
    if !validation::invariants_unchanged(
        refs,
        &policy.invariants,
        &facts.canonical,
        &prepared.context.invariants,
    ) {
        return invalid("critical invariant text drifted before completion");
    }
    if !text::same(plan.metadata.source.policy_hash.as_str(), facts.policy_hash.as_str()) {
        return invalid("verification policy drifted; explicit replan required");
    }
    match store::find_job(&facts.jobs, given.verifier_job_id.as_str()) {
        None => return invalid("integration verifier is not registered"),
        Some(k) => {
            if !is_plan_verifier(&facts.jobs[k], id) {
                return invalid("integration requires a succeeded plan-level verifier job");
            }
        },
    }
    match &given.target {
        VerificationTarget::Packet { .. } => invalid("expected integration target"),
        VerificationTarget::Integration { executor_job_ids, .. } => {
            let accepted: Vec<String> = match accepted_executors(
                &plan.packet.tasks,
                &facts.accepted,
            ) {
                Ok(v) => v,
                Err(e) => return Err(e),
            };
            if !executors_agree(&accepted, plan.packet.tasks.len(), executor_job_ids) {
                return invalid(
                    "integration executor set must match every accepted packet verification",
                );
            }
            let mut involved: Vec<String> = text::copied(executor_job_ids);
            involved.push(given.verifier_job_id.clone());
            assert(text::texts(involved@) =~= text::texts(executor_job_ids@).push(
                given.verifier_job_id@,
            ));
            match jobs_acceptable(&facts.jobs, &involved, id, workspace.as_str()) {
                Ok(()) => {},
                Err(e) => return Err(e),
            }
            evidence_acceptable(
                &given.evidence,
                &facts.evidence_refusal,
                &facts.evidence,
                source,
                workspace.as_str(),
                UNBOUND_EVIDENCE,
            )
        },
    }
}

proof fn lemma_accepted(tasks: Seq<TaskPacket>, accepted: Seq<AcceptedVerification>, from: int, i: int)
    requires
        0 <= from <= i < tasks.len(),
        accepted_refusal(tasks, accepted, from) is None,
    ensures
        accepted[i].verification matches Some(v) ==> passes(v, tasks[i].task_id@),
    decreases i - from,
{
    if from < i {
        lemma_accepted(tasks, accepted, from + 1, i);
    }
}

proof fn lemma_executors_bounded(accepted: Seq<AcceptedVerification>, k: int)
    requires
        0 <= k <= accepted.len(),
    ensures
        executors(accepted, k).len() <= k,
        executors(accepted, k).len() == k ==> forall|i: int|
            0 <= i < k ==> (#[trigger] accepted[i]).verification is Some,
    decreases k,
{
    if k > 0 {
        lemma_executors_bounded(accepted, k - 1);
    }
}

/// A plan is only ever completed where every one of its tasks has an accepted
/// PASS of its own.
pub proof fn law_completion_needs_a_pass_for_every_task(
    plan: ExecutionPlan,
    prepared: PlannerPacket,
    policy: ProjectPolicy,
    workspace: Seq<char>,
    given: VerificationPacket,
    source: SourceStateRef,
    facts: ProofFacts,
    i: int,
)
    requires
        facts.accepted@.len() == plan.packet.tasks@.len(),
        proof_refusal(plan, prepared, policy, workspace, given, source, facts) is None,
        0 <= i < plan.packet.tasks@.len(),
    ensures
        facts.accepted@[i].verification matches Some(v) && passes(v, plan.packet.tasks@[i].task_id@),
        given.evidence@.len() > 0,
{
    let all = executors(facts.accepted@, facts.accepted@.len() as int);
    lemma_accepted(plan.packet.tasks@, facts.accepted@, 0, i);
    lemma_executors_bounded(facts.accepted@, facts.accepted@.len() as int);
    all.lemma_cardinality_of_set();
    assert(all.len() == facts.accepted@.len());
}

// ---------------------------------------------------------------------------
// Replaying recorded history
// ---------------------------------------------------------------------------

/// A recorded change of a task's state.
#[derive(Debug)]
pub struct Transition {
    pub sequence: i64,
    pub task_id: String,
    pub workspace: Option<String>,
    pub job: Option<String>,
    pub from: TaskState,
    pub to: TaskState,
    pub verification: Option<VerificationPacket>,
}

/// The states that recorded changes lead to, and the executor jobs whose work
/// they accepted.
#[derive(Debug)]
pub struct Replay {
    pub states: Vec<TaskStatus>,
    pub executors: Vec<String>,
}

/// Why a recorded change does not follow from those before it, if it does not.
/// `prior` is the state that they left its task in, `guard` what the protocol
/// has against the change in the replayed states, and `verifier` what the
/// verifier rule of the store has against its verification.
pub open spec fn transition_refusal(
    prior: Option<TaskState>,
    row: Transition,
    completion_sequence: i64,
    tasks: Seq<TaskPacket>,
    workspace: Seq<char>,
    guard: Option<String>,
    verifier: Option<String>,
) -> Option<Seq<char>> {
    if row.sequence >= completion_sequence {
        Some("task transition occurs after completion audit"@)
    } else if prior != Some(row.from) {
        Some("task "@ + row.task_id@ + " history has an inconsistent prior state"@)
    } else {
        crate::error::either(
            validation::message(guard),
            match row.verification {
                None => None,
                Some(v) => if protocol::task_at(tasks, row.task_id@, 0) is None {
                    Some("audit references an unknown task"@)
                } else {
                    crate::error::either(
                        validation::message(verifier),
                        if !(validation::is_text(row.workspace, workspace) && validation::is_text(
                            row.job,
                            v.verifier_job_id@,
                        )) {
                            Some(
                                "packet verification audit has incorrect workspace/job ownership"@,
                            )
                        } else {
                            None
                        },
                    )
                },
            },
        )
    }
}

/// The executor job that a recorded change accepts the work of, if any.
pub open spec fn accepts(row: Transition) -> Option<Seq<char>> {
    match row.verification {
        Some(v) => match v.target {
            VerificationTarget::Packet { executor_job_id, .. } => if row.to == TaskState::Verified {
                Some(executor_job_id@)
            } else {
                None
            },
            _ => None,
        },
        None => None,
    }
}

/// Whether two lists of recorded states agree on every task.
pub open spec fn same_states(a: Seq<TaskStatus>, b: Seq<TaskStatus>) -> bool {
    forall|id: Seq<char>| #[trigger] store::state_of(a, id, 0) == store::state_of(b, id, 0)
}

proof fn lemma_state_of_absent(tasks: Seq<TaskStatus>, id: Seq<char>, i: int)
    requires
        0 <= i,
        forall|j: int| i <= j < tasks.len() ==> (#[trigger] tasks[j]).task_id@ != id,
    ensures
        store::state_of(tasks, id, i) is None,
    decreases tasks.len() - i,
{
    if i < tasks.len() {
        lemma_state_of_absent(tasks, id, i + 1);
    }
}

/// Every recorded state belongs to a task that is listed.
proof fn lemma_state_of_listed(tasks: Seq<TaskStatus>, id: Seq<char>, i: int)
    requires
        0 <= i,
        store::state_of(tasks, id, i) is Some,
    ensures
        exists|j: int| i <= j < tasks.len() && (#[trigger] tasks[j]).task_id@ == id,
    decreases tasks.len() - i,
{
    if i < tasks.len() && tasks[i].task_id@ != id {
        lemma_state_of_listed(tasks, id, i + 1);
    }
}

proof fn lemma_state_update(
    before: Seq<TaskStatus>,
    after: Seq<TaskStatus>,
    k: int,
    id: Seq<char>,
    i: int,
)
    requires
        0 <= i <= k < before.len(),
        after.len() == before.len(),
        after[k].task_id@ == before[k].task_id@,
        forall|j: int| 0 <= j < before.len() && j != k ==> (#[trigger] after[j]) == before[j],
        forall|j: int| 0 <= j < k ==> (#[trigger] before[j]).task_id@ != before[k].task_id@,
    ensures
        store::state_of(after, id, i) == if id == before[k].task_id@ {
            Some(after[k].state)
        } else {
            store::state_of(before, id, i)
        },
    decreases k - i,
{
    if i < k {
        lemma_state_update(before, after, k, id, i + 1);
    } else if id != before[k].task_id@ {
        lemma_state_tail(before, after, id, k + 1);
    }
}

proof fn lemma_state_tail(before: Seq<TaskStatus>, after: Seq<TaskStatus>, id: Seq<char>, i: int)
    requires
        0 <= i,
        after.len() == before.len(),
        forall|j: int| i <= j < before.len() ==> (#[trigger] after[j]) == before[j],
    ensures
        store::state_of(after, id, i) == store::state_of(before, id, i),
    decreases before.len() - i,
{
    if i < before.len() {
        lemma_state_tail(before, after, id, i + 1);
    }
}

fn included(a: &Vec<TaskStatus>, b: &Vec<TaskStatus>) -> (r: bool)
    ensures
        r == (forall|i: int|
            0 <= i < a@.len() ==> store::state_of(b@, (#[trigger] a@[i]).task_id@, 0)
                == store::state_of(a@, a@[i].task_id@, 0)),
{
    let mut i: usize = 0;
    while i < a.len()
        invariant
            i <= a@.len(),
            forall|j: int|
                0 <= j < i ==> store::state_of(b@, (#[trigger] a@[j]).task_id@, 0)
                    == store::state_of(a@, a@[j].task_id@, 0),
        decreases a@.len() - i,
    {
        let id: &str = a[i].task_id.as_str();
        if store::task_state(b, id) != store::task_state(a, id) {
            return false;
        }
        i += 1;
    }
    true
}

fn states_agree(a: &Vec<TaskStatus>, b: &Vec<TaskStatus>) -> (r: bool)
    ensures
        r == same_states(a@, b@),
{
    let r: bool = included(a, b) && included(b, a);
    proof {
        if r {
            assert forall|id: Seq<char>| #[trigger]
                store::state_of(a@, id, 0) == store::state_of(b@, id, 0) by {
                if store::state_of(a@, id, 0) is Some {
                    lemma_state_of_listed(a@, id, 0);
                    let j = choose|j: int| 0 <= j < a@.len() && (#[trigger] a@[j]).task_id@ == id;
                    assert(a@[j].task_id@ == id);
                } else if store::state_of(b@, id, 0) is Some {
                    lemma_state_of_listed(b@, id, 0);
                    let j = choose|j: int| 0 <= j < b@.len() && (#[trigger] b@[j]).task_id@ == id;
                    assert(b@[j].task_id@ == id);
                }
            }
        }
    }
    r
}

impl Replay {
    /// Before any change every task is PLANNED.
    pub fn begin(packet: &PlanPacket) -> (r: Self)
        ensures
            r.executors@.len() == 0,
            r.states@.len() == packet.tasks@.len(),
            forall|i: int|
                0 <= i < r.states@.len() ==> (#[trigger] r.states@[i]).task_id
                    == packet.tasks@[i].task_id && r.states@[i].state == TaskState::Planned,
    {
        let mut states: Vec<TaskStatus> = Vec::new();
        let mut i: usize = 0;
        while i < packet.tasks.len()
            invariant
                i <= packet.tasks@.len(),
                states@.len() == i,
                forall|j: int|
                    0 <= j < i ==> (#[trigger] states@[j]).task_id == packet.tasks@[j].task_id
                        && states@[j].state == TaskState::Planned,
            decreases packet.tasks@.len() - i,
        {
            states.push(
                TaskStatus {
                    task_id: packet.tasks[i].task_id.clone(),
                    state: TaskState::Planned,
                },
            );
            i += 1;
        }
        Replay { states, executors: Vec::new() }
    }

    /// Follows one recorded change. A change that does not follow is refused
    /// and changes nothing; one that does changes the state of its task alone.
    pub fn follow(
        &mut self,
        row: &Transition,
        completion_sequence: i64,
        tasks: &Vec<TaskPacket>,
        workspace: &WorkspaceId,
        guard: &Option<String>,
        verifier: &Option<String>,
    ) -> (r: Result<(), Error>)
        ensures
            crate::error::settles(
                r,
                transition_refusal(
                    store::state_of(old(self).states@, row.task_id@, 0),
                    *row,
                    completion_sequence,
                    tasks@,
                    workspace@,
                    *guard,
                    *verifier,
                ),
            ),
            r is Err ==> *final(self) == *old(self),
            r is Ok ==> forall|id: Seq<char>|
                store::state_of(final(self).states@, id, 0) == if id == row.task_id@ {
                    Some(row.to)
                } else {
                    #[trigger] store::state_of(old(self).states@, id, 0)
                },
            r is Ok ==> text::texts(final(self).executors@) == match accepts(*row) {
                Some(job) => text::texts(old(self).executors@).push(job),
                None => text::texts(old(self).executors@),
            },
            final(self).states@.len() == old(self).states@.len(),
    {
        if row.sequence >= completion_sequence {
            return invalid("task transition occurs after completion audit");
        }
        if store::task_state(&self.states, row.task_id.as_str()) != Some(row.from) {
            let m: String = text::join3(
                "task ",
                row.task_id.as_str(),
                " history has an inconsistent prior state",
            );
            return invalid(m.as_str());
        }
        match validation::unless(guard) {
            Ok(()) => {},
            Err(e) => return Err(e),
        }
        if let Some(v) = &row.verification {
            if protocol::find_task(tasks, row.task_id.as_str()).is_none() {
                return invalid("audit references an unknown task");
            }
            match validation::unless(verifier) {
                Ok(()) => {},
                Err(e) => return Err(e),
            }
            if !(validation::holds_text(&row.workspace, workspace.as_str())
                && validation::holds_text(&row.job, v.verifier_job_id.as_str())) {
                return invalid("packet verification audit has incorrect workspace/job ownership");
            }
            if row.to == TaskState::Verified {
                if let VerificationTarget::Packet { executor_job_id, .. } = &v.target {
                    let ghost so_far = text::texts(self.executors@);
                    self.executors.push(executor_job_id.clone());
                    assert(text::texts(self.executors@) =~= so_far.push(executor_job_id@));
                }
            }
        }
        let ghost start = self.states@;
        let ghost jobs = self.executors@;
        let mut k: usize = 0;
        while k < self.states.len() && !text::same(
            self.states[k].task_id.as_str(),
            row.task_id.as_str(),
        )
            invariant
                k <= self.states@.len(),
                self.states@ == start,
                self.executors@ == jobs,
                forall|j: int| 0 <= j < k ==> (#[trigger] start[j]).task_id@ != row.task_id@,
            decreases self.states@.len() - k,
        {
            k += 1;
        }
        proof {
            if k >= start.len() {
                lemma_state_of_absent(start, row.task_id@, 0);
            }
        }
        let status: TaskStatus = TaskStatus { task_id: row.task_id.clone(), state: row.to };
        self.states.set(k, status);
        proof {
            assert forall|id: Seq<char>|
                store::state_of(self.states@, id, 0) == if id == row.task_id@ {
                    Some(row.to)
                } else {
                    #[trigger] store::state_of(start, id, 0)
                } by {
                lemma_state_update(start, self.states@, k as int, id, 0);
            }
        }
        Ok(())
    }
}

/// A record that a plan was completed: who owns it, and the plan, proof and
/// final source that it names, where it is such a record at all.
#[derive(Debug)]
pub struct CompletionAudit {
    pub sequence: i64,
    pub workspace: Option<String>,
    pub task: Option<String>,
    pub job: Option<String>,
    pub completed: Option<Completed>,
}

#[derive(Debug)]
pub struct Completed {
    pub plan_id: String,
    pub verification: VerificationPacket,
    pub source: SourceStateRef,
}

/// Whether a record names exactly this plan, proof and final source.
pub open spec fn names(
    row: CompletionAudit,
    id: Seq<char>,
    given: VerificationPacket,
    source: SourceStateRef,
) -> bool {
    row.completed matches Some(c) && c.plan_id@ == id && protocol::same_verification(
        c.verification,
        given,
    ) && crate::planning::model::same_source_ref(c.source, source)
}

/// Why recorded completions do not justify a completed plan, if they do not.
pub open spec fn audit_refusal(
    rows: Seq<CompletionAudit>,
    workspace: Seq<char>,
    id: Seq<char>,
    given: VerificationPacket,
    source: SourceStateRef,
) -> Option<Seq<char>> {
    if rows.len() == 0 {
        Some("matching completion audit is missing"@)
    } else if !(validation::is_text(rows[0].workspace, workspace) && rows[0].task is None
        && rows[0].job is None) {
        Some("completion audit has incorrect workspace/task/job ownership"@)
    } else if !names(rows[0], id, given, source) {
        Some(
            "completion audit does not match the stored plan, integration proof and final source"@,
        )
    } else if rows.len() > 1 {
        Some("multiple completion audits exist"@)
    } else {
        None
    }
}

/// A stored completed plan, as it is held against its history.
#[derive(Debug)]
pub struct CompletedPlan {
    pub packet: PlanPacket,
    pub plan_id: String,
    pub proof: VerificationPacket,
    pub source: SourceStateRef,
    /// What the protocol has against the final source, and against completing
    /// the packet in the recorded states by this proof.
    pub source_refusal: Option<String>,
    pub completion_refusal: Option<String>,
    pub audits: Vec<CompletionAudit>,
}

/// Why a completed plan is not justified by the record of its completion.
pub open spec fn completed_refusal(plan: CompletedPlan, workspace: Seq<char>) -> Option<Seq<char>> {
    crate::error::either(
        validation::message(plan.source_refusal),
        if plan.packet.plan_id@ != plan.plan_id@ {
            Some("PlanPacket ID differs from its storage key"@)
        } else {
            crate::error::either(
                validation::message(plan.completion_refusal),
                audit_refusal(plan.audits@, workspace, plan.plan_id@, plan.proof, plan.source),
            )
        },
    )
}

/// Checks the record of a plan's completion, and gives its place in history.
pub fn completion_sequence(plan: &CompletedPlan, workspace: &WorkspaceId) -> (r: Result<i64, Error>)
    ensures
        crate::error::settles(r, completed_refusal(*plan, workspace@)),
        r matches Ok(n) ==> plan.audits@.len() == 1 && n == plan.audits@[0].sequence,
{
    match validation::unless(&plan.source_refusal) {
        Ok(()) => {},
        Err(e) => return Err(e),
    }
    if !text::same(plan.packet.plan_id.as_str(), plan.plan_id.as_str()) {
        return invalid("PlanPacket ID differs from its storage key");
    }
    match validation::unless(&plan.completion_refusal) {
        Ok(()) => {},
        Err(e) => return Err(e),
    }
    if plan.audits.len() == 0 {
        return invalid("matching completion audit is missing");
    }
    let row: &CompletionAudit = &plan.audits[0];
    if !(validation::holds_text(&row.workspace, workspace.as_str()) && row.task.is_none()
        && row.job.is_none()) {
        return invalid("completion audit has incorrect workspace/task/job ownership");
    }
    let named: bool = match &row.completed {
        Some(c) => text::same(c.plan_id.as_str(), plan.plan_id.as_str()) && c.verification.same(
            &plan.proof,
        ) && c.source.same(&plan.source),
        None => false,
    };
    if !named {
        return invalid(
            "completion audit does not match the stored plan, integration proof and final source",
        );
    }
    if plan.audits.len() > 1 {
        return invalid("multiple completion audits exist");
    }
    Ok(row.sequence)
}

pub const UNMATCHED_EVIDENCE: &'static str =
    "integration evidence must match the stored final source and plan workspace";

/// Why a replayed history does not justify a completed plan, if it does not.
/// `agree` is whether the replayed states are the recorded ones, and `executors`
/// are the jobs whose work the history accepted.
pub open spec fn history_refusal(
    agree: bool,
    executors: Seq<Seq<char>>,
    plan: CompletedPlan,
    workspace: Seq<char>,
    jobs: Seq<AgentJob>,
    stored_refusal: Option<String>,
    evidence: Seq<EvidenceRow>,
) -> Option<Seq<char>> {
    if !agree {
        Some("persisted task states are not justified by task verification history"@)
    } else {
        match plan.proof.target {
            VerificationTarget::Packet { .. } => Some("expected integration verification"@),
            VerificationTarget::Integration { executor_job_ids, .. } => if !executors_match(
                executors,
                plan.packet.tasks@.len() as int,
                text::texts(executor_job_ids@),
            ) {
                Some("integration executor set does not match accepted packet verifications"@)
            } else {
                match store::job_at(jobs, plan.proof.verifier_job_id@, 0) {
                    None => Some("integration verifier is missing"@),
                    Some(k) => if !verifies_plan(jobs[k], plan.plan_id@) {
                        Some("integration requires a successful plan-level verifier job"@)
                    } else if !validation::is_text(jobs[k].workspace_id, workspace) {
                        Some("integration verifier belongs to a different or unbound workspace"@)
                    } else {
                        evidence_refusal(
                            text::texts(plan.proof.evidence@),
                            stored_refusal,
                            evidence,
                            plan.source,
                            workspace,
                            UNMATCHED_EVIDENCE@,
                        )
                    },
                }
            },
        }
    }
}

/// Checks that a replayed history justifies a completed plan.
pub fn conclude(
    replay: &Replay,
    states: &Vec<TaskStatus>,
    plan: &CompletedPlan,
    workspace: &WorkspaceId,
    jobs: &Vec<AgentJob>,
    stored_refusal: &Option<String>,
    evidence: &Vec<EvidenceRow>,
) -> (r: Result<(), Error>)
    ensures
        crate::error::settles(
            r,
            history_refusal(
                same_states(replay.states@, states@),
                text::texts(replay.executors@),
                *plan,
                workspace@,
                jobs@,
                *stored_refusal,
                evidence@,
            ),
        ),
{
    if !states_agree(&replay.states, states) {
        return invalid("persisted task states are not justified by task verification history");
    }
    match &plan.proof.target {
        VerificationTarget::Packet { .. } => return invalid("expected integration verification"),
        VerificationTarget::Integration { executor_job_ids, .. } => {
            if !executors_agree(&replay.executors, plan.packet.tasks.len(), executor_job_ids) {
                return invalid(
                    "integration executor set does not match accepted packet verifications",
                );
            }
        },
    }
    match store::find_job(jobs, plan.proof.verifier_job_id.as_str()) {
        None => return invalid("integration verifier is missing"),
        Some(k) => {
            if !is_plan_verifier(&jobs[k], plan.plan_id.as_str()) {
                return invalid("integration requires a successful plan-level verifier job");
            }
            if !validation::holds_text(&jobs[k].workspace_id, workspace.as_str()) {
                return invalid("integration verifier belongs to a different or unbound workspace");
            }
        },
    }
    evidence_acceptable(
        &plan.proof.evidence,
        stored_refusal,
        evidence,
        &plan.source,
        workspace.as_str(),
        UNMATCHED_EVIDENCE,
    )
}

/// A recorded change, with what the protocol and the verifier rule have against
/// it in the states that the changes before it led to.
#[derive(Debug)]
pub struct RecordedChange {
    pub row: Transition,
    pub guard: Option<String>,
    pub verifier: Option<String>,
}

/// The state that the first `n` changes leave a task in: where the last of them
/// took it, or PLANNED where none concerns it.
pub open spec fn state_after(
    tasks: Seq<TaskPacket>,
    changes: Seq<RecordedChange>,
    n: int,
    id: Seq<char>,
) -> Option<TaskState>
    decreases n,
{
    if n <= 0 {
        if protocol::task_at(tasks, id, 0) is Some {
            Some(TaskState::Planned)
        } else {
            None
        }
    } else if changes[n - 1].row.task_id@ == id {
        Some(changes[n - 1].row.to)
    } else {
        state_after(tasks, changes, n - 1, id)
    }
}

/// The executor jobs whose work the first `n` changes accepted.
pub open spec fn accepted_after(changes: Seq<RecordedChange>, n: int) -> Seq<Seq<char>>
    decreases n,
{
    if n <= 0 {
        Seq::empty()
    } else {
        match accepts(changes[n - 1].row) {
            Some(job) => accepted_after(changes, n - 1).push(job),
            None => accepted_after(changes, n - 1),
        }
    }
}

/// Why one of the changes from the `i`-th on does not follow, if one does not.
pub open spec fn replay_refusal(
    tasks: Seq<TaskPacket>,
    changes: Seq<RecordedChange>,
    completion_sequence: i64,
    workspace: Seq<char>,
    i: int,
) -> Option<Seq<char>>
    decreases changes.len() - i,
{
    if i < 0 || i >= changes.len() {
        None
    } else {
        crate::error::either(
            transition_refusal(
                state_after(tasks, changes, i, changes[i].row.task_id@),
                changes[i].row,
                completion_sequence,
                tasks,
                workspace,
                changes[i].guard,
                changes[i].verifier,
            ),
            replay_refusal(tasks, changes, completion_sequence, workspace, i + 1),
        )
    }
}

/// Whether recorded states are where the changes lead.
pub open spec fn justified_states(
    tasks: Seq<TaskPacket>,
    changes: Seq<RecordedChange>,
    states: Seq<TaskStatus>,
) -> bool {
    forall|id: Seq<char>|
        state_after(tasks, changes, changes.len() as int, id) == #[trigger] store::state_of(
            states,
            id,
            0,
        )
}

/// Why durable records do not justify a completed plan, if they do not: the
/// record of its completion, each change before it, and the proof are asked in
/// turn.
pub open spec fn unjustified(
    plan: CompletedPlan,
    workspace: Seq<char>,
    changes: Seq<RecordedChange>,
    states: Seq<TaskStatus>,
    jobs: Seq<AgentJob>,
    stored_refusal: Option<String>,
    evidence: Seq<EvidenceRow>,
) -> Option<Seq<char>> {
    crate::error::either(
        completed_refusal(plan, workspace),
        crate::error::either(
            replay_refusal(
                plan.packet.tasks@,
                changes,
                plan.audits@[0].sequence,
                workspace,
                0,
            ),
            history_refusal(
                justified_states(plan.packet.tasks@, changes, states),
                accepted_after(changes, changes.len() as int),
                plan,
                workspace,
                jobs,
                stored_refusal,
                evidence,
            ),
        ),
    )
}

/// Where every task is PLANNED, exactly the tasks of the packet have a state.
proof fn lemma_planned(tasks: Seq<TaskPacket>, states: Seq<TaskStatus>, id: Seq<char>, i: int)
    requires
        0 <= i <= tasks.len(),
        states.len() == tasks.len(),
        forall|j: int|
            0 <= j < states.len() ==> (#[trigger] states[j]).task_id == tasks[j].task_id
                && states[j].state == TaskState::Planned,
    ensures
        store::state_of(states, id, i) == if protocol::task_at(tasks, id, i) is Some {
            Some(TaskState::Planned)
        } else {
            None
        },
    decreases tasks.len() - i,
{
    if i < tasks.len() {
        assert(states[i].task_id == tasks[i].task_id);
        lemma_planned(tasks, states, id, i + 1);
    }
}

/// Checks that durable records alone justify a completed plan: the record of
/// its completion, a replay of every change before it, the jobs behind them and
/// the evidence of the final source.
pub fn validate_completed(
    plan: &CompletedPlan,
    workspace: &WorkspaceId,
    changes: &Vec<RecordedChange>,
    states: &Vec<TaskStatus>,
    jobs: &Vec<AgentJob>,
    stored_refusal: &Option<String>,
    evidence: &Vec<EvidenceRow>,
) -> (r: Result<(), Error>)
    ensures
        crate::error::settles(
            r,
            unjustified(
                *plan,
                workspace@,
                changes@,
                states@,
                jobs@,
                *stored_refusal,
                evidence@,
            ),
        ),
{
    let last: i64 = match completion_sequence(plan, workspace) {
        Ok(n) => n,
        Err(e) => return Err(e),
    };
    let mut replay: Replay = Replay::begin(&plan.packet);
    let ghost tasks = plan.packet.tasks@;
    proof {
        assert forall|id: Seq<char>|
            #[trigger] store::state_of(replay.states@, id, 0) == state_after(
                tasks,
                changes@,
                0,
                id,
            ) by {
            lemma_planned(tasks, replay.states@, id, 0);
        }
        assert(text::texts(replay.executors@) =~= accepted_after(changes@, 0));
    }
    let mut i: usize = 0;
    while i < changes.len()
        invariant
            i <= changes@.len(),
            tasks == plan.packet.tasks@,
            forall|id: Seq<char>|
                #[trigger] store::state_of(replay.states@, id, 0) == state_after(
                    tasks,
                    changes@,
                    i as int,
                    id,
                ),
            text::texts(replay.executors@) == accepted_after(changes@, i as int),
            replay_refusal(tasks, changes@, last, workspace@, 0) == replay_refusal(
                tasks,
                changes@,
                last,
                workspace@,
                i as int,
            ),
            completed_refusal(*plan, workspace@) is None,
            last == plan.audits@[0].sequence,
        decreases changes@.len() - i,
    {
        let change: &RecordedChange = &changes[i];
        let ghost before = replay.states@;
        match replay.follow(
            &change.row,
            last,
            &plan.packet.tasks,
            workspace,
            &change.guard,
            &change.verifier,
        ) {
            Ok(()) => {},
            Err(e) => return Err(e),
        }
        proof {
            assert forall|id: Seq<char>|
                #[trigger] store::state_of(replay.states@, id, 0) == state_after(
                    tasks,
                    changes@,
                    i + 1,
                    id,
                ) by {
                assert(store::state_of(before, id, 0) == state_after(tasks, changes@, i as int, id));
            }
        }
        i += 1;
    }
    assert(same_states(replay.states@, states@) == justified_states(tasks, changes@, states@)) by {
        if justified_states(tasks, changes@, states@) {
            assert forall|id: Seq<char>| #[trigger]
                store::state_of(replay.states@, id, 0) == store::state_of(states@, id, 0) by {}
        }
        if same_states(replay.states@, states@) {
            assert forall|id: Seq<char>|
                state_after(tasks, changes@, changes@.len() as int, id)
                    == #[trigger] store::state_of(states@, id, 0) by {
                assert(store::state_of(replay.states@, id, 0) == store::state_of(states@, id, 0));
            }
        }
    }
    conclude(&replay, states, plan, workspace, jobs, stored_refusal, evidence)
}

proof fn lemma_every_change_follows(
    tasks: Seq<TaskPacket>,
    changes: Seq<RecordedChange>,
    completion_sequence: i64,
    workspace: Seq<char>,
    i: int,
    k: int,
)
    requires
        0 <= i <= k < changes.len(),
        replay_refusal(tasks, changes, completion_sequence, workspace, i) is None,
    ensures
        changes[k].row.sequence < completion_sequence,
        state_after(tasks, changes, k, changes[k].row.task_id@) == Some(changes[k].row.from),
        changes[k].guard is None,
    decreases k - i,
{
    if i < k {
        lemma_every_change_follows(tasks, changes, completion_sequence, workspace, i + 1, k);
    }
}

/// A completion that durable records justify was reached step by step: every
/// recorded change came before the completion, began in the state that those
/// before it had left, and was allowed there; the recorded states are where the
/// changes lead; and the proof names exactly the jobs whose work they accepted,
/// one for each task.
pub proof fn law_a_justified_completion_was_reached_step_by_step(
    plan: CompletedPlan,
    workspace: Seq<char>,
    changes: Seq<RecordedChange>,
    states: Seq<TaskStatus>,
    jobs: Seq<AgentJob>,
    stored_refusal: Option<String>,
    evidence: Seq<EvidenceRow>,
)
    requires
        unjustified(plan, workspace, changes, states, jobs, stored_refusal, evidence) is None,
    ensures
        forall|k: int|
            0 <= k < changes.len() ==> (#[trigger] changes[k]).row.sequence
                < plan.audits@[0].sequence && changes[k].guard is None && state_after(
                plan.packet.tasks@,
                changes,
                k,
                changes[k].row.task_id@,
            ) == Some(changes[k].row.from),
        forall|id: Seq<char>|
            #[trigger] store::state_of(states, id, 0) == state_after(
                plan.packet.tasks@,
                changes,
                changes.len() as int,
                id,
            ),
        plan.proof.target matches VerificationTarget::Integration { executor_job_ids, .. }
            && accepted_after(changes, changes.len() as int).to_set() == text::texts(
            executor_job_ids@,
        ).to_set() && accepted_after(changes, changes.len() as int).to_set().len()
            == plan.packet.tasks@.len(),
{
    assert forall|k: int| 0 <= k < changes.len() implies (#[trigger] changes[k]).row.sequence
        < plan.audits@[0].sequence && changes[k].guard is None && state_after(
        plan.packet.tasks@,
        changes,
        k,
        changes[k].row.task_id@,
    ) == Some(changes[k].row.from) by {
        lemma_every_change_follows(
            plan.packet.tasks@,
            changes,
            plan.audits@[0].sequence,
            workspace,
            0,
            k,
        );
    }
}

/// The message that a completed plan could not be justified. At most 1024
/// characters of the reason are shown.
pub open spec fn abort_message(plan: Seq<char>, repository: Seq<char>, reason: Seq<char>) -> Seq<
    char,
> {
    "schema v5→v6 migration aborted: legacy COMPLETE plan "@ + plan + " (repository "@ + repository
        + ") could not be validated: "@ + text::clipped(reason, 1024)
        + "; no changes committed. Review/restore the legacy completion records from trusted history before retrying; no automatic repair was performed"@
}

pub fn aborted(plan: &str, repository: &str, reason: &str) -> (r: String)
    ensures
        r@ == abort_message(plan@, repository@, reason@),
{
    let shown: String = text::clip(reason, 1024);
    let m: String = text::join2("schema v5→v6 migration aborted: legacy COMPLETE plan ", plan);
    let m: String = text::join3(m.as_str(), " (repository ", repository);
    let m: String = text::join3(m.as_str(), ") could not be validated: ", shown.as_str());
    text::join2(
        m.as_str(),
        "; no changes committed. Review/restore the legacy completion records from trusted history before retrying; no automatic repair was performed",
    )
}

// ---------------------------------------------------------------------------
// The capability to complete
// ---------------------------------------------------------------------------

/// A capability to complete exactly one plan: it is bound to the repository,
/// plan, workspace, proof and final source it was made for, and is gone for good
/// once it is revoked.
pub struct Permit {
    enabled: bool,
    expected: Vec<String>,
}

impl Permit {
    pub closed spec fn active(&self) -> bool {
        self.enabled
    }

    pub closed spec fn bound(&self) -> Seq<Seq<char>> {
        text::texts(self.expected@)
    }

    pub fn authorize(expected: Vec<String>) -> (r: Self)
        ensures
            r.active(),
            r.bound() == text::texts(expected@),
    {
        Permit { enabled: true, expected }
    }

    /// Whether the capability covers exactly these values.
    pub fn allows(&self, values: &Vec<String>) -> (r: bool)
        ensures
            r == (self.active() && self.bound() == text::texts(values@)),
    {
        self.enabled && text::same_texts(&self.expected, values)
    }

    pub fn revoke(&mut self)
        ensures
            !final(self).active(),
            final(self).bound() == old(self).bound(),
    {
        self.enabled = false;
    }
}

} // verus!
