//! What the history of a plan has to show before a capability counts as supported.
use crate::protocol::{AgentRole, TaskState, VerificationDecision};
use crate::runtime::capability;
use crate::runtime::capability::{CapabilityStatus, Case, EvidenceView};
use crate::runtime::record;
use crate::runtime::record::{RuntimeJob, RuntimeJobState};
use crate::runtime::turns;
use vstd::prelude::*;

verus! {

/// Whether a job of a plan succeeded in a role, for a task and in the workspace.
pub open spec fn did(c: Case<'_>, job: RuntimeJob, role: AgentRole, task: Seq<char>) -> bool {
    &&& job.role == role
    &&& job.state == RuntimeJobState::Succeeded
    &&& job.plan_id is Some
    &&& job.plan_id->0@ == c.view.plan.packet.plan_id@
    &&& job.task_id is Some
    &&& job.task_id->0@ == task
    &&& job.workspace_id@ == c.workspace_id@
}

/// Whether a transition shows that a task was verified: it became so on a pass, by two
/// jobs that are not the same, one of which executed it and the other verified it, and
/// the run accepted it from just these.
pub open spec fn shows_verified(c: Case<'_>, t: int, e: int, v: int, a: int, task: Seq<char>) -> bool {
    let row = c.history.transitions@[t];
    let jobs = c.history.jobs@;
    let accepted = c.history.run->0.accepted@;
    &&& 0 <= t < c.history.transitions@.len()
    &&& row.to == TaskState::Verified
    &&& row.task@ == task
    &&& row.proof is Some
    &&& row.proof->0.decision == VerificationDecision::Pass
    &&& 0 <= e < jobs.len() && did(c, jobs[e], AgentRole::Executor, task)
    &&& 0 <= v < jobs.len() && did(c, jobs[v], AgentRole::Verifier, task)
    &&& jobs[e].job_id@ != jobs[v].job_id@
    &&& jobs[v].job_id@ == row.proof->0.verifier_job_id@
    &&& jobs[v].reported_verification == Some(VerificationDecision::Pass)
    &&& c.history.run is Some
    &&& 0 <= a < accepted.len()
    &&& accepted[a].task_id@ == task
    &&& accepted[a].executor@ == jobs[e].job_id@
    &&& accepted[a].verifier@ == jobs[v].job_id@
}

proof fn lemma_from(c: Case<'_>, i: int, k: int) -> (t: int)
    requires
        0 <= i,
        0 <= k < capability::verified_from(c, i).len(),
    ensures
        i <= t < c.history.transitions@.len(),
        capability::verified_evidence(c, t) == Some(capability::verified_from(c, i)[k]),
    decreases c.history.transitions@.len() - i,
{
    let all = capability::verified_from(c, i);
    let rest = capability::verified_from(c, i + 1);
    match capability::verified_evidence(c, i) {
        Some(x) => {
            if k == 0 {
                i
            } else {
                assert(all[k] == rest[k - 1]);
                lemma_from(c, i + 1, k - 1)
            }
        },
        None => lemma_from(c, i + 1, k),
    }
}

proof fn lemma_shown(c: Case<'_>, t: int) -> (at: (int, int, int))
    requires
        0 <= t < c.history.transitions@.len(),
        capability::verified_evidence(c, t) is Some,
    ensures
        ({
            let x = capability::verified_evidence(c, t)->0;
            &&& x.task_id is Some
            &&& shows_verified(c, t, at.0, at.1, at.2, x.task_id->0)
            &&& x.sequence == Some(c.history.transitions@[t].sequence)
        }),
{
    let row = c.history.transitions@[t];
    let proof_of = row.proof->0;
    let task = row.task@;
    let executor = proof_of.target->executor_job_id@;
    turns::law_run_jobs_are_found_by_name(c.history.jobs@, executor, 0);
    turns::law_run_jobs_are_found_by_name(c.history.jobs@, proof_of.verifier_job_id@, 0);
    turns::law_accepted_tasks_are_found_by_name(c.history.run->0.accepted@, task, 0);
    (
        record::job_at(c.history.jobs@, executor, 0)->0,
        record::job_at(c.history.jobs@, proof_of.verifier_job_id@, 0)->0,
        record::accepted_at(c.history.run->0.accepted@, task, 0)->0,
    )
}

/// Independent verification counts as supported only where some task was verified by a
/// job other than the one that executed it, and accepted from just these; and every piece
/// of its evidence is such a task.
pub proof fn law_independent_verification_is_shown_by_two_jobs(c: Case<'_>, k: int) -> (at: (
    int,
    int,
    int,
    int,
))
    requires
        capability::verified_finding(c).status == CapabilityStatus::Supported,
    ensures
        capability::verified_finding(c).evidence.len() > 0,
        0 <= k < capability::verified_finding(c).evidence.len() ==> {
            let x = capability::verified_finding(c).evidence[k];
            &&& x.task_id is Some
            &&& shows_verified(c, at.0, at.1, at.2, at.3, x.task_id->0)
        },
{
    if 0 <= k < capability::verified_from(c, 0).len() {
        let t = lemma_from(c, 0, k);
        let (e, v, a) = lemma_shown(c, t);
        (t, e, v, a)
    } else {
        (0, 0, 0, 0)
    }
}

proof fn lemma_verified_time(verified: Seq<EvidenceView>, task: Seq<char>, i: int) -> (k: int)
    requires
        0 <= i,
        capability::verified_time(verified, task, i) is Some,
    ensures
        i <= k < verified.len(),
        verified[k].task_id == Some(task),
        verified[k].sequence == capability::verified_time(verified, task, i),
    decreases verified.len() - i,
{
    if verified[i].task_id == Some(task) {
        i
    } else {
        lemma_verified_time(verified, task, i + 1)
    }
}

proof fn lemma_ready_time(c: Case<'_>, task: Seq<char>, i: int) -> (r: int)
    requires
        0 <= i,
        capability::ready_time(c, task, i) is Some,
    ensures
        i <= r < c.history.transitions@.len(),
        c.history.transitions@[r].task@ == task,
        c.history.transitions@[r].to == TaskState::Ready,
        forall|j: int|
            i <= j < r ==> !((#[trigger] c.history.transitions@[j]).task@ == task
                && c.history.transitions@[j].to == TaskState::Ready),
        capability::ready_time(c, task, i) == Some(c.history.transitions@[r].sequence),
    decreases c.history.transitions@.len() - i,
{
    if c.history.transitions@[i].task@ == task && c.history.transitions@[i].to == TaskState::Ready {
        i
    } else {
        lemma_ready_time(c, task, i + 1)
    }
}

/// Locking on dependencies counts as supported only where some task has a dependency, and
/// every dependency of every task was shown to be verified before the task first became
/// ready.
pub proof fn law_dependencies_are_verified_before_their_tasks_are_ready(
    c: Case<'_>,
    t: int,
    d: int,
) -> (at: (int, int, int, int, int))
    requires
        capability::dependency_finding(c).status == CapabilityStatus::Supported,
    ensures
        exists|n: int|
            0 <= n < c.view.plan.packet.tasks@.len() && (
            #[trigger] c.view.plan.packet.tasks@[n]).dependencies@.len() > 0,
        0 <= t < c.view.plan.packet.tasks@.len() && 0 <= d
            < c.view.plan.packet.tasks@[t].dependencies@.len() ==> {
            let task = c.view.plan.packet.tasks@[t];
            let rows = c.history.transitions@;
            &&& 0 <= at.0 < rows.len()
            &&& rows[at.0].task@ == task.task_id@
            &&& rows[at.0].to == TaskState::Ready
            &&& forall|j: int|
                0 <= j < at.0 ==> !((#[trigger] rows[j]).task@ == task.task_id@ && rows[j].to
                    == TaskState::Ready)
            &&& shows_verified(c, at.1, at.2, at.3, at.4, task.dependencies@[d]@)
            &&& rows[at.1].sequence < rows[at.0].sequence
        },
{
    if 0 <= t < c.view.plan.packet.tasks@.len() && 0 <= d
        < c.view.plan.packet.tasks@[t].dependencies@.len() {
        let task = c.view.plan.packet.tasks@[t];
        let other = task.dependencies@[d]@;
        assert(capability::unlocked(c, task));
        assert(capability::unlock(c, task.task_id@, other) is Some);
        let r = lemma_ready_time(c, task.task_id@, 0);
        let all = capability::verified_from(c, 0);
        let k = lemma_verified_time(all, other, 0);
        let row = lemma_from(c, 0, k);
        let (e, v, a) = lemma_shown(c, row);
        (r, row, e, v, a)
    } else {
        (0, 0, 0, 0, 0)
    }
}

} // verus!
