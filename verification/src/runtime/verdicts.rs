//! When captured work is judged, checked and accepted.
use crate::planning::model;
use crate::planning::model::SourceStateRef;
use crate::planning::scope;
use crate::planning::scope::ScopePath;
use crate::protocol::{AgentRole, TaskPacket, TaskState, VerificationDecision};
use crate::runtime::acceptance;
use crate::runtime::acceptance::{CapturedWork, CheckOutcome, ReportedResult, StoredJob};
use crate::runtime::history;
use crate::runtime::history::{Document, JobInput};
use crate::runtime::record::{PendingTask, RuntimeJob, RuntimeJobState};
use crate::source::ArtifactRef;
use crate::text;
use vstd::prelude::*;

verus! {

// ---------------------------------------------------------------------------
// The executor of a task
// ---------------------------------------------------------------------------
/// Whether a job is an executor's that was not there before, and was issued a task.
pub open spec fn ran(
    job: RuntimeJob,
    previous: Seq<Seq<char>>,
    inputs: Seq<Document<JobInput>>,
    task: Seq<char>,
) -> bool {
    &&& job.role == AgentRole::Executor
    &&& !previous.contains(job.job_id@)
    &&& exists|n: int|
        {
            &&& 0 <= n < inputs.len()
            &&& (#[trigger] inputs[n]).hash@ == job.input.hash@
            &&& forall|m: int| 0 <= m < n ==> (#[trigger] inputs[m]).hash@ != job.input.hash@
            &&& inputs[n].value.task_id is Some
            &&& inputs[n].value.task_id->0@ == task
        }
}

proof fn lemma_document(inputs: Seq<Document<JobInput>>, r: ArtifactRef, i: int) -> (n: int)
    requires
        0 <= i,
    ensures
        match history::document(inputs, r, i) {
            Some(v) => i <= n < inputs.len() && inputs[n].hash@ == r.hash@ && inputs[n].value == v
                && forall|m: int| i <= m < n ==> (#[trigger] inputs[m]).hash@ != r.hash@,
            None => forall|m: int| i <= m < inputs.len() ==> (#[trigger] inputs[m]).hash@ != r.hash@,
        },
    decreases inputs.len() - i,
{
    if i >= inputs.len() || inputs[i].hash@ == r.hash@ {
        i
    } else {
        lemma_document(inputs, r, i + 1)
    }
}

proof fn lemma_ran(
    job: RuntimeJob,
    previous: Seq<Seq<char>>,
    inputs: Seq<Document<JobInput>>,
    task: Seq<char>,
)
    ensures
        acceptance::new_executor(job, previous, inputs, task) <==> ran(job, previous, inputs, task),
{
    let n = lemma_document(inputs, job.input, 0);
    if acceptance::new_executor(job, previous, inputs, task) {
        assert(inputs[n].hash@ == job.input.hash@);
    }
    if ran(job, previous, inputs, task) {
        let m = choose|m: int|
            {
                &&& 0 <= m < inputs.len()
                &&& (#[trigger] inputs[m]).hash@ == job.input.hash@
                &&& forall|j: int| 0 <= j < m ==> (#[trigger] inputs[j]).hash@ != job.input.hash@
                &&& inputs[m].value.task_id is Some
                &&& inputs[m].value.task_id->0@ == task
            };
        assert(inputs[m].hash@ == job.input.hash@);
        assert(history::document(inputs, job.input, 0) is Some);
        assert(m == n);
    }
}

/// The executor of a task is the newest of the jobs that ran it; where it is of one age
/// with another, the one of the later name; and there is one wherever some job ran it.
pub proof fn law_the_newest_executor_ran_the_task(
    jobs: Seq<RuntimeJob>,
    previous: Seq<Seq<char>>,
    inputs: Seq<Document<JobInput>>,
    task: Seq<char>,
    n: int,
    m: int,
)
    requires
        0 <= n <= jobs.len(),
    ensures
        match acceptance::last_executor(jobs, previous, inputs, task, n) {
            Some(k) => {
                &&& 0 <= k < n
                &&& ran(jobs[k], previous, inputs, task)
                &&& 0 <= m < n && ran(jobs[m], previous, inputs, task) ==> jobs[m].created_at_ms
                    <= jobs[k].created_at_ms
                &&& 0 <= m < n && ran(jobs[m], previous, inputs, task) && jobs[m].created_at_ms
                    == jobs[k].created_at_ms ==> !text::before(jobs[k].job_id@, jobs[m].job_id@)
            },
            None => 0 <= m < n ==> !ran(jobs[m], previous, inputs, task),
        },
    decreases n,
{
    if n > 0 {
        law_the_newest_executor_ran_the_task(jobs, previous, inputs, task, n - 1, m);
        lemma_ran(jobs[n - 1], previous, inputs, task);
        let last = jobs[n - 1].job_id@;
        text::lemma_before_total(last, last);
        if let Some(k) = acceptance::last_executor(jobs, previous, inputs, task, n - 1) {
            text::lemma_before_total(jobs[k].job_id@, last);
            if 0 <= m < n && text::before(jobs[k].job_id@, last) && text::before(
                last,
                jobs[m].job_id@,
            ) {
                text::lemma_before_transitive(jobs[k].job_id@, last, jobs[m].job_id@);
            }
        }
    }
}

// ---------------------------------------------------------------------------
// Judging
// ---------------------------------------------------------------------------
/// Work is taken up exactly where the executor asked for context and changed nothing, or
/// says that it succeeded, changed nothing outside its scope and nothing that is
/// excluded, and reports just what it changed.
pub proof fn law_work_is_taken_up_where_it_is_what_was_asked(
    report: ReportedResult,
    work: CapturedWork,
    exclusions: Seq<ScopePath>,
    task: Seq<char>,
    job: Seq<char>,
)
    ensures
        acceptance::judgement(report, work, exclusions, task, job) is None <==> {
            ||| report.requests_context && work.changed@.len() == 0
            ||| {
                &&& !report.requests_context
                &&& report.succeeded
                &&& work.scope_violations == 0
                &&& forall|n: int, x: int|
                    0 <= n < work.changed@.len() && 0 <= x < exclusions.len() ==> !scope::allows(
                        #[trigger] exclusions[x],
                        (#[trigger] work.changed@[n])@,
                    )
                &&& forall|path: Seq<char>|
                    text::texts(work.changed@).contains(path) <==> #[trigger] text::texts(
                        report.changed_paths@,
                    ).contains(path)
            }
        },
{
    let changed = text::texts(work.changed@);
    let told = text::texts(report.changed_paths@);
    assert(changed.len() == work.changed@.len());
    if acceptance::touches(changed, exclusions) {
        let n = choose|n: int|
            0 <= n < changed.len() && scope::any_allows(exclusions, #[trigger] changed[n]);
        let x = choose|x: int|
            0 <= x < exclusions.len() && scope::allows(#[trigger] exclusions[x], changed[n]);
        assert(work.changed@[n]@ == changed[n]);
        assert(scope::allows(exclusions[x], work.changed@[n]@));
    } else {
        assert forall|n: int, x: int|
            0 <= n < work.changed@.len() && 0 <= x < exclusions.len() implies !scope::allows(
            #[trigger] exclusions[x],
            (#[trigger] work.changed@[n])@,
        ) by {
            assert(!scope::any_allows(exclusions, changed[n]));
        }
    }
    if told.to_set() == changed.to_set() {
        assert forall|path: Seq<char>| changed.contains(path) <==> #[trigger] told.contains(
            path,
        ) by {
            assert(told.to_set().contains(path) <==> told.contains(path));
            assert(changed.to_set().contains(path) <==> changed.contains(path));
        }
    } else if forall|path: Seq<char>| changed.contains(path) <==> #[trigger] told.contains(path) {
        assert(told.to_set() =~= changed.to_set());
    }
}

/// A check counts exactly where it ran to its end, exited with zero and left the
/// workspace as it was.
pub proof fn law_checks_count_where_they_passed(name: Seq<char>, c: CheckOutcome)
    ensures
        acceptance::check_refusal(name, c) is None <==> !c.interrupted && !c.failed && c.exit
            == Some(0i32) && c.unchanged,
{
}

/// A task becomes verified on a pass and on nothing else, and what is accepted was passed
/// by a verifier that is named.
pub proof fn law_only_a_pass_verifies(decision: VerificationDecision, pending: Option<PendingTask>)
    ensures
        acceptance::decided_state(decision) == TaskState::Verified <==> decision
            == VerificationDecision::Pass,
        acceptance::decided_state(decision) == TaskState::Rejected <==> decision
            == VerificationDecision::Reject,
        acceptance::decided_state(decision) == TaskState::Blocked <==> decision
            == VerificationDecision::Blocked,
        acceptance::acceptance_refusal(pending) is None <==> {
            &&& pending is Some
            &&& pending->0.proof is Some
            &&& pending->0.proof->0.decision == VerificationDecision::Pass
            &&& pending->0.verifier is Some
        },
{
}

/// Whether a verifier's decision on a subject and a source can be taken up again.
pub open spec fn settles(
    job: RuntimeJob,
    stored: StoredJob,
    task: Option<Seq<char>>,
    source: SourceStateRef,
) -> bool {
    &&& job.role == AgentRole::Verifier
    &&& job.state == RuntimeJobState::Succeeded
    &&& job.context_request is None
    &&& stored.input is Ok
    &&& stored.input->Ok_0.task_id is Some <==> task is Some
    &&& task is Some ==> stored.input->Ok_0.task_id->0@ == task->0
    &&& model::same_source_ref(stored.input->Ok_0.source, source)
}

/// A decision is taken up again exactly from the first verifier that succeeded, decided,
/// and was issued the same subject and source; its input is its own, and its output is
/// there.
pub proof fn law_a_decision_is_recovered_from_its_verifier(
    jobs: Seq<RuntimeJob>,
    stored: Seq<StoredJob>,
    task: Option<Seq<char>>,
    source: SourceStateRef,
    i: int,
    m: int,
)
    requires
        0 <= i,
        jobs.len() == stored.len(),
    ensures
        match acceptance::recovered(jobs, stored, task, source, i) {
            Ok(Some(k)) => {
                &&& i <= k < jobs.len()
                &&& settles(jobs[k], stored[k], task, source)
                &&& stored[k].refusal is None
                &&& stored[k].input->Ok_0.owned
                &&& jobs[k].output is Some
                &&& i <= m < k ==> !settles(jobs[m], stored[m], task, source)
            },
            Ok(None) => i <= m < jobs.len() ==> !settles(jobs[m], stored[m], task, source),
            Err(_) => true,
        },
        (forall|n: int|
            i <= n < jobs.len() ==> (#[trigger] stored[n]).refusal is None && stored[n].input is Ok
                && stored[n].input->Ok_0.owned && jobs[n].output is Some)
            ==> acceptance::recovered(jobs, stored, task, source, i) is Ok,
    decreases jobs.len() - i,
{
    if i < jobs.len() {
        law_a_decision_is_recovered_from_its_verifier(jobs, stored, task, source, i + 1, m);
    }
}

// ---------------------------------------------------------------------------
// What a plan touches
// ---------------------------------------------------------------------------
/// What the tasks of a plan touch is what they may read and what they may write.
pub proof fn law_a_plan_touches_what_its_tasks_touch(
    tasks: Seq<TaskPacket>,
    i: int,
    t: int,
    s: ScopePath,
    r: Seq<char>,
)
    requires
        0 <= i,
    ensures
        ({
            let scopes = acceptance::task_scopes(tasks, i);
            &&& i <= t < tasks.len() && (tasks[t].read_scope@.contains(s)
                || tasks[t].write_scope@.contains(s)) ==> scopes.contains(s)
            &&& scopes.contains(s) ==> exists|n: int|
                i <= n < tasks.len() && ((#[trigger] tasks[n]).read_scope@.contains(s)
                    || tasks[n].write_scope@.contains(s))
        }),
        ({
            let refs = acceptance::task_invariants(tasks, i);
            &&& i <= t < tasks.len() && text::texts(tasks[t].invariant_refs@).contains(r)
                ==> refs.contains(r)
            &&& refs.contains(r) ==> exists|n: int|
                i <= n < tasks.len() && text::texts(
                    (#[trigger] tasks[n]).invariant_refs@,
                ).contains(r)
        }),
    decreases tasks.len() - i,
{
    if i < tasks.len() {
        law_a_plan_touches_what_its_tasks_touch(tasks, i + 1, t, s, r);
        let reads = tasks[i].read_scope@;
        let writes = tasks[i].write_scope@;
        let rest = acceptance::task_scopes(tasks, i + 1);
        lemma_in_either(reads, writes, s);
        lemma_in_either(reads + writes, rest, s);
        lemma_in_either(
            text::texts(tasks[i].invariant_refs@),
            acceptance::task_invariants(tasks, i + 1),
            r,
        );
    }
}

proof fn lemma_in_either<T>(a: Seq<T>, b: Seq<T>, x: T)
    ensures
        (a + b).contains(x) <==> a.contains(x) || b.contains(x),
{
    let all = a + b;
    if a.contains(x) {
        let n = choose|n: int| 0 <= n < a.len() && a[n] == x;
        assert(all[n] == x);
    }
    if b.contains(x) {
        let n = choose|n: int| 0 <= n < b.len() && b[n] == x;
        assert(all[a.len() + n] == x);
    }
    if all.contains(x) {
        let n = choose|n: int| 0 <= n < all.len() && all[n] == x;
        if n < a.len() {
            assert(a[n] == x);
        } else {
            assert(b[n - a.len()] == x);
        }
    }
}

} // verus!
