//! Which step a run takes, told by what is recorded of it.
use crate::planning::model::TaskInspection;
use crate::protocol::{AgentRole, TaskState};
use crate::runtime::concurrency;
use crate::runtime::concurrency::Compatibility;
use crate::runtime::context::LedgerState;
use crate::runtime::record;
use crate::runtime::record::{
    AcceptedTask, LedgerEntry, Relaunches, RunRecord, RuntimeJob, RuntimeJobState,
};
use crate::runtime::schedule;
use crate::runtime::schedule::{Ground, Step, Turn};
use vstd::prelude::*;

verus! {

// ---------------------------------------------------------------------------
// What is recorded
// ---------------------------------------------------------------------------
/// Whether the result of a task was accepted.
#[verifier::opaque]
pub open spec fn is_accepted(accepted: Seq<AcceptedTask>, id: Seq<char>) -> bool {
    exists|n: int| 0 <= n < accepted.len() && (#[trigger] accepted[n]).task_id@ == id
}

/// An accepted task is found by its name, and the first of that name is.
pub proof fn law_accepted_tasks_are_found_by_name(
    accepted: Seq<AcceptedTask>,
    id: Seq<char>,
    i: int,
)
    requires
        0 <= i,
    ensures
        match record::accepted_at(accepted, id, i) {
            Some(k) => i <= k < accepted.len() && accepted[k].task_id@ == id && forall|j: int|
                i <= j < k ==> (#[trigger] accepted[j]).task_id@ != id,
            None => forall|j: int| i <= j < accepted.len() ==> (#[trigger] accepted[j]).task_id@ != id,
        },
    decreases accepted.len() - i,
{
    if i < accepted.len() {
        law_accepted_tasks_are_found_by_name(accepted, id, i + 1);
    }
}

proof fn lemma_accepted(accepted: Seq<AcceptedTask>, id: Seq<char>)
    ensures
        record::accepted_at(accepted, id, 0) is Some <==> is_accepted(accepted, id),
{
    reveal(is_accepted);
    law_accepted_tasks_are_found_by_name(accepted, id, 0);
    if let Some(k) = record::accepted_at(accepted, id, 0) {
        assert(accepted[k].task_id@ == id);
    }
}

/// A ledger is found by its key, and the first of that key is.
pub proof fn law_ledgers_are_found_by_key(ledgers: Seq<LedgerEntry>, key: Seq<char>, i: int)
    requires
        0 <= i,
    ensures
        match record::ledger_at(ledgers, key, i) {
            Some(k) => i <= k < ledgers.len() && ledgers[k].key@ == key && forall|j: int|
                i <= j < k ==> (#[trigger] ledgers[j]).key@ != key,
            None => forall|j: int| i <= j < ledgers.len() ==> (#[trigger] ledgers[j]).key@ != key,
        },
    decreases ledgers.len() - i,
{
    if i < ledgers.len() {
        law_ledgers_are_found_by_key(ledgers, key, i + 1);
    }
}

/// A job of a run is found by its name, and the first of that name is.
pub proof fn law_run_jobs_are_found_by_name(jobs: Seq<RuntimeJob>, id: Seq<char>, i: int)
    requires
        0 <= i,
    ensures
        match record::job_at(jobs, id, i) {
            Some(k) => i <= k < jobs.len() && jobs[k].job_id@ == id && forall|j: int|
                i <= j < k ==> (#[trigger] jobs[j]).job_id@ != id,
            None => forall|j: int| i <= j < jobs.len() ==> (#[trigger] jobs[j]).job_id@ != id,
        },
    decreases jobs.len() - i,
{
    if i < jobs.len() {
        law_run_jobs_are_found_by_name(jobs, id, i + 1);
    }
}

/// The jobs that a controller left open are those that were queued or running, each once
/// and in order; the acceptance was interrupted exactly where one of them was no
/// executor's.
pub proof fn law_interrupted_jobs_are_those_left_open(jobs: Seq<RuntimeJob>, i: int, n: int)
    requires
        0 <= i,
    ensures
        ({
            let open = schedule::open_jobs(jobs, i);
            &&& open.contains(n) <==> i <= n < jobs.len() && (jobs[n].state
                == RuntimeJobState::Queued || jobs[n].state == RuntimeJobState::Running)
            &&& forall|a: int, b: int| 0 <= a < b < open.len() ==> open[a] < open[b]
        }),
        schedule::acceptance_interrupted(jobs) <==> exists|m: int|
            {
                &&& 0 <= m < jobs.len()
                &&& (#[trigger] jobs[m]).role != AgentRole::Executor
                &&& jobs[m].state == RuntimeJobState::Queued || jobs[m].state
                    == RuntimeJobState::Running
            },
    decreases jobs.len() - i,
{
    let open = schedule::open_jobs(jobs, i);
    if i < jobs.len() {
        law_interrupted_jobs_are_those_left_open(jobs, i + 1, n);
        let rest = schedule::open_jobs(jobs, i + 1);
        if schedule::was_open(jobs[i]) {
            assert(open[0] == i);
            assert forall|a: int| 0 <= a < rest.len() implies rest[a] > i by {
                assert(rest.contains(rest[a]));
                law_interrupted_jobs_are_those_left_open(jobs, i + 1, rest[a]);
            }
            if rest.contains(n) {
                let m = choose|m: int| 0 <= m < rest.len() && rest[m] == n;
                assert(open[m + 1] == n);
            }
            if open.contains(n) && n != i {
                let m = choose|m: int| 0 <= m < open.len() && open[m] == n;
                assert(rest[m - 1] == n);
            }
            assert forall|a: int, b: int| 0 <= a < b < open.len() implies open[a] < open[b] by {
                assert(open[b] == rest[b - 1]);
                if a > 0 {
                    assert(open[a] == rest[a - 1]);
                }
            }
        }
    }
    if schedule::acceptance_interrupted(jobs) {
        let m = choose|m: int|
            0 <= m < jobs.len() && schedule::was_open(#[trigger] jobs[m]) && jobs[m].role
                != AgentRole::Executor;
        assert(jobs[m].role != AgentRole::Executor);
    }
    if exists|m: int|
        {
            &&& 0 <= m < jobs.len()
            &&& (#[trigger] jobs[m]).role != AgentRole::Executor
            &&& jobs[m].state == RuntimeJobState::Queued || jobs[m].state
                == RuntimeJobState::Running
        } {
        let m = choose|m: int|
            {
                &&& 0 <= m < jobs.len()
                &&& (#[trigger] jobs[m]).role != AgentRole::Executor
                &&& jobs[m].state == RuntimeJobState::Queued || jobs[m].state
                    == RuntimeJobState::Running
            };
        assert(schedule::was_open(jobs[m]));
    }
}

// ---------------------------------------------------------------------------
// Launching again
// ---------------------------------------------------------------------------
/// Whether a ledger is the first of its key.
pub open spec fn leads(ledgers: Seq<LedgerEntry>, key: Seq<char>, k: int) -> bool {
    &&& 0 <= k < ledgers.len()
    &&& ledgers[k].key@ == key
    &&& forall|j: int| 0 <= j < k ==> (#[trigger] ledgers[j]).key@ != key
}

/// Whether no relay of a task's executor was ended.
#[verifier::opaque]
pub open spec fn unended(ledgers: Seq<LedgerEntry>, task: Seq<char>) -> bool {
    forall|k: int| #[trigger]
        leads(ledgers, "executor:"@ + task, k) ==> ledgers[k].ledger.state == LedgerState::Open
}

proof fn lemma_unended(run: RunRecord, task: Seq<char>)
    ensures
        schedule::relay_open(run, task) <==> unended(run.context@, task),
{
    reveal(unended);
    let key = "executor:"@ + task;
    law_ledgers_are_found_by_key(run.context@, key, 0);
    match record::ledger_at(run.context@, key, 0) {
        Some(k) => {
            assert(leads(run.context@, key, k));
            assert forall|m: int| #[trigger] leads(run.context@, key, m) implies m == k by {
                assert(run.context@[m].key@ == key);
            }
        },
        None => {
            assert forall|m: int| !#[trigger] leads(run.context@, key, m) by {}
        },
    }
}

/// Whether a task was launched, left nothing behind, and waits for nothing.
#[verifier::opaque]
pub open spec fn left_nothing(run: RunRecord, task: TaskInspection) -> bool {
    &&& task.state == TaskState::Blocked
    &&& !is_accepted(run.accepted@, task.packet.task_id@)
    &&& forall|d: int|
        0 <= d < task.packet.dependencies@.len() ==> is_accepted(
            run.accepted@,
            (#[trigger] task.packet.dependencies@[d])@,
        )
    &&& unended(run.context@, task.packet.task_id@)
}

proof fn lemma_left_nothing(run: RunRecord, task: TaskInspection)
    ensures
        schedule::blocked_launch(run, task) <==> left_nothing(run, task),
{
    reveal(left_nothing);
    let ids = crate::text::texts(task.packet.dependencies@);
    lemma_accepted(run.accepted@, task.packet.task_id@);
    lemma_unended(run, task.packet.task_id@);
    assert forall|d: int| 0 <= d < ids.len() implies (record::accepted_at(
        run.accepted@,
        #[trigger] ids[d],
        0,
    ) is Some <==> is_accepted(run.accepted@, task.packet.dependencies@[d]@)) by {
        lemma_accepted(run.accepted@, ids[d]);
    }
    if schedule::all_accepted(run, ids) {
        assert forall|d: int| 0 <= d < task.packet.dependencies@.len() implies is_accepted(
            run.accepted@,
            (#[trigger] task.packet.dependencies@[d])@,
        ) by {
            assert(record::accepted_at(run.accepted@, ids[d], 0) is Some);
        }
    }
    if left_nothing(run, task) {
        assert forall|d: int| 0 <= d < ids.len() implies record::accepted_at(
            run.accepted@,
            #[trigger] ids[d],
            0,
        ) is Some by {
            assert(is_accepted(run.accepted@, task.packet.dependencies@[d]@));
        }
    }
}

proof fn lemma_first_blocked(run: RunRecord, tasks: Seq<TaskInspection>, i: int)
    requires
        0 <= i,
    ensures
        match schedule::blocked_at(run, tasks, i) {
            Some(k) => i <= k < tasks.len() && left_nothing(run, tasks[k]) && forall|j: int|
                i <= j < k ==> !left_nothing(run, #[trigger] tasks[j]),
            None => forall|j: int| i <= j < tasks.len() ==> !left_nothing(run, #[trigger] tasks[j]),
        },
    decreases tasks.len() - i,
{
    if i < tasks.len() {
        lemma_left_nothing(run, tasks[i]);
        lemma_first_blocked(run, tasks, i + 1);
    }
}

proof fn lemma_spent(list: Seq<Relaunches>, task: Seq<char>, i: int, n: int)
    requires
        0 <= i,
    ensures
        i <= n < list.len() && list[n].task_id@ == task && (forall|j: int|
            i <= j < n ==> (#[trigger] list[j]).task_id@ != task) ==> schedule::spent(list, task, i)
            == list[n].spent,
        (forall|j: int| i <= j < list.len() ==> (#[trigger] list[j]).task_id@ != task)
            ==> schedule::spent(list, task, i) == 0,
    decreases list.len() - i,
{
    if i < list.len() && list[i].task_id@ != task {
        lemma_spent(list, task, i + 1, n);
    }
}

/// What was counted for a task is what the first entry of the task says, and nothing
/// where there is none.
pub proof fn law_relaunches_are_counted_by_task(list: Seq<Relaunches>, task: Seq<char>, n: int)
    ensures
        0 <= n < list.len() && list[n].task_id@ == task && (forall|j: int|
            0 <= j < n ==> (#[trigger] list[j]).task_id@ != task) ==> schedule::spent(list, task, 0)
            == list[n].spent,
        (forall|j: int| 0 <= j < list.len() ==> (#[trigger] list[j]).task_id@ != task)
            ==> schedule::spent(list, task, 0) == 0,
{
    lemma_spent(list, task, 0, n);
}

/// The task that is launched again is the first that left nothing behind, while nothing
/// is pending or captured, the workspace is unchanged and it was launched again less
/// than twice; where no task left nothing behind, none is.
pub proof fn law_the_first_empty_launch_is_repeated(
    run: RunRecord,
    tasks: Seq<TaskInspection>,
    unchanged: bool,
    k: int,
)
    ensures
        schedule::relaunched(run, tasks, unchanged) == Some(k) <==> {
            &&& run.pending is None
            &&& run.branches@.len() == 0
            &&& unchanged
            &&& 0 <= k < tasks.len()
            &&& left_nothing(run, tasks[k])
            &&& forall|j: int| 0 <= j < k ==> !left_nothing(run, #[trigger] tasks[j])
            &&& schedule::spent(run.executor_relaunches@, tasks[k].packet.task_id@, 0) < 2
        },
{
    lemma_first_blocked(run, tasks, 0);
}

// ---------------------------------------------------------------------------
// Steps
// ---------------------------------------------------------------------------
proof fn lemma_ready(tasks: Seq<TaskInspection>, k: int, n: int)
    requires
        0 <= k <= tasks.len(),
    ensures
        ({
            let ready = concurrency::ready_at(tasks, k);
            &&& ready.contains(n) <==> 0 <= n < k && tasks[n].structurally_ready
            &&& forall|a: int| 0 <= a < ready.len() ==> 0 <= #[trigger] ready[a] < k
            &&& forall|a: int, b: int| 0 <= a < b < ready.len() ==> ready[a] < ready[b]
        }),
    decreases k,
{
    if k > 0 {
        lemma_ready(tasks, k - 1, n);
        let before = concurrency::ready_at(tasks, k - 1);
        let ready = concurrency::ready_at(tasks, k);
        if tasks[k - 1].structurally_ready {
            assert(ready[before.len() as int] == k - 1);
            if before.contains(n) {
                let m = choose|m: int| 0 <= m < before.len() && before[m] == n;
                assert(ready[m] == n);
            }
            if ready.contains(n) && n != k - 1 {
                let m = choose|m: int| 0 <= m < ready.len() && ready[m] == n;
                assert(before[m] == n);
            }
        }
    }
}

/// The tasks that can be started are exactly those that are ready, in order.
pub proof fn law_ready_tasks_are_listed_in_order(tasks: Seq<TaskInspection>, n: int)
    ensures
        ({
            let ready = concurrency::ready_at(tasks, tasks.len() as int);
            &&& ready.contains(n) <==> 0 <= n < tasks.len() && tasks[n].structurally_ready
            &&& forall|a: int, b: int| 0 <= a < b < ready.len() ==> ready[a] < ready[b]
        }),
{
    lemma_ready(tasks, tasks.len() as int, n);
}

/// What is pending is verified before anything else, then what was captured is brought
/// back; the whole is integrated once every task is verified. A task is started only
/// while the source is unchanged, and the first that is ready is.
pub proof fn law_steps_follow_what_is_recorded(run: RunRecord, turn: Turn, g: Ground<'_>, step: Step)
    requires
        schedule::step_refusal(run, turn, g) is None,
        schedule::is_step(step, run, turn, g),
    ensures
        !turn.cancelled,
        turn.policy_hash@ == run.policy_hash@,
        step is VerifyPending <==> run.pending is Some,
        step is Reconcile <==> run.pending is None && run.branches@.len() > 0,
        step is Integrate <==> run.pending is None && run.branches@.len() == 0 && forall|n: int|
            0 <= n < g.tasks@.len() ==> (#[trigger] g.tasks@[n]).state == TaskState::Verified,
        step is Execute || step is Batch || step is Relaunch ==> turn.unchanged,
        step is Relaunch ==> forall|n: int|
            0 <= n < g.tasks@.len() ==> !(#[trigger] g.tasks@[n]).structurally_ready,
        step matches Step::Execute(k) ==> k < g.tasks@.len() && g.tasks@[k as int].structurally_ready
            && forall|n: int| 0 <= n < k ==> !(#[trigger] g.tasks@[n]).structurally_ready,
{
    let ready = schedule::ready(g);
    lemma_ready(g.tasks@, g.tasks@.len() as int, 0);
    if ready.len() == 0 {
        assert forall|n: int| 0 <= n < g.tasks@.len() implies !(#[trigger]
        g.tasks@[n]).structurally_ready by {
            lemma_ready(g.tasks@, g.tasks@.len() as int, n);
            if g.tasks@[n].structurally_ready {
                assert(ready.contains(n));
            }
        }
    } else {
        let k = ready[0];
        assert(ready.contains(k));
        lemma_ready(g.tasks@, g.tasks@.len() as int, k);
        assert forall|n: int| 0 <= n < k implies !(#[trigger] g.tasks@[n]).structurally_ready by {
            lemma_ready(g.tasks@, g.tasks@.len() as int, n);
            if g.tasks@[n].structurally_ready {
                let m = choose|m: int| 0 <= m < ready.len() && ready[m] == n;
                assert(ready[m] >= ready[0]);
            }
        }
    }
}

/// Whether two tasks are decided to be compatible.
pub open spec fn apart(g: Ground<'_>, a: int, b: int) -> bool {
    concurrency::decision_of(
        *g.plan,
        *g.info,
        g.tasks@[a].packet,
        g.tasks@[b].packet,
        *g.facts,
    ).decision == Compatibility::Compatible
}

proof fn lemma_fits(g: Ground<'_>, batch: Seq<int>, candidate: int, b: int, n: int) -> (m: int)
    requires
        0 <= b <= batch.len(),
    ensures
        schedule::fits(g, batch, candidate, b) == (None::<Seq<char>>, true) && b <= n < batch.len()
            ==> apart(g, batch[n], candidate),
        schedule::fits(g, batch, candidate, b) == (None::<Seq<char>>, false) ==> b <= m
            < batch.len() && !apart(g, batch[m], candidate),
    decreases batch.len() - b,
{
    if b < batch.len() && schedule::compatible(g, batch[b], candidate) {
        lemma_fits(g, batch, candidate, b + 1, n)
    } else {
        b
    }
}

proof fn lemma_keeps(g: Ground<'_>, ready: Seq<int>, limit: int, j: int, batch: Seq<int>)
    requires
        0 <= j <= ready.len(),
        batch.len() <= limit,
    ensures
        ({
            let out = schedule::grown(g, ready, limit, j, batch).1;
            &&& batch.len() <= out.len() <= limit
            &&& forall|m: int| 0 <= m < batch.len() ==> #[trigger] out[m] == batch[m]
            &&& forall|m: int|
                batch.len() <= m < out.len() ==> ready.contains(#[trigger] out[m])
        }),
    decreases ready.len() - j,
{
    if j < ready.len() && batch.len() < limit {
        assert(ready.contains(ready[j]));
        let more = batch.push(ready[j]);
        lemma_keeps(g, ready, limit, j + 1, more);
        lemma_keeps(g, ready, limit, j + 1, batch);
        if schedule::fits(g, batch, ready[j], 0) == (None::<Seq<char>>, true) {
            let out = schedule::grown(g, ready, limit, j, batch).1;
            assert forall|m: int| 0 <= m < batch.len() implies #[trigger] out[m] == batch[m] by {
                assert(out[m] == more[m]);
            }
            assert forall|m: int| batch.len() <= m < out.len() implies ready.contains(
                #[trigger] out[m],
            ) by {
                if m == batch.len() {
                    assert(out[m] == more[m]);
                }
            }
        }
    }
}

proof fn lemma_greedy(
    g: Ground<'_>,
    ready: Seq<int>,
    limit: int,
    j: int,
    batch: Seq<int>,
    n: int,
) -> (m: int)
    requires
        0 <= j <= n < ready.len(),
        batch.len() <= limit,
        schedule::grown(g, ready, limit, j, batch).0 is None,
    ensures
        ({
            let out = schedule::grown(g, ready, limit, j, batch).1;
            ||| out.len() == limit
            ||| out.contains(ready[n])
            ||| 0 <= m < out.len() && !apart(g, out[m], ready[n])
        }),
    decreases n - j,
{
    let out = schedule::grown(g, ready, limit, j, batch).1;
    lemma_keeps(g, ready, limit, j, batch);
    if batch.len() >= limit {
        0
    } else {
        let m = lemma_fits(g, batch, ready[j], 0, 0);
        let fit = schedule::fits(g, batch, ready[j], 0);
        let next = if fit.1 {
            batch.push(ready[j])
        } else {
            batch
        };
        lemma_keeps(g, ready, limit, j + 1, next);
        if j == n {
            if fit.1 {
                assert(out[batch.len() as int] == next[batch.len() as int]);
                assert(out.contains(ready[n]));
            } else {
                assert(out[m] == batch[m]);
            }
            m
        } else {
            lemma_greedy(g, ready, limit, j + 1, next, n)
        }
    }
}

/// What is launched together starts with the first task that is ready, holds only tasks
/// that are ready, and leaves one out only where it is full or the task is not proven
/// compatible with one that it holds.
pub proof fn law_batches_are_as_large_as_they_may(
    run: RunRecord,
    turn: Turn,
    g: Ground<'_>,
    together: Vec<usize>,
    a: int,
    n: int,
) -> (m: int)
    requires
        schedule::step_refusal(run, turn, g) is None,
        schedule::is_step(Step::Batch(together), run, turn, g),
    ensures
        1 < together@.len() <= turn.limit,
        turn.can_fork,
        forall|k: int| 0 <= k < together@[0] ==> !(#[trigger] g.tasks@[k]).structurally_ready,
        0 <= a < together@.len() ==> together@[a] < g.tasks@.len()
            && g.tasks@[together@[a] as int].structurally_ready,
        0 <= n < g.tasks@.len() && g.tasks@[n].structurally_ready ==> {
            ||| together@.len() == turn.limit
            ||| 0 <= m < together@.len() && (together@[m] == n || !apart(
                g,
                together@[m] as int,
                n,
            ))
        },
{
    let ready = schedule::ready(g);
    let limit = turn.limit as int;
    let first = seq![ready[0]];
    let out = schedule::batch(g, limit).1;
    assert(schedule::positions(together@) == out);
    assert(schedule::positions(together@).len() == together@.len());
    assert forall|k: int| 0 <= k < together@.len() implies #[trigger] together@[k] == out[k] by {
        assert(schedule::positions(together@)[k] == together@[k] as int);
    }
    lemma_keeps(g, ready, limit, 1, first);
    lemma_ready(g.tasks@, g.tasks@.len() as int, ready[0]);
    assert(ready.contains(ready[0]));
    assert(out[0] == first[0]);
    assert forall|k: int| 0 <= k < together@[0] implies !(#[trigger]
    g.tasks@[k]).structurally_ready by {
        lemma_ready(g.tasks@, g.tasks@.len() as int, k);
        if g.tasks@[k].structurally_ready {
            let b = choose|b: int| 0 <= b < ready.len() && ready[b] == k;
            assert(ready[b] >= ready[0]);
        }
    }
    if 0 <= a < together@.len() {
        assert(together@[a] == out[a]);
        assert(ready.contains(out[a]));
        lemma_ready(g.tasks@, g.tasks@.len() as int, out[a]);
    }
    if 0 <= n < g.tasks@.len() && g.tasks@[n].structurally_ready {
        lemma_ready(g.tasks@, g.tasks@.len() as int, n);
        let at = choose|at: int| 0 <= at < ready.len() && ready[at] == n;
        if at == 0 {
            assert(together@[0] == out[0]);
            0
        } else {
            let m = lemma_greedy(g, ready, limit, 1, first, at);
            if out.contains(n) {
                let w = choose|w: int| 0 <= w < out.len() && out[w] == n;
                assert(together@[w] == out[w]);
                w
            } else {
                if 0 <= m < out.len() {
                    assert(together@[m] == out[m]);
                }
                m
            }
        }
    } else {
        0
    }
}

} // verus!
