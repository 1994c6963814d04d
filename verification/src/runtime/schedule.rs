//! What a run does next: interrupted work is contained first, captured results
//! are verified one at a time, and only what is proven compatible is launched
//! together.
use crate::error::{invalid, Error};
use crate::planning::model::{ExecutionPlan, TaskInspection};
use crate::protocol::{AgentRole, JobState, TaskState};
use crate::repository::RepositoryInfo;
use crate::runtime::concurrency;
use crate::runtime::concurrency::{decide, Compatibility, SemanticFacts};
use crate::runtime::config::MAX_EXECUTOR_RELAUNCHES;
use crate::runtime::context;
use crate::runtime::context::LedgerState;
use crate::runtime::record;
use crate::runtime::record::{Relaunches, RunRecord, RuntimeJob, RuntimeJobState};
use crate::text;
use vstd::prelude::*;

verus! {

// ---------------------------------------------------------------------------
// Interrupted jobs
// ---------------------------------------------------------------------------

/// Whether a job was still open when its controller went away.
pub open spec fn was_open(job: RuntimeJob) -> bool {
    job.state == RuntimeJobState::Queued || job.state == RuntimeJobState::Running
}

/// The positions of the jobs that were still open, from the `i`-th on.
pub open spec fn open_jobs(jobs: Seq<RuntimeJob>, i: int) -> Seq<int>
    decreases jobs.len() - i,
{
    if i < 0 || i >= jobs.len() {
        Seq::empty()
    } else if was_open(jobs[i]) {
        seq![i] + open_jobs(jobs, i + 1)
    } else {
        open_jobs(jobs, i + 1)
    }
}

/// Whether a job on the serialized acceptance path was still open. That it left
/// nothing behind proves no decision.
pub open spec fn acceptance_interrupted(jobs: Seq<RuntimeJob>) -> bool {
    exists|i: int|
        0 <= i < jobs.len() && was_open(#[trigger] jobs[i]) && jobs[i].role != AgentRole::Executor
}

pub const INTERRUPTED: &'static str =
    "controller interrupted; external success is unproven; no automatic retry";

/// The jobs that were still open, and whether one of them was on the acceptance
/// path. Interrupted executors are contained; an interrupted verifier needs
/// explicit review.
pub fn interrupted(jobs: &Vec<RuntimeJob>) -> (r: (Vec<usize>, bool))
    ensures
        r.0@.map_values(|i: usize| i as int) == open_jobs(jobs@, 0),
        forall|k: int| 0 <= k < r.0@.len() ==> (#[trigger] r.0@[k]) < jobs@.len(),
        r.1 == acceptance_interrupted(jobs@),
{
    let mut out: Vec<usize> = Vec::new();
    let mut fatal: bool = false;
    assert(out@.map_values(|i: usize| i as int) + open_jobs(jobs@, 0) =~= open_jobs(jobs@, 0));
    let mut i: usize = 0;
    while i < jobs.len()
        invariant
            i <= jobs@.len(),
            out@.map_values(|i: usize| i as int) + open_jobs(jobs@, i as int) == open_jobs(jobs@, 0),
            forall|k: int| 0 <= k < out@.len() ==> (#[trigger] out@[k]) < jobs@.len(),
            fatal == (exists|k: int|
                0 <= k < i && was_open(#[trigger] jobs@[k]) && jobs@[k].role
                    != AgentRole::Executor),
        decreases jobs@.len() - i,
    {
        if jobs[i].state == RuntimeJobState::Queued || jobs[i].state == RuntimeJobState::Running {
            let ghost so_far = out@.map_values(|i: usize| i as int);
            let ghost rest = open_jobs(jobs@, i + 1);
            out.push(i);
            proof {
                assert(out@.map_values(|i: usize| i as int) =~= so_far.push(i as int));
                assert(so_far.push(i as int) + rest =~= so_far + (seq![i as int] + rest));
                assert(was_open(jobs@[i as int]));
            }
            if jobs[i].role != AgentRole::Executor {
                fatal = true;
            }
        }
        i += 1;
    }
    assert(out@.map_values(|i: usize| i as int) + open_jobs(jobs@, i as int) =~= out@.map_values(
        |i: usize| i as int,
    ));
    (out, fatal)
}

/// What becomes of the registration of an interrupted job, if it can still
/// change.
pub fn abandoned(state: JobState) -> (r: Option<JobState>)
    ensures
        r == if !crate::protocol::job_unfinished(state) {
            None
        } else if state == JobState::Queued {
            Some(JobState::Cancelled)
        } else {
            Some(JobState::Failed)
        },
{
    if !state.unfinished() {
        None
    } else if state == JobState::Queued {
        Some(JobState::Cancelled)
    } else {
        Some(JobState::Failed)
    }
}

/// Refuses to go on over an interrupted acceptance.
pub fn check_interrupted(fatal: bool) -> (r: Result<(), Error>)
    ensures
        crate::error::settles(
            r,
            if fatal {
                Some("interrupted job requires explicit planner review"@)
            } else {
                None
            },
        ),
{
    if fatal {
        invalid("interrupted job requires explicit planner review")
    } else {
        Ok(())
    }
}

/// Refuses to drive a run past its correction limit.
pub fn check_rounds(run: &RunRecord, max_rounds: u32) -> (r: Result<(), Error>)
    ensures
        crate::error::settles(
            r,
            if run.correction_round <= max_rounds {
                None
            } else {
                Some("correction limit reached; needs planner escalation"@)
            },
        ),
{
    if run.correction_round <= max_rounds {
        Ok(())
    } else {
        invalid("correction limit reached; needs planner escalation")
    }
}

/// Whether the derived ontology has to be refreshed before anything else: a
/// verified result was recorded, and nothing is pending.
pub fn needs_refresh(run: &RunRecord) -> (r: bool)
    ensures
        r == (run.pending is None && run.accepted@.len() > 0),
{
    run.pending.is_none() && run.accepted.len() > 0
}

// ---------------------------------------------------------------------------
// Launching again
// ---------------------------------------------------------------------------

/// Whether the relay of an executor is open, or was never begun.
pub open spec fn relay_open(run: RunRecord, task: Seq<char>) -> bool {
    match record::ledger_at(run.context@, "executor:"@ + task, 0) {
        Some(k) => run.context@[k].ledger.state == LedgerState::Open,
        None => true,
    }
}

fn is_relay_open(run: &RunRecord, task: &str) -> (r: bool)
    ensures
        r == relay_open(*run, task@),
{
    let key: String = text::join2("executor:", task);
    match record::find_ledger(&run.context, key.as_str()) {
        Some(k) => run.context[k].ledger.state == LedgerState::Open,
        None => true,
    }
}

/// Whether every named task was accepted.
pub open spec fn all_accepted(run: RunRecord, ids: Seq<Seq<char>>) -> bool {
    forall|i: int|
        0 <= i < ids.len() ==> record::accepted_at(run.accepted@, #[trigger] ids[i], 0) is Some
}

fn are_accepted(run: &RunRecord, ids: &Vec<String>) -> (r: bool)
    ensures
        r == all_accepted(*run, text::texts(ids@)),
{
    let ghost all = text::texts(ids@);
    let mut i: usize = 0;
    while i < ids.len()
        invariant
            i <= ids@.len(),
            all == text::texts(ids@),
            forall|k: int|
                0 <= k < i ==> record::accepted_at(run.accepted@, #[trigger] all[k], 0) is Some,
        decreases ids@.len() - i,
    {
        assert(all[i as int] == ids@[i as int]@);
        if record::find_accepted(&run.accepted, ids[i].as_str()).is_none() {
            return false;
        }
        i += 1;
    }
    true
}

/// Whether a task was blocked by a launch that left nothing behind: it was never
/// accepted, its dependencies were, and its relay is open.
pub open spec fn blocked_launch(run: RunRecord, task: TaskInspection) -> bool {
    &&& task.state == TaskState::Blocked
    &&& record::accepted_at(run.accepted@, task.packet.task_id@, 0) is None
    &&& all_accepted(run, text::texts(task.packet.dependencies@))
    &&& relay_open(run, task.packet.task_id@)
}

/// The first task whose launch left nothing behind, from the `i`-th on.
pub open spec fn blocked_at(run: RunRecord, tasks: Seq<TaskInspection>, i: int) -> Option<int>
    decreases tasks.len() - i,
{
    if i < 0 || i >= tasks.len() {
        None
    } else if blocked_launch(run, tasks[i]) {
        Some(i)
    } else {
        blocked_at(run, tasks, i + 1)
    }
}

fn find_blocked(run: &RunRecord, tasks: &Vec<TaskInspection>) -> (r: Option<usize>)
    ensures
        match r {
            Some(i) => i < tasks@.len() && blocked_at(*run, tasks@, 0) == Some(i as int),
            None => blocked_at(*run, tasks@, 0) is None,
        },
{
    let mut i: usize = 0;
    while i < tasks.len()
        invariant
            i <= tasks@.len(),
            blocked_at(*run, tasks@, 0) == blocked_at(*run, tasks@, i as int),
        decreases tasks@.len() - i,
    {
        let t: &TaskInspection = &tasks[i];
        if t.state == TaskState::Blocked && record::find_accepted(
            &run.accepted,
            t.packet.task_id.as_str(),
        ).is_none() && are_accepted(run, &t.packet.dependencies) && is_relay_open(
            run,
            t.packet.task_id.as_str(),
        ) {
            return Some(i);
        }
        i += 1;
    }
    None
}

/// How often a task was launched again, from the `i`-th record on.
pub open spec fn spent(list: Seq<Relaunches>, task: Seq<char>, i: int) -> u32
    decreases list.len() - i,
{
    if i < 0 || i >= list.len() {
        0
    } else if list[i].task_id@ == task {
        list[i].spent
    } else {
        spent(list, task, i + 1)
    }
}

fn find_spent(list: &Vec<Relaunches>, task: &str) -> (r: u32)
    ensures
        r == spent(list@, task@, 0),
{
    let mut i: usize = 0;
    while i < list.len()
        invariant
            i <= list@.len(),
            spent(list@, task@, 0) == spent(list@, task@, i as int),
        decreases list@.len() - i,
    {
        if text::same(list[i].task_id.as_str(), task) {
            return list[i].spent;
        }
        i += 1;
    }
    0
}

/// The task that is launched again, if one is: nothing is pending or captured,
/// the workspace is exactly as it was before the launch, and the task was not
/// launched again too often.
pub open spec fn relaunched(run: RunRecord, tasks: Seq<TaskInspection>, unchanged: bool) -> Option<int> {
    if run.pending is Some || run.branches@.len() > 0 || !unchanged {
        None
    } else {
        match blocked_at(run, tasks, 0) {
            Some(k) => if spent(run.executor_relaunches@, tasks[k].packet.task_id@, 0)
                < MAX_EXECUTOR_RELAUNCHES {
                Some(k)
            } else {
                None
            },
            None => None,
        }
    }
}

/// Finds the task that is launched again, if one is.
pub fn relaunch(run: &RunRecord, tasks: &Vec<TaskInspection>, unchanged: bool) -> (r: Option<usize>)
    ensures
        match r {
            Some(k) => k < tasks@.len() && relaunched(*run, tasks@, unchanged) == Some(k as int),
            None => relaunched(*run, tasks@, unchanged) is None,
        },
{
    if run.pending.is_some() || run.branches.len() > 0 || !unchanged {
        return None;
    }
    match find_blocked(run, tasks) {
        Some(k) => if find_spent(&run.executor_relaunches, tasks[k].packet.task_id.as_str())
            < MAX_EXECUTOR_RELAUNCHES {
            Some(k)
        } else {
            None
        },
        None => None,
    }
}

/// Counts that a task is launched again, and gives the count.
pub fn count_relaunch(run: &mut RunRecord, task: &str) -> (r: u32)
    requires
        spent(old(run).executor_relaunches@, task@, 0) < MAX_EXECUTOR_RELAUNCHES,
    ensures
        r == spent(old(run).executor_relaunches@, task@, 0) + 1,
        r <= MAX_EXECUTOR_RELAUNCHES,
        forall|id: Seq<char>| #[trigger]
            spent(final(run).executor_relaunches@, id, 0) == if id == task@ {
                r
            } else {
                spent(old(run).executor_relaunches@, id, 0)
            },
        *final(run) == (RunRecord {
            executor_relaunches: final(run).executor_relaunches,
            ..*old(run)
        }),
        crate::runtime::record::driven(*old(run), *final(run)),
{
    let ghost start = run.executor_relaunches@;
    let mut k: usize = 0;
    while k < run.executor_relaunches.len() && !text::same(
        run.executor_relaunches[k].task_id.as_str(),
        task,
    )
        invariant
            k <= run.executor_relaunches@.len(),
            run.executor_relaunches@ == start,
            *run == *old(run),
            spent(start, task@, 0) == spent(start, task@, k as int),
            forall|j: int| 0 <= j < k ==> (#[trigger] start[j]).task_id@ != task@,
        decreases run.executor_relaunches@.len() - k,
    {
        k += 1;
    }
    if k < run.executor_relaunches.len() {
        let n: u32 = run.executor_relaunches[k].spent + 1;
        let entry: Relaunches = Relaunches { task_id: task.to_owned(), spent: n };
        run.executor_relaunches.set(k, entry);
        proof {
            assert forall|id: Seq<char>| #[trigger]
                spent(run.executor_relaunches@, id, 0) == if id == task@ {
                    n
                } else {
                    spent(start, id, 0)
                } by {
                lemma_spent_set(start, run.executor_relaunches@, k as int, id, 0);
            }
        }
        n
    } else {
        let entry: Relaunches = Relaunches { task_id: task.to_owned(), spent: 1 };
        run.executor_relaunches.push(entry);
        proof {
            assert forall|id: Seq<char>| #[trigger]
                spent(run.executor_relaunches@, id, 0) == if id == task@ {
                    1u32
                } else {
                    spent(start, id, 0)
                } by {
                lemma_spent_push(start, entry, id, 0);
            }
        }
        1
    }
}

proof fn lemma_spent_set(
    start: Seq<Relaunches>,
    after: Seq<Relaunches>,
    k: int,
    id: Seq<char>,
    i: int,
)
    requires
        0 <= i <= start.len(),
        0 <= k < start.len(),
        after == start.update(k, after[k]),
        after[k].task_id@ == start[k].task_id@,
        forall|j: int| 0 <= j < k ==> (#[trigger] start[j]).task_id@ != start[k].task_id@,
    ensures
        spent(after, id, i) == if id == start[k].task_id@ && i <= k {
            after[k].spent
        } else {
            spent(start, id, i)
        },
    decreases start.len() - i,
{
    if i < start.len() {
        lemma_spent_set(start, after, k, id, i + 1);
    }
}

proof fn lemma_spent_push(start: Seq<Relaunches>, entry: Relaunches, id: Seq<char>, i: int)
    requires
        0 <= i <= start.len(),
        forall|j: int| 0 <= j < start.len() ==> (#[trigger] start[j]).task_id@ != entry.task_id@,
    ensures
        spent(start.push(entry), id, i) == if id == entry.task_id@ {
            entry.spent
        } else {
            spent(start, id, i)
        },
    decreases start.len() - i,
{
    if i < start.len() {
        lemma_spent_push(start, entry, id, i + 1);
    } else {
        reveal_with_fuel(spent, 2);
    }
}

// ---------------------------------------------------------------------------
// What is launched together
// ---------------------------------------------------------------------------

/// What is decided on the tasks of a plan: everything that compatibility depends
/// on.
#[derive(Debug)]
pub struct Ground<'a> {
    pub plan: &'a ExecutionPlan,
    pub info: &'a RepositoryInfo,
    pub tasks: &'a Vec<TaskInspection>,
    pub facts: &'a SemanticFacts,
}

/// What is recorded of a relaunch.
pub open spec fn relaunch_note(task: Seq<char>, attempt: nat) -> Seq<char> {
    task + ": attempt "@ + text::digits(attempt) + " of "@ + text::digits(
        MAX_EXECUTOR_RELAUNCHES as nat,
    ) + "; workspace proven unchanged since the issued baseline"@
}

pub fn say_relaunch(task: &str, attempt: u32) -> (r: String)
    ensures
        r@ == relaunch_note(task@, attempt as nat),
{
    let n: String = text::decimal(attempt as u64);
    let most: String = text::decimal(MAX_EXECUTOR_RELAUNCHES as u64);
    let head: String = text::join3(task, ": attempt ", n.as_str());
    let head: String = text::join3(head.as_str(), " of ", most.as_str());
    text::join2(head.as_str(), "; workspace proven unchanged since the issued baseline")
}

/// Whether two tasks are proven compatible.
pub open spec fn compatible(g: Ground<'_>, a: int, b: int) -> bool {
    concurrency::decision_of(
        *g.plan,
        *g.info,
        g.tasks@[a].packet,
        g.tasks@[b].packet,
        *g.facts,
    ).decision == Compatibility::Compatible
}

/// Whether a task fits a batch, from the `b`-th member on; or why that cannot be
/// decided.
pub open spec fn fits(g: Ground<'_>, batch: Seq<int>, candidate: int, b: int) -> (
    Option<Seq<char>>,
    bool,
)
    decreases batch.len() - b,
{
    if b < 0 || b >= batch.len() {
        (None, true)
    } else {
        match concurrency::decide_refusal(
            *g.plan,
            *g.info,
            g.tasks@[batch[b]].packet,
            g.tasks@[candidate].packet,
            *g.facts,
        ) {
            Some(m) => (Some(m), false),
            None => if compatible(g, batch[b], candidate) {
                fits(g, batch, candidate, b + 1)
            } else {
                (None, false)
            },
        }
    }
}

/// A batch, grown by the ready tasks from the `j`-th on up to a limit.
pub open spec fn grown(g: Ground<'_>, ready: Seq<int>, limit: int, j: int, batch: Seq<int>) -> (
    Option<Seq<char>>,
    Seq<int>,
)
    decreases ready.len() - j,
{
    if j < 0 || j >= ready.len() || batch.len() >= limit {
        (None, batch)
    } else {
        let fit = fits(g, batch, ready[j], 0);
        match fit.0 {
            Some(m) => (Some(m), batch),
            None => if fit.1 {
                grown(g, ready, limit, j + 1, batch.push(ready[j]))
            } else {
                grown(g, ready, limit, j + 1, batch)
            },
        }
    }
}

/// Some positions.
pub open spec fn positions(v: Seq<usize>) -> Seq<int> {
    v.map_values(|i: usize| i as int)
}

fn fit(g: &Ground<'_>, batch: &Vec<usize>, candidate: usize) -> (r: Result<bool, Error>)
    requires
        candidate < g.tasks@.len(),
        forall|k: int| 0 <= k < batch@.len() ==> (#[trigger] batch@[k]) < g.tasks@.len(),
    ensures
        crate::error::settles(r, fits(*g, positions(batch@), candidate as int, 0).0),
        r matches Ok(yes) ==> yes == fits(*g, positions(batch@), candidate as int, 0).1,
{
    let ghost all = positions(batch@);
    let mut b: usize = 0;
    while b < batch.len()
        invariant
            b <= batch@.len(),
            all == positions(batch@),
            candidate < g.tasks@.len(),
            forall|k: int| 0 <= k < batch@.len() ==> (#[trigger] batch@[k]) < g.tasks@.len(),
            fits(*g, all, candidate as int, 0) == fits(*g, all, candidate as int, b as int),
        decreases batch@.len() - b,
    {
        let k: usize = batch[b];
        assert(all[b as int] == k);
        match decide(g.plan, g.info, &g.tasks[k].packet, &g.tasks[candidate].packet, g.facts) {
            Ok(d) => {
                if d.decision != Compatibility::Compatible {
                    return Ok(false);
                }
            },
            Err(e) => return Err(e),
        }
        b += 1;
    }
    Ok(true)
}

fn grow(g: &Ground<'_>, ready: &Vec<usize>, limit: usize) -> (r: Result<Vec<usize>, Error>)
    requires
        ready@.len() > 0,
        forall|k: int| 0 <= k < ready@.len() ==> (#[trigger] ready@[k]) < g.tasks@.len(),
    ensures
        ({
            let full = grown(
                *g,
                positions(ready@),
                limit as int,
                1,
                seq![ready@[0] as int],
            );
            &&& crate::error::settles(r, full.0)
            &&& (r matches Ok(v) ==> positions(v@) == full.1)
        }),
        r matches Ok(v) ==> forall|k: int|
            0 <= k < v@.len() ==> (#[trigger] v@[k]) < g.tasks@.len(),
{
    let ghost list = positions(ready@);
    let ghost full = grown(*g, list, limit as int, 1, seq![ready@[0] as int]);
    let mut batch: Vec<usize> = Vec::new();
    batch.push(ready[0]);
    assert(positions(batch@) =~= seq![ready@[0] as int]);
    let mut j: usize = 1;
    while j < ready.len() && batch.len() < limit
        invariant
            1 <= j <= ready@.len(),
            list == positions(ready@),
            full == grown(*g, list, limit as int, 1, seq![ready@[0] as int]),
            full == grown(*g, list, limit as int, j as int, positions(batch@)),
            forall|k: int| 0 <= k < ready@.len() ==> (#[trigger] ready@[k]) < g.tasks@.len(),
            forall|k: int| 0 <= k < batch@.len() ==> (#[trigger] batch@[k]) < g.tasks@.len(),
        decreases ready@.len() - j,
    {
        let ghost so_far = positions(batch@);
        assert(list[j as int] == ready@[j as int]);
        match fit(g, &batch, ready[j]) {
            Ok(yes) => {
                if yes {
                    batch.push(ready[j]);
                    assert(positions(batch@) =~= so_far.push(list[j as int]));
                }
            },
            Err(e) => return Err(e),
        }
        j += 1;
    }
    assert(positions(batch@).len() == batch@.len());
    Ok(batch)
}

// ---------------------------------------------------------------------------
// The next step
// ---------------------------------------------------------------------------

/// What a run does next.
#[derive(Debug, PartialEq, Eq)]
pub enum Step {
    /// The pending result is verified.
    VerifyPending,
    /// The first captured branch is brought back.
    Reconcile,
    /// Every task is verified; the whole is.
    Integrate,
    /// A task whose launch left nothing behind is planned again.
    Relaunch(usize),
    /// Proven-compatible tasks are executed together.
    Batch(Vec<usize>),
    /// One task is executed.
    Execute(usize),
}

/// What is known when a step is chosen.
#[derive(Debug, PartialEq, Eq)]
pub struct Turn {
    pub cancelled: bool,
    /// The hash of the project policy as it is now.
    pub policy_hash: String,
    /// Whether the workspace is what the run expects.
    pub unchanged: bool,
    pub limit: usize,
    /// Whether the providers can be used by several executors at once.
    pub can_fork: bool,
}

pub const POLICY_CHANGED: &'static str = "SOURCE_DRIFT: canonical policy changed";

pub const SOURCE_CHANGED: &'static str =
    "SOURCE_DRIFT: current workspace differs from the captured result; explicit replan required";

pub const NOTHING_RUNNABLE: &'static str =
    "no runnable task; unverified/rejected/interrupted work requires planner decision";

/// Whether every task is verified.
pub open spec fn all_verified(tasks: Seq<TaskInspection>) -> bool {
    forall|i: int| 0 <= i < tasks.len() ==> (#[trigger] tasks[i]).state == TaskState::Verified
}

fn are_verified(tasks: &Vec<TaskInspection>) -> (r: bool)
    ensures
        r == all_verified(tasks@),
{
    let mut i: usize = 0;
    while i < tasks.len()
        invariant
            i <= tasks@.len(),
            forall|k: int| 0 <= k < i ==> (#[trigger] tasks@[k]).state == TaskState::Verified,
        decreases tasks@.len() - i,
    {
        if tasks[i].state != TaskState::Verified {
            return false;
        }
        i += 1;
    }
    true
}

/// The tasks that can be started, in order.
pub open spec fn ready(g: Ground<'_>) -> Seq<int> {
    concurrency::ready_at(g.tasks@, g.tasks@.len() as int)
}

/// The tasks that are launched together, or why that cannot be decided.
pub open spec fn batch(g: Ground<'_>, limit: int) -> (Option<Seq<char>>, Seq<int>) {
    grown(g, ready(g), limit, 1, seq![ready(g)[0]])
}

/// Whether tasks may be launched together at all.
pub open spec fn parallel(turn: Turn) -> bool {
    turn.limit > 1 && turn.can_fork
}

/// Why a run cannot go on, if it cannot.
pub open spec fn step_refusal(run: RunRecord, turn: Turn, g: Ground<'_>) -> Option<Seq<char>> {
    if turn.cancelled {
        Some("runtime cancelled"@)
    } else if turn.policy_hash@ != run.policy_hash@ {
        Some(POLICY_CHANGED@)
    } else if run.pending is Some || run.branches@.len() > 0 {
        None
    } else if !turn.unchanged {
        Some(SOURCE_CHANGED@)
    } else if all_verified(g.tasks@) {
        None
    } else if ready(g).len() == 0 {
        if relaunched(run, g.tasks@, true) is Some {
            None
        } else {
            Some(NOTHING_RUNNABLE@)
        }
    } else if parallel(turn) {
        batch(g, turn.limit as int).0
    } else {
        None
    }
}

/// Whether a step is the next one of a run that goes on.
pub open spec fn is_step(step: Step, run: RunRecord, turn: Turn, g: Ground<'_>) -> bool {
    if run.pending is Some {
        step is VerifyPending
    } else if run.branches@.len() > 0 {
        step is Reconcile
    } else if all_verified(g.tasks@) {
        step is Integrate
    } else if ready(g).len() == 0 {
        step matches Step::Relaunch(k) && relaunched(run, g.tasks@, true) == Some(k as int)
    } else if parallel(turn) && batch(g, turn.limit as int).1.len() > 1 {
        step matches Step::Batch(v) && positions(v@) == batch(g, turn.limit as int).1
    } else {
        step matches Step::Execute(k) && k as int == ready(g)[0]
    }
}

/// Chooses what a run does next.
pub fn next_step(run: &RunRecord, turn: &Turn, g: &Ground<'_>) -> (r: Result<Step, Error>)
    ensures
        crate::error::settles(r, step_refusal(*run, *turn, *g)),
        r matches Ok(step) ==> is_step(step, *run, *turn, *g),
{
    if turn.cancelled {
        return invalid("runtime cancelled");
    }
    if !text::same(turn.policy_hash.as_str(), run.policy_hash.as_str()) {
        return invalid(POLICY_CHANGED);
    }
    if run.pending.is_some() {
        return Ok(Step::VerifyPending);
    }
    if run.branches.len() > 0 {
        return Ok(Step::Reconcile);
    }
    if !turn.unchanged {
        return invalid(SOURCE_CHANGED);
    }
    if are_verified(g.tasks) {
        return Ok(Step::Integrate);
    }
    let list: Vec<usize> = concurrency::find_ready(g.tasks);
    assert(positions(list@) =~= ready(*g));
    assert(positions(list@).len() == list@.len());
    if list.len() == 0 {
        return match relaunch(run, g.tasks, true) {
            Some(k) => Ok(Step::Relaunch(k)),
            None => invalid(NOTHING_RUNNABLE),
        };
    }
    assert(ready(*g)[0] == list@[0]);
    if turn.limit > 1 && turn.can_fork {
        match grow(g, &list, turn.limit) {
            Ok(together) => {
                assert(positions(together@).len() == together@.len());
                if together.len() > 1 {
                    return Ok(Step::Batch(together));
                }
            },
            Err(e) => return Err(e),
        }
    }
    Ok(Step::Execute(list[0]))
}

proof fn lemma_fits(g: Ground<'_>, members: Seq<int>, candidate: int, b: int, k: int)
    requires
        0 <= b <= k < members.len(),
        fits(g, members, candidate, b).1,
    ensures
        compatible(g, members[k], candidate),
    decreases k - b,
{
    if b < k {
        lemma_fits(g, members, candidate, b + 1, k);
    }
}

proof fn lemma_grown(g: Ground<'_>, list: Seq<int>, limit: int, j: int, members: Seq<int>)
    requires
        1 <= members.len() <= limit,
        0 <= j,
        forall|a: int, b: int|
            0 <= a < b < members.len() ==> compatible(g, #[trigger] members[a], #[trigger] members[b]),
    ensures
        ({
            let v = grown(g, list, limit, j, members).1;
            &&& members.len() <= v.len() <= limit
            &&& forall|a: int, b: int|
                0 <= a < b < v.len() ==> compatible(g, #[trigger] v[a], #[trigger] v[b])
        }),
    decreases list.len() - j,
{
    if j < list.len() && members.len() < limit {
        let candidate = list[j];
        let fit_ = fits(g, members, candidate, 0);
        if fit_.0 is None {
            if fit_.1 {
                let more = members.push(candidate);
                assert forall|a: int, b: int| 0 <= a < b < more.len() implies compatible(
                    g,
                    #[trigger] more[a],
                    #[trigger] more[b],
                ) by {
                    if b == members.len() {
                        lemma_fits(g, members, candidate, 0, a);
                        assert(more[a] == members[a]);
                    } else {
                        assert(more[a] == members[a] && more[b] == members[b]);
                    }
                }
                lemma_grown(g, list, limit, j + 1, more);
            } else {
                lemma_grown(g, list, limit, j + 1, members);
            }
        }
    }
}

/// Tasks are launched together only where every two of them are proven
/// compatible, and never more of them than the limit.
pub proof fn law_only_compatible_tasks_run_together(
    run: RunRecord,
    turn: Turn,
    g: Ground<'_>,
    together: Vec<usize>,
    a: int,
    b: int,
)
    requires
        step_refusal(run, turn, g) is None,
        is_step(Step::Batch(together), run, turn, g),
        0 <= a < b < together@.len(),
    ensures
        compatible(g, together@[a] as int, together@[b] as int),
        together@.len() <= turn.limit,
{
    let first = seq![ready(g)[0]];
    lemma_grown(g, ready(g), turn.limit as int, 1, first);
    let v = batch(g, turn.limit as int).1;
    assert(positions(together@) == v);
    assert(v[a] == together@[a] && v[b] == together@[b]);
    assert(compatible(g, v[a], v[b]));
    assert(positions(together@).len() == together@.len());
}

/// A task is launched again only while nothing was captured and the workspace is
/// exactly as it was before the launch.
pub proof fn law_relaunching_reuses_no_mutation(
    run: RunRecord,
    tasks: Seq<TaskInspection>,
    unchanged: bool,
)
    requires
        relaunched(run, tasks, unchanged) is Some,
    ensures
        unchanged,
        run.pending is None,
        run.branches@.len() == 0,
        ({
            let t = tasks[relaunched(run, tasks, unchanged)->0];
            &&& t.state == TaskState::Blocked
            &&& record::accepted_at(run.accepted@, t.packet.task_id@, 0) is None
            &&& spent(run.executor_relaunches@, t.packet.task_id@, 0) < MAX_EXECUTOR_RELAUNCHES
        }),
{
    lemma_blocked_at(run, tasks, 0);
}

proof fn lemma_blocked_at(run: RunRecord, tasks: Seq<TaskInspection>, i: int)
    requires
        0 <= i,
    ensures
        blocked_at(run, tasks, i) matches Some(k) ==> i <= k < tasks.len() && blocked_launch(
            run,
            tasks[k],
        ),
    decreases tasks.len() - i,
{
    if i < tasks.len() && !blocked_launch(run, tasks[i]) {
        lemma_blocked_at(run, tasks, i + 1);
    }
}

} // verus!
