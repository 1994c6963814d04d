//! When a run is begun, entered, stopped and undone.
use crate::planning::model::{ExecutionPlan, PlanState};
use crate::planning::scope;
use crate::protocol::{AgentJob, TaskPacket, TaskState};
use crate::repository::RepositorySourceState;
use crate::runtime::dispatch::FailureView;
use crate::runtime::record::{OutcomeClass, RunRecord, RunState};
use crate::runtime::run;
use crate::runtime::run::{CapturedResult, Settlement, Stopping};
use crate::source;
use crate::source::{FileEntry, SourceSnapshot};
use crate::store::TaskStatus;
use crate::text;
use vstd::prelude::*;

verus! {

/// Whether a file is listed with a state, and nothing else of its path before it.
pub open spec fn is_listed(files: Seq<FileEntry>, path: Seq<char>, n: int) -> bool {
    &&& 0 <= n < files.len()
    &&& files[n].path@ == path
    &&& forall|m: int| 0 <= m < n ==> (#[trigger] files[m]).path@ != path
}

proof fn lemma_at(files: Seq<FileEntry>, path: Seq<char>, i: int) -> (n: int)
    requires
        0 <= i,
    ensures
        match source::at(files, path, i) {
            Some(s) => i <= n < files.len() && files[n].path@ == path && files[n].state@ == s
                && forall|m: int| i <= m < n ==> (#[trigger] files[m]).path@ != path,
            None => forall|m: int| i <= m < files.len() ==> (#[trigger] files[m]).path@ != path,
        },
    decreases files.len() - i,
{
    if i >= files.len() || files[i].path@ == path {
        i
    } else {
        lemma_at(files, path, i + 1)
    }
}

/// The state of a file is that of the first entry of its path.
pub proof fn law_file_states_are_the_listed_ones(files: Seq<FileEntry>, path: Seq<char>, n: int)
    ensures
        is_listed(files, path, n) ==> source::at(files, path, 0) == Some(files[n].state@),
        (forall|m: int| 0 <= m < files.len() ==> (#[trigger] files[m]).path@ != path) <==> source::at(
            files,
            path,
            0,
        ) is None,
{
    let k = lemma_at(files, path, 0);
    if is_listed(files, path, n) {
        assert(files[n].path@ == path);
        if source::at(files, path, 0) is Some {
            assert(k == n);
        }
    }
    if source::at(files, path, 0) is Some {
        assert(files[k].path@ == path);
    }
}

// ---------------------------------------------------------------------------
// Beginning
// ---------------------------------------------------------------------------
/// A plan is taken over by a run exactly where it is active, none of its tasks has been
/// started, and no job was registered for it.
pub proof fn law_runs_take_over_untouched_plans(
    state: PlanState,
    tasks: Seq<TaskStatus>,
    jobs: Seq<AgentJob>,
    plan: Seq<char>,
)
    ensures
        run::ownership_refusal(state, tasks, jobs, plan) is None <==> {
            &&& state == PlanState::Active
            &&& forall|n: int|
                0 <= n < tasks.len() ==> (#[trigger] tasks[n]).state == TaskState::Planned
                    || tasks[n].state == TaskState::Ready
            &&& forall|n: int| 0 <= n < jobs.len() ==> (#[trigger] jobs[n]).plan_id@ != plan
        },
{
}

/// A workspace is taken over only while it is clean and was clean when the plan was
/// prepared, at the same commit, freshly indexed, and with every file that the plan was
/// made from unchanged.
pub proof fn law_runs_begin_where_the_plan_was_made(
    plan: ExecutionPlan,
    current: RepositorySourceState,
    index_fresh: bool,
    unaccepted: Option<String>,
    files: Seq<FileEntry>,
    s: int,
) -> (n: int)
    ensures
        ({
            let prepared = plan.metadata.source.observation;
            let support = plan.metadata.source.support@;
            run::adoption_refusal(plan, current, index_fresh, unaccepted, files) is None ==> {
                &&& !prepared.dirty
                &&& !current.dirty
                &&& current.head_commit is Some <==> prepared.head_commit is Some
                &&& current.head_commit is Some ==> current.head_commit->0@
                    == prepared.head_commit->0@
                &&& index_fresh
                &&& unaccepted is None
                &&& 0 <= s < support.len() ==> is_listed(files, support[s].path@, n)
                    && files[n].state@.hash == support[s].content_hash@
            }
        }),
{
    let support = plan.metadata.source.support@;
    if run::adoption_refusal(plan, current, index_fresh, unaccepted, files) is None && 0 <= s
        < support.len() {
        assert(run::still(files, support[s]));
        lemma_at(files, support[s].path@, 0)
    } else {
        0
    }
}

/// A run is entered exactly by the session that owns it, and only while it is running or
/// after its plan was completed.
pub proof fn law_runs_are_entered_by_their_session(run: RunRecord, session: Seq<char>, plan: PlanState)
    ensures
        run::entry_refusal(run, session, plan) is None <==> {
            &&& run.engineering_session is Some
            &&& run.engineering_session->0@ == session
            &&& plan == PlanState::Complete || run.state == RunState::Running
        },
{
}

// ---------------------------------------------------------------------------
// Stopping
// ---------------------------------------------------------------------------
/// Whether a task is stopped with a run: one that was launched, one that is under way, or
/// one that was not settled.
pub open spec fn falls(which: Stopping, state: TaskState) -> bool {
    match which {
        Stopping::Launched => state == TaskState::Ready || state == TaskState::Executing,
        Stopping::UnderWay => state == TaskState::Ready || state == TaskState::Executing || state
            == TaskState::AwaitingVerification || state == TaskState::Verifying,
        Stopping::Unsettled => !(state == TaskState::Verified || state == TaskState::Rejected
            || state == TaskState::Blocked),
    }
}

/// The tasks that are stopped are those that were launched, were under way or were not
/// settled, as the case is, and no other.
pub proof fn law_stopped_tasks_are_those_that_fall(
    tasks: Seq<TaskStatus>,
    which: Stopping,
    i: int,
    t: int,
    x: (Seq<char>, TaskState),
)
    requires
        0 <= i,
    ensures
        ({
            let all = run::stopped(tasks, which, i);
            &&& i <= t < tasks.len() && falls(which, tasks[t].state) ==> all.contains(
                (tasks[t].task_id@, tasks[t].state),
            )
            &&& all.contains(x) ==> falls(which, x.1) && exists|n: int|
                i <= n < tasks.len() && (#[trigger] tasks[n]).task_id@ == x.0 && tasks[n].state
                    == x.1
        }),
    decreases tasks.len() - i,
{
    if i < tasks.len() {
        law_stopped_tasks_are_those_that_fall(tasks, which, i + 1, t, x);
        let all = run::stopped(tasks, which, i);
        let rest = run::stopped(tasks, which, i + 1);
        let own = (tasks[i].task_id@, tasks[i].state);
        if run::stops(which, tasks[i].state) {
            assert(all[0] == own);
            if i < t < tasks.len() && falls(which, tasks[t].state) {
                let y = (tasks[t].task_id@, tasks[t].state);
                let m = choose|m: int| 0 <= m < rest.len() && rest[m] == y;
                assert(all[m + 1] == y);
            }
            if all.contains(x) && x != own {
                let m = choose|m: int| 0 <= m < all.len() && all[m] == x;
                assert(rest[m - 1] == x);
            }
        }
    }
}

/// A run whose result was being brought back stays running. So does one that a provider
/// failed, where it was not cancelled and its workspace is unchanged. Any other is
/// cancelled where that was asked for, and blocked where it was not, and what was under
/// way stops.
pub proof fn law_failed_runs_stop_unless_they_can_go_on(
    s: Settlement,
    record: RunRecord,
    failure: FailureView,
    said: Seq<char>,
    cancelled: bool,
    unchanged: bool,
)
    requires
        run::settled(s, record, failure, said, cancelled, unchanged),
    ensures
        ({
            let provider = failure is Provider && (failure->class
                == OutcomeClass::RetryableProviderFailure || failure->class
                == OutcomeClass::NonretryableProviderFailure);
            let goes_on = record.reconciliation is Some || (provider && !cancelled && unchanged);
            &&& s.state == RunState::Running <==> goes_on
            &&& s.state == RunState::Cancelled <==> !goes_on && cancelled
            &&& s.state == RunState::Blocked <==> !goes_on && !cancelled
            &&& record.reconciliation is Some ==> s.stop is None
            &&& record.reconciliation is None && goes_on ==> s.stop == Some(Stopping::Launched)
            &&& !goes_on ==> s.stop == Some(Stopping::UnderWay)
            &&& text::begins(said, s.reason@)
        }),
{
    text::law_heads_and_clips_come_first(said, said, said, run::REASON_CHARS as nat);
}

/// A run is cancelled exactly where there is one and it has not completed; its plan is
/// replaced exactly where it was stopped and may still be corrected; and what it left is
/// discarded only where it has not completed and something was verified before.
pub proof fn law_completed_runs_are_kept(record: RunRecord, max_rounds: u32)
    ensures
        run::cancel_refusal(None) is Some,
        run::cancel_refusal(Some(record)) is None <==> record.state != RunState::Complete,
        run::replace_refusal(None, max_rounds) is Some,
        run::replace_refusal(Some(record), max_rounds) is None <==> (record.state
            == RunState::Blocked || record.state == RunState::Cancelled) && record.correction_round
            < max_rounds,
        run::discard_refusal(record) is None <==> record.state != RunState::Complete
            && record.verified is Some,
{
}

// ---------------------------------------------------------------------------
// Discarding
// ---------------------------------------------------------------------------
proof fn lemma_strays(
    listed: Seq<FileEntry>,
    current: Seq<FileEntry>,
    accepted: Seq<FileEntry>,
    allowed: Seq<Seq<char>>,
    i: int,
    path: Seq<char>,
)
    requires
        0 <= i,
    ensures
        run::strayed(listed, current, accepted, allowed, i).contains(path) <==> {
            &&& source::at(current, path, 0) != source::at(accepted, path, 0)
            &&& !allowed.contains(path)
            &&& exists|n: int| i <= n < listed.len() && (#[trigger] listed[n]).path@ == path
        },
    decreases listed.len() - i,
{
    if i < listed.len() {
        lemma_strays(listed, current, accepted, allowed, i + 1, path);
        let all = run::strayed(listed, current, accepted, allowed, i);
        let rest = run::strayed(listed, current, accepted, allowed, i + 1);
        if all.len() != rest.len() {
            assert(all[0] == listed[i].path@);
            if rest.contains(path) {
                let m = choose|m: int| 0 <= m < rest.len() && rest[m] == path;
                assert(all[m + 1] == path);
            }
            if all.contains(path) && path != listed[i].path@ {
                let m = choose|m: int| 0 <= m < all.len() && all[m] == path;
                assert(rest[m - 1] == path);
            }
        } else {
            assert(all =~= rest);
        }
    }
}

/// What differs from the verified source without having been written by the executor is
/// all of it, and nothing else.
pub proof fn law_unwritten_differences_are_found(
    current: Seq<FileEntry>,
    accepted: Seq<FileEntry>,
    wrote: Seq<Seq<char>>,
    path: Seq<char>,
)
    ensures
        run::unauthorized(current, accepted, wrote).contains(path) <==> source::at(current, path, 0)
            != source::at(accepted, path, 0) && !wrote.contains(path),
{
    let a = run::strayed(current, current, accepted, wrote, 0);
    let b = run::strayed(accepted, current, accepted, wrote, 0);
    lemma_strays(current, current, accepted, wrote, 0, path);
    lemma_strays(accepted, current, accepted, wrote, 0, path);
    text::lemma_sum_contains(a, b, path);
    text::law_texts_can_be_ordered(a + b);
    assert(text::in_order(a + b).contains(path) <==> (a + b).contains(path));
    let n = lemma_at(current, path, 0);
    let m = lemma_at(accepted, path, 0);
    if source::at(current, path, 0) is Some {
        assert(current[n].path@ == path);
    }
    if source::at(accepted, path, 0) is Some {
        assert(accepted[m].path@ == path);
    }
}

proof fn lemma_beyond(
    paths: Seq<Seq<char>>,
    wrote: Seq<Seq<char>>,
    tasks: Seq<TaskPacket>,
    i: int,
    path: Seq<char>,
)
    requires
        0 <= i,
    ensures
        run::beyond(paths, wrote, tasks, i).contains(path) <==> {
            &&& wrote.contains(path)
            &&& !run::may_write(tasks, path)
            &&& exists|n: int| i <= n < paths.len() && #[trigger] paths[n] == path
        },
    decreases paths.len() - i,
{
    if i < paths.len() {
        lemma_beyond(paths, wrote, tasks, i + 1, path);
        let all = run::beyond(paths, wrote, tasks, i);
        let rest = run::beyond(paths, wrote, tasks, i + 1);
        if all.len() != rest.len() {
            assert(all[0] == paths[i]);
            if rest.contains(path) {
                let m = choose|m: int| 0 <= m < rest.len() && rest[m] == path;
                assert(all[m + 1] == path);
            }
            if all.contains(path) && path != paths[i] {
                let m = choose|m: int| 0 <= m < all.len() && all[m] == path;
                assert(rest[m - 1] == path);
            }
        } else {
            assert(all =~= rest);
        }
    }
}

/// Whether a scope that some task may write holds a path.
pub open spec fn in_some_scope(tasks: Seq<TaskPacket>, path: Seq<char>) -> bool {
    exists|t: int, w: int|
        {
            &&& 0 <= t < tasks.len()
            &&& 0 <= w < (#[trigger] tasks[t]).write_scope@.len()
            &&& scope::allows(#[trigger] tasks[t].write_scope@[w], path)
        }
}

/// What the executor wrote beyond the plan is every file that differs from the verified
/// source and that no task may write.
pub proof fn law_files_out_of_scope_are_found(
    current: Seq<FileEntry>,
    accepted: Seq<FileEntry>,
    wrote: Seq<Seq<char>>,
    tasks: Seq<TaskPacket>,
    path: Seq<char>,
)
    ensures
        run::out_of_scope(current, accepted, wrote, tasks).contains(path) <==> {
            &&& source::at(current, path, 0) != source::at(accepted, path, 0)
            &&& wrote.contains(path)
            &&& !in_some_scope(tasks, path)
        },
{
    let paths = run::differing(current, accepted);
    law_unwritten_differences_are_found(current, accepted, Seq::empty(), path);
    lemma_beyond(paths, wrote, tasks, 0, path);
    if paths.contains(path) {
        let n = choose|n: int| 0 <= n < paths.len() && paths[n] == path;
        assert(paths[n] == path);
    }
    if run::may_write(tasks, path) {
        let t = choose|t: int|
            0 <= t < tasks.len() && scope::any_allows((#[trigger] tasks[t]).write_scope@, path);
        let w = choose|w: int|
            0 <= w < tasks[t].write_scope@.len() && scope::allows(
                #[trigger] tasks[t].write_scope@[w],
                path,
            );
        assert(scope::allows(tasks[t].write_scope@[w], path));
    }
    if in_some_scope(tasks, path) {
        let (t, w) = choose|t: int, w: int|
            {
                &&& 0 <= t < tasks.len()
                &&& 0 <= w < (#[trigger] tasks[t]).write_scope@.len()
                &&& scope::allows(#[trigger] tasks[t].write_scope@[w], path)
            };
        assert(scope::any_allows(tasks[t].write_scope@, path));
    }
}

/// A workspace is put back exactly where it differs from the verified source, a result of
/// this plan was captured, and every file that differs was written by the executor and
/// may be written by some task.
pub proof fn law_a_workspace_is_put_back_where_only_the_executor_wrote(
    record: RunRecord,
    tasks: Seq<TaskPacket>,
    current: SourceSnapshot,
    accepted: SourceSnapshot,
    captured: CapturedResult,
    path: Seq<char>,
)
    requires
        run::restore_refusal(record, tasks, current, accepted, Some(captured)) is None,
    ensures
        !source::same_snapshot(current, accepted),
        captured.plan_id@ == record.plan_id@,
        source::at(current.files@, path, 0) != source::at(accepted.files@, path, 0)
            ==> text::texts(captured.paths@).contains(path) && in_some_scope(tasks, path),
        run::restore_refusal(record, tasks, current, accepted, None) is Some,
{
    let wrote = text::texts(captured.paths@);
    law_unwritten_differences_are_found(current.files@, accepted.files@, wrote, path);
    law_files_out_of_scope_are_found(current.files@, accepted.files@, wrote, tasks, path);
}

} // verus!
