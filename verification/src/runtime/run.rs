//! The life of a run: how a plan is adopted and resumed, and how a run ends,
//! is discarded, cancelled or replaced.
use crate::error::{invalid, Error};
use crate::graph::Provenance;
use crate::planning::model::{ExecutionPlan, PlanState};
use crate::planning::scope;
use crate::planning::validation;
use crate::protocol::{AgentJob, TaskPacket, TaskState};
use crate::repository::RepositorySourceState;
use crate::runtime::dispatch;
use crate::runtime::dispatch::{Failure, FailureView};
use crate::runtime::record;
use crate::runtime::record::{OutcomeClass, RunRecord, RunState};
use crate::source;
use crate::source::{ArtifactRef, FileEntry, SourceSnapshot};
use crate::store::TaskStatus;
use crate::text;
use vstd::prelude::*;

verus! {

// ---------------------------------------------------------------------------
// Adoption
// ---------------------------------------------------------------------------

/// Whether a task was not touched by anyone yet.
pub open spec fn untouched(tasks: Seq<TaskStatus>) -> bool {
    forall|i: int|
        0 <= i < tasks.len() ==> (#[trigger] tasks[i]).state == TaskState::Planned || tasks[i].state
            == TaskState::Ready
}

fn are_untouched(tasks: &Vec<TaskStatus>) -> (r: bool)
    ensures
        r == untouched(tasks@),
{
    let mut i: usize = 0;
    while i < tasks.len()
        invariant
            i <= tasks@.len(),
            forall|k: int|
                0 <= k < i ==> (#[trigger] tasks@[k]).state == TaskState::Planned || tasks@[k].state
                    == TaskState::Ready,
        decreases tasks@.len() - i,
    {
        if !(tasks[i].state == TaskState::Planned || tasks[i].state == TaskState::Ready) {
            return false;
        }
        i += 1;
    }
    true
}

/// Whether a plan has a registered job.
pub open spec fn has_job(jobs: Seq<AgentJob>, plan: Seq<char>) -> bool {
    exists|i: int| 0 <= i < jobs.len() && (#[trigger] jobs[i]).plan_id@ == plan
}

fn any_job(jobs: &Vec<AgentJob>, plan: &str) -> (r: bool)
    ensures
        r == has_job(jobs@, plan@),
{
    let mut i: usize = 0;
    while i < jobs.len()
        invariant
            i <= jobs@.len(),
            forall|k: int| 0 <= k < i ==> (#[trigger] jobs@[k]).plan_id@ != plan@,
        decreases jobs@.len() - i,
    {
        if text::same(jobs[i].plan_id.as_str(), plan) {
            return true;
        }
        i += 1;
    }
    false
}

/// Why the runtime cannot own a plan, if it cannot.
pub open spec fn ownership_refusal(
    state: PlanState,
    tasks: Seq<TaskStatus>,
    jobs: Seq<AgentJob>,
    plan: Seq<char>,
) -> Option<Seq<char>> {
    if state != PlanState::Active {
        Some("runtime requires an ACTIVE execution plan"@)
    } else if !untouched(tasks) {
        Some("runtime cannot adopt externally executed/verified tasks"@)
    } else if has_job(jobs, plan) {
        Some("runtime cannot adopt pre-registered external jobs"@)
    } else {
        None
    }
}

/// Checks that the runtime can own a plan from its first task on.
pub fn check_ownership(
    state: PlanState,
    tasks: &Vec<TaskStatus>,
    jobs: &Vec<AgentJob>,
    plan: &str,
) -> (r: Result<(), Error>)
    ensures
        crate::error::settles(r, ownership_refusal(state, tasks@, jobs@, plan@)),
{
    if state != PlanState::Active {
        return invalid("runtime requires an ACTIVE execution plan");
    }
    if !are_untouched(tasks) {
        return invalid("runtime cannot adopt externally executed/verified tasks");
    }
    if any_job(jobs, plan) {
        return invalid("runtime cannot adopt pre-registered external jobs");
    }
    Ok(())
}

/// A fresh run of a plan on a captured baseline. Where the plan replaces another
/// one that ran, its correction round follows on that run's.
pub fn begin(
    plan: &ExecutionPlan,
    session: &str,
    workspace: &str,
    baseline: &ArtifactRef,
    previous_round: Option<u32>,
) -> (r: RunRecord)
    requires
        previous_round matches Some(n) ==> n < u32::MAX,
    ensures
        validation::is_text(r.engineering_session, session@),
        r.plan_id == plan.packet.plan_id,
        r.workspace_id@ == workspace@,
        r.state == RunState::Running,
        r.baseline == *baseline,
        r.expected == *baseline,
        r.verified == Some(*baseline),
        r.policy_hash == plan.metadata.source.policy_hash,
        r.accepted@.len() == 0,
        r.pending is None,
        r.branches@.len() == 0,
        r.batch_authority is None,
        r.reconciliation is None,
        r.reason is None,
        r.correction_round == match previous_round {
            Some(n) => n + 1,
            None => 0,
        },
        r.context@.len() == 0,
        r.executor_relaunches@.len() == 0,
        r.refused is None,
{
    RunRecord {
        engineering_session: Some(session.to_owned()),
        plan_id: plan.packet.plan_id.clone(),
        workspace_id: workspace.to_owned(),
        state: RunState::Running,
        baseline: baseline.clone(),
        expected: baseline.clone(),
        verified: Some(baseline.clone()),
        policy_hash: plan.metadata.source.policy_hash.clone(),
        accepted: Vec::new(),
        pending: None,
        branches: Vec::new(),
        batch_authority: None,
        reconciliation: None,
        reason: None,
        correction_round: match previous_round {
            Some(n) => n + 1,
            None => 0,
        },
        context: Vec::new(),
        executor_relaunches: Vec::new(),
        refused: None,
    }
}

pub const BASELINE_DRIFT: &'static str =
    "SOURCE_DRIFT: adopting the plan requires the plan's clean committed baseline; reprepare/replan dirty work";

pub const INDEX_DRIFT: &'static str = "SOURCE_DRIFT: graph/source assumptions changed; replan";

pub const SUPPORT_DRIFT: &'static str = "SOURCE_DRIFT: planning support changed";

pub const DRIFT_PREFIX: &'static str = "SOURCE_DRIFT: ";

/// Whether a captured file still has the content that a plan was prepared with.
pub open spec fn still(files: Seq<FileEntry>, p: Provenance) -> bool {
    match source::at(files, p.path@, 0) {
        Some(s) => s.hash == p.content_hash@,
        None => false,
    }
}

/// Whether every file that supports a plan still has its content.
pub open spec fn all_still(files: Seq<FileEntry>, support: Seq<Provenance>) -> bool {
    forall|i: int| 0 <= i < support.len() ==> still(files, #[trigger] support[i])
}

fn are_still(files: &Vec<FileEntry>, support: &Vec<Provenance>) -> (r: bool)
    ensures
        r == all_still(files@, support@),
{
    let mut i: usize = 0;
    while i < support.len()
        invariant
            i <= support@.len(),
            forall|k: int| 0 <= k < i ==> still(files@, #[trigger] support@[k]),
        decreases support@.len() - i,
    {
        let same: bool = match source::get(files, support[i].path.as_str()) {
            Some(state) => text::same(
                state.content.hash.as_str(),
                support[i].content_hash.as_str(),
            ),
            None => false,
        };
        if !same {
            assert(!still(files@, support@[i as int]));
            return false;
        }
        i += 1;
    }
    true
}

/// Why a plan cannot be adopted on the current source, if it cannot. `unaccepted`
/// is what the accepted ontology has against the plan's generation.
pub open spec fn adoption_refusal(
    plan: ExecutionPlan,
    current: RepositorySourceState,
    index_fresh: bool,
    unaccepted: Option<String>,
    files: Seq<FileEntry>,
) -> Option<Seq<char>> {
    let prepared = plan.metadata.source.observation;
    if !(!prepared.dirty && !current.dirty && text::same_option(
        current.head_commit,
        prepared.head_commit,
    )) {
        Some(BASELINE_DRIFT@)
    } else if !index_fresh {
        Some(INDEX_DRIFT@)
    } else {
        match unaccepted {
            Some(e) => Some(DRIFT_PREFIX@ + e@),
            None => if all_still(files, plan.metadata.source.support@) {
                None
            } else {
                Some(SUPPORT_DRIFT@)
            },
        }
    }
}

/// Checks that a plan can be adopted on the current source.
pub fn check_adoption(
    plan: &ExecutionPlan,
    current: &RepositorySourceState,
    index_fresh: bool,
    unaccepted: &Option<String>,
    files: &Vec<FileEntry>,
) -> (r: Result<(), Error>)
    ensures
        crate::error::settles(
            r,
            adoption_refusal(*plan, *current, index_fresh, *unaccepted, files@),
        ),
{
    let prepared: &RepositorySourceState = &plan.metadata.source.observation;
    if !(!prepared.dirty && !current.dirty && text::same_optional(
        &current.head_commit,
        &prepared.head_commit,
    )) {
        return invalid(BASELINE_DRIFT);
    }
    if !index_fresh {
        return invalid(INDEX_DRIFT);
    }
    if let Some(e) = unaccepted {
        let said: String = text::join2(DRIFT_PREFIX, e.as_str());
        return invalid(said.as_str());
    }
    if !are_still(files, &plan.metadata.source.support) {
        return invalid(SUPPORT_DRIFT);
    }
    Ok(())
}

// ---------------------------------------------------------------------------
// Entry
// ---------------------------------------------------------------------------

/// What is done with a run that exists.
#[derive(Debug, Clone, Copy, PartialEq, Eq, Structural)]
pub enum Entry {
    /// The plan completed; `record` says whether the run still has to.
    Completed { record: bool },
    /// The run goes on; `resumed` says whether it was interrupted before.
    Drive { resumed: bool },
}

pub const FOREIGN_SESSION: &'static str =
    "legacy/foreign engineering-session ownership: history is inspectable but resume requires an explicit replan";

pub const NOT_RUNNING: &'static str =
    "runtime is blocked/cancelled; explicit planner decision and replacement plan required";

/// Why a run cannot be entered, if it cannot.
pub open spec fn entry_refusal(run: RunRecord, session: Seq<char>, plan: PlanState) -> Option<
    Seq<char>,
> {
    if !validation::is_text(run.engineering_session, session) {
        Some(FOREIGN_SESSION@)
    } else if plan != PlanState::Complete && run.state != RunState::Running {
        Some(NOT_RUNNING@)
    } else {
        None
    }
}

/// Decides how a run is entered.
pub fn enter(run: &RunRecord, session: &str, plan: PlanState, resumed: bool) -> (r: Result<
    Entry,
    Error,
>)
    ensures
        crate::error::settles(r, entry_refusal(*run, session@, plan)),
        r matches Ok(e) ==> e == if plan == PlanState::Complete {
            Entry::Completed { record: run.state != RunState::Complete }
        } else {
            Entry::Drive { resumed }
        },
{
    if !validation::holds_text(&run.engineering_session, session) {
        return invalid(FOREIGN_SESSION);
    }
    if plan == PlanState::Complete {
        return Ok(Entry::Completed { record: run.state != RunState::Complete });
    }
    if run.state != RunState::Running {
        return invalid(NOT_RUNNING);
    }
    Ok(Entry::Drive { resumed })
}

/// Records that the plan of a run completed. Nothing but the state changes.
pub fn complete(run: &mut RunRecord)
    ensures
        *final(run) == (RunRecord { state: RunState::Complete, ..*old(run) }),
        record::driven(*old(run), *final(run)),
{
    run.state = RunState::Complete;
}

/// Whether a run that is driven goes on.
pub fn goes_on(run: &RunRecord) -> (r: bool)
    ensures
        r == (run.state == RunState::Running),
{
    run.state == RunState::Running
}

/// The record that is handed back where an entry finds the plan completed.
pub open spec fn entered(run: RunRecord, e: Entry) -> RunRecord {
    match e {
        Entry::Completed { record: true } => (RunRecord { state: RunState::Complete, ..run }),
        _ => run,
    }
}

/// Enters a run: one whose plan completed is recorded as completed, if it is not
/// yet; no other one changes.
pub fn take_up(run: &mut RunRecord, session: &str, plan: PlanState, resumed: bool) -> (r: Result<
    Entry,
    Error,
>)
    ensures
        crate::error::settles(r, entry_refusal(*old(run), session@, plan)),
        r is Err ==> *final(run) == *old(run),
        r matches Ok(e) ==> {
            &&& *final(run) == entered(*old(run), e)
            &&& e == if plan == PlanState::Complete {
                Entry::Completed { record: old(run).state != RunState::Complete }
            } else {
                Entry::Drive { resumed }
            }
        },
{
    let e: Entry = match enter(run, session, plan, resumed) {
        Ok(e) => e,
        Err(e) => return Err(e),
    };
    match e {
        Entry::Completed { record } => {
            if record {
                complete(run);
            }
        },
        Entry::Drive { .. } => {},
    }
    Ok(e)
}

/// A run that is handed back on entry is Complete and of the same plan, and one
/// that is driven is Running: a blocked or cancelled one is never taken up.
pub proof fn law_entered_runs_are_complete_or_running(
    run: RunRecord,
    session: Seq<char>,
    plan: PlanState,
    e: Entry,
    resumed: bool,
)
    requires
        entry_refusal(run, session, plan) is None,
        e == if plan == PlanState::Complete {
            Entry::Completed { record: run.state != RunState::Complete }
        } else {
            Entry::Drive { resumed }
        },
    ensures
        e is Completed ==> entered(run, e).state == RunState::Complete,
        e is Drive ==> entered(run, e) == run && run.state == RunState::Running,
        entered(run, e).plan_id == run.plan_id,
{
}

/// A run that was driven and goes on no longer is Complete, and still of its plan:
/// `records` are what it was step by step, and each step is one of those that keep
/// it `record::driven` (`acceptance::accept`, `branch::reconciled`,
/// `branch::serialize`, `schedule::count_relaunch` and `complete` among them). One
/// that stopped otherwise ended in a failure, and `settle` says how.
pub proof fn law_a_driven_run_ends_complete(records: Seq<RunRecord>)
    requires
        records.len() > 0,
        records[0].state == RunState::Running,
        records.last().state != RunState::Running,
        forall|i: int|
            0 <= i < records.len() - 1 ==> record::driven(
                #[trigger] records[i],
                records[i + 1],
            ),
    ensures
        records.last().state == RunState::Complete,
        records.last().plan_id == records[0].plan_id,
{
    lemma_driven(records, records.len() - 1);
}

proof fn lemma_driven(records: Seq<RunRecord>, k: int)
    requires
        0 <= k < records.len(),
        records[0].state == RunState::Running,
        forall|i: int|
            0 <= i < records.len() - 1 ==> record::driven(
                #[trigger] records[i],
                records[i + 1],
            ),
    ensures
        records[k].state == RunState::Running || records[k].state == RunState::Complete,
        records[k].plan_id == records[0].plan_id,
    decreases k,
{
    if k > 0 {
        lemma_driven(records, k - 1);
        assert(record::driven(records[k - 1], records[k - 1 + 1]));
    }
}

/// Records that a plan could not be adopted: its run stands blocked for that
/// reason.
pub fn refuse_adoption(run: &mut RunRecord, reason: String)
    ensures
        *final(run) == (RunRecord {
            state: RunState::Blocked,
            reason: Some(reason),
            ..*old(run)
        }),
{
    run.state = RunState::Blocked;
    run.reason = Some(reason);
}

// ---------------------------------------------------------------------------
// How a run stops
// ---------------------------------------------------------------------------

/// Which tasks are stopped with a run.
#[derive(Debug, Clone, Copy, PartialEq, Eq, Structural)]
pub enum Stopping {
    /// Those that were launched.
    Launched,
    /// Those that are under way.
    UnderWay,
    /// Those that nothing has settled.
    Unsettled,
}

/// Whether a task in a state is stopped.
pub open spec fn stops(which: Stopping, state: TaskState) -> bool {
    match which {
        Stopping::Launched => state == TaskState::Ready || state == TaskState::Executing,
        Stopping::UnderWay => state == TaskState::Ready || state == TaskState::Executing || state
            == TaskState::AwaitingVerification || state == TaskState::Verifying,
        Stopping::Unsettled => state != TaskState::Verified && state != TaskState::Rejected && state
            != TaskState::Blocked,
    }
}

/// The tasks that are stopped, from the `i`-th on.
pub open spec fn stopped(tasks: Seq<TaskStatus>, which: Stopping, i: int) -> Seq<
    (Seq<char>, TaskState),
>
    decreases tasks.len() - i,
{
    if i < 0 || i >= tasks.len() {
        Seq::empty()
    } else if stops(which, tasks[i].state) {
        seq![(tasks[i].task_id@, tasks[i].state)] + stopped(tasks, which, i + 1)
    } else {
        stopped(tasks, which, i + 1)
    }
}

/// Some tasks, by identifier and state.
pub open spec fn statuses(tasks: Seq<TaskStatus>) -> Seq<(Seq<char>, TaskState)> {
    tasks.map_values(|t: TaskStatus| (t.task_id@, t.state))
}

/// The tasks that become BLOCKED, with the states that they leave.
pub fn tasks_to_stop(tasks: &Vec<TaskStatus>, which: Stopping) -> (r: Vec<TaskStatus>)
    ensures
        statuses(r@) == stopped(tasks@, which, 0),
{
    let mut out: Vec<TaskStatus> = Vec::new();
    assert(statuses(out@) + stopped(tasks@, which, 0) =~= stopped(tasks@, which, 0));
    let mut i: usize = 0;
    while i < tasks.len()
        invariant
            i <= tasks@.len(),
            statuses(out@) + stopped(tasks@, which, i as int) == stopped(tasks@, which, 0),
        decreases tasks@.len() - i,
    {
        let state: TaskState = tasks[i].state;
        let stop: bool = match which {
            Stopping::Launched => state == TaskState::Ready || state == TaskState::Executing,
            Stopping::UnderWay => state == TaskState::Ready || state == TaskState::Executing
                || state == TaskState::AwaitingVerification || state == TaskState::Verifying,
            Stopping::Unsettled => state != TaskState::Verified && state != TaskState::Rejected
                && state != TaskState::Blocked,
        };
        if stop {
            let ghost so_far = statuses(out@);
            let ghost rest = stopped(tasks@, which, i + 1);
            out.push(TaskStatus { task_id: tasks[i].task_id.clone(), state });
            proof {
                let one = (tasks@[i as int].task_id@, state);
                assert(statuses(out@) =~= so_far.push(one));
                assert(so_far.push(one) + rest =~= so_far + (seq![one] + rest));
            }
        }
        i += 1;
    }
    assert(statuses(out@) + stopped(tasks@, which, i as int) =~= statuses(out@));
    out
}

/// The source that a run last recorded: a captured result, or else what it
/// expects.
pub fn recorded_source(run: &RunRecord) -> (r: ArtifactRef)
    ensures
        r == match run.pending {
            Some(p) => p.after,
            None => run.expected,
        },
{
    match &run.pending {
        Some(p) => p.after.clone(),
        None => run.expected.clone(),
    }
}

/// Whether the workspace is exactly what a run last recorded. A publication that
/// is not settled makes it uncertain.
pub fn unchanged_since_recorded(run: &RunRecord, captured_is_recorded: bool) -> (r: bool)
    ensures
        r == (run.reconciliation is None && captured_is_recorded),
{
    run.reconciliation.is_none() && captured_is_recorded
}

/// How a run that failed is left behind.
#[derive(Debug, PartialEq, Eq)]
pub struct Settlement {
    pub state: RunState,
    pub reason: String,
    pub phase: String,
    /// The tasks that become BLOCKED, if any do.
    pub stop: Option<Stopping>,
    pub failure: Failure,
}

/// How much of a reason is kept.
pub const REASON_CHARS: usize = 1024;

pub const APPROVAL_MARK: &'static str = "NEEDS_PLANNER_CONTEXT_APPROVAL";

pub const DRIFT_MARK: &'static str = "SOURCE_DRIFT";

/// The phase that records why a run stopped.
pub open spec fn stopping_phase(reason: Seq<char>) -> Seq<char> {
    if text::occurs(reason, DRIFT_MARK@) {
        "SOURCE_DRIFT_DETECTED"@
    } else if text::occurs(reason, APPROVAL_MARK@) {
        "NEEDS_PLANNER_CONTEXT_APPROVAL"@
    } else {
        "BLOCKED_NEEDS_PLANNER"@
    }
}

/// Whether the provider failed, not the work.
pub open spec fn infrastructure(failure: FailureView) -> bool {
    failure matches FailureView::Provider { class, .. } && (class
        == OutcomeClass::RetryableProviderFailure || class
        == OutcomeClass::NonretryableProviderFailure)
}

/// What is said of a provider failure that leaves a run resumable.
pub open spec fn resumable(failure: FailureView, plan: Seq<char>) -> FailureView {
    match failure {
        FailureView::Provider { class, detail } => FailureView::Provider {
            class,
            detail: detail + "; no uncertain change exists, so `agentctl run resume "@ + plan
                + "` continues when the provider is available"@,
        },
        other => other,
    }
}

/// Whether a settlement is the one of a run that failed.
pub open spec fn settled(
    s: Settlement,
    run: RunRecord,
    failure: FailureView,
    said: Seq<char>,
    cancelled: bool,
    unchanged: bool,
) -> bool {
    let reason = text::clipped(said, REASON_CHARS as int);
    &&& s.reason@ == reason
    &&& if run.reconciliation is Some {
        &&& s.state == RunState::Running
        &&& s.phase@ == "RECONCILIATION_PENDING"@
        &&& s.stop is None
        &&& s.failure@ == failure
    } else if infrastructure(failure) && !cancelled && unchanged {
        &&& s.state == RunState::Running
        &&& s.phase@ == "PROVIDER_UNAVAILABLE"@
        &&& s.stop == Some(Stopping::Launched)
        &&& s.failure@ == resumable(failure, run.plan_id@)
    } else {
        &&& s.state == if cancelled {
            RunState::Cancelled
        } else {
            RunState::Blocked
        }
        &&& s.phase@ == stopping_phase(reason)
        &&& s.stop == Some(Stopping::UnderWay)
        &&& s.failure@ == failure
    }
}

/// Leaves a run behind that failed: resumable where nothing uncertain exists,
/// stopped otherwise, and with the reason. `said` is the failure in words, and
/// `unchanged` says whether the workspace is what the run last recorded.
pub fn settle(
    run: &mut RunRecord,
    failure: Failure,
    said: &str,
    cancelled: bool,
    unchanged: bool,
) -> (r: Settlement)
    ensures
        settled(r, *old(run), failure@, said@, cancelled, unchanged),
        *final(run) == (RunRecord {
            state: r.state,
            reason: final(run).reason,
            ..*old(run)
        }),
        validation::is_text(final(run).reason, r.reason@),
{
    let s: Settlement = settlement(run, failure, said, cancelled, unchanged);
    run.state = s.state;
    run.reason = Some(s.reason.clone());
    s
}

fn settlement(run: &RunRecord, failure: Failure, said: &str, cancelled: bool, unchanged: bool) -> (r:
    Settlement)
    ensures
        settled(r, *run, failure@, said@, cancelled, unchanged),
{
    let reason: String = text::clip(said, REASON_CHARS);
    if run.reconciliation.is_some() {
        return Settlement {
            state: RunState::Running,
            reason,
            phase: "RECONCILIATION_PENDING".to_owned(),
            stop: None,
            failure,
        };
    }
    let provider: bool = match &failure {
        Failure::Provider { class, .. } => *class == OutcomeClass::RetryableProviderFailure
            || *class == OutcomeClass::NonretryableProviderFailure,
        _ => false,
    };
    if provider && !cancelled && unchanged {
        let again: Failure = match failure {
            Failure::Provider { class, detail } => {
                let head: String = text::join3(
                    detail.as_str(),
                    "; no uncertain change exists, so `agentctl run resume ",
                    run.plan_id.as_str(),
                );
                Failure::Provider {
                    class,
                    detail: text::join2(
                        head.as_str(),
                        "` continues when the provider is available",
                    ),
                }
            },
            other => other,
        };
        return Settlement {
            state: RunState::Running,
            reason,
            phase: "PROVIDER_UNAVAILABLE".to_owned(),
            stop: Some(Stopping::Launched),
            failure: again,
        };
    }
    let phase: &str = if text::contains(reason.as_str(), DRIFT_MARK) {
        "SOURCE_DRIFT_DETECTED"
    } else if text::contains(reason.as_str(), APPROVAL_MARK) {
        "NEEDS_PLANNER_CONTEXT_APPROVAL"
    } else {
        "BLOCKED_NEEDS_PLANNER"
    };
    Settlement {
        state: if cancelled {
            RunState::Cancelled
        } else {
            RunState::Blocked
        },
        reason,
        phase: phase.to_owned(),
        stop: Some(Stopping::UnderWay),
        failure,
    }
}

// ---------------------------------------------------------------------------
// Discarding a refused result
// ---------------------------------------------------------------------------

/// The listed paths that two captures do not agree on and that are not allowed
/// to differ, from the `i`-th on.
pub open spec fn strayed(
    listed: Seq<FileEntry>,
    current: Seq<FileEntry>,
    accepted: Seq<FileEntry>,
    allowed: Seq<Seq<char>>,
    i: int,
) -> Seq<Seq<char>>
    decreases listed.len() - i,
{
    if i < 0 || i >= listed.len() {
        Seq::empty()
    } else if source::at(current, listed[i].path@, 0) != source::at(accepted, listed[i].path@, 0)
        && !allowed.contains(listed[i].path@) {
        seq![listed[i].path@] + strayed(listed, current, accepted, allowed, i + 1)
    } else {
        strayed(listed, current, accepted, allowed, i + 1)
    }
}

fn collect_strayed(
    listed: &Vec<FileEntry>,
    current: &Vec<FileEntry>,
    accepted: &Vec<FileEntry>,
    allowed: &Vec<String>,
) -> (r: Vec<String>)
    ensures
        text::texts(r@) == strayed(listed@, current@, accepted@, text::texts(allowed@), 0),
{
    let ghost may = text::texts(allowed@);
    let ghost all = strayed(listed@, current@, accepted@, may, 0);
    let mut out: Vec<String> = Vec::new();
    assert(text::texts(out@) + all =~= all);
    let mut i: usize = 0;
    while i < listed.len()
        invariant
            i <= listed@.len(),
            may == text::texts(allowed@),
            text::texts(out@) + strayed(listed@, current@, accepted@, may, i as int) == all,
        decreases listed@.len() - i,
    {
        let path: &str = listed[i].path.as_str();
        if !source::agree_at(current, accepted, path) && !text::among(allowed, path) {
            let ghost so_far = text::texts(out@);
            let ghost rest = strayed(listed@, current@, accepted@, may, i + 1);
            out.push(listed[i].path.clone());
            proof {
                let one = listed@[i as int].path@;
                assert(text::texts(out@) =~= so_far.push(one));
                assert(so_far.push(one) + rest =~= so_far + (seq![one] + rest));
            }
        }
        i += 1;
    }
    assert(text::texts(out@) + strayed(listed@, current@, accepted@, may, i as int) =~= text::texts(
        out@,
    ));
    out
}

/// The paths, in order, in which a workspace differs from the last verified
/// source although the executor never wrote them.
pub open spec fn unauthorized(
    current: Seq<FileEntry>,
    accepted: Seq<FileEntry>,
    executor_paths: Seq<Seq<char>>,
) -> Seq<Seq<char>> {
    text::in_order(
        strayed(current, current, accepted, executor_paths, 0) + strayed(
            accepted,
            current,
            accepted,
            executor_paths,
            0,
        ),
    )
}

fn list_unauthorized(
    current: &Vec<FileEntry>,
    accepted: &Vec<FileEntry>,
    executor_paths: &Vec<String>,
) -> (r: Vec<String>)
    ensures
        text::texts(r@) == unauthorized(current@, accepted@, text::texts(executor_paths@)),
{
    let mut all: Vec<String> = collect_strayed(current, current, accepted, executor_paths);
    let mut more: Vec<String> = collect_strayed(accepted, current, accepted, executor_paths);
    let ghost (a, b) = (all@, more@);
    all.append(&mut more);
    assert(text::texts(all@) =~= text::texts(a) + text::texts(b));
    let r: Vec<String> = text::set_of(&all);
    proof {
        text::lemma_in_order(text::texts(r@), text::texts(all@));
    }
    r
}

/// Whether a write scope of some task allows a path.
pub open spec fn may_write(tasks: Seq<TaskPacket>, path: Seq<char>) -> bool {
    exists|t: int|
        0 <= t < tasks.len() && scope::any_allows((#[trigger] tasks[t]).write_scope@, path)
}

fn is_writable(tasks: &Vec<TaskPacket>, path: &str) -> (r: bool)
    ensures
        r == may_write(tasks@, path@),
{
    let mut t: usize = 0;
    while t < tasks.len()
        invariant
            t <= tasks@.len(),
            forall|k: int|
                0 <= k < t ==> !scope::any_allows((#[trigger] tasks@[k]).write_scope@, path@),
        decreases tasks@.len() - t,
    {
        if scope::any_permits(&tasks[t].write_scope, path) {
            assert(scope::any_allows(tasks@[t as int].write_scope@, path@));
            return true;
        }
        t += 1;
    }
    false
}

/// Those of some paths, from the `i`-th on, that the executor wrote although no
/// write scope of the plan allows them.
pub open spec fn beyond(
    paths: Seq<Seq<char>>,
    executor_paths: Seq<Seq<char>>,
    tasks: Seq<TaskPacket>,
    i: int,
) -> Seq<Seq<char>>
    decreases paths.len() - i,
{
    if i < 0 || i >= paths.len() {
        Seq::empty()
    } else if executor_paths.contains(paths[i]) && !may_write(tasks, paths[i]) {
        seq![paths[i]] + beyond(paths, executor_paths, tasks, i + 1)
    } else {
        beyond(paths, executor_paths, tasks, i + 1)
    }
}

/// The paths, in order, in which a workspace differs from the last verified
/// source.
pub open spec fn differing(current: Seq<FileEntry>, accepted: Seq<FileEntry>) -> Seq<Seq<char>> {
    unauthorized(current, accepted, Seq::empty())
}

/// The paths, in order, in which a workspace differs from the last verified
/// source, written by the executor outside every write scope of its plan.
pub open spec fn out_of_scope(
    current: Seq<FileEntry>,
    accepted: Seq<FileEntry>,
    executor_paths: Seq<Seq<char>>,
    tasks: Seq<TaskPacket>,
) -> Seq<Seq<char>> {
    beyond(differing(current, accepted), executor_paths, tasks, 0)
}

fn list_out_of_scope(
    current: &Vec<FileEntry>,
    accepted: &Vec<FileEntry>,
    executor_paths: &Vec<String>,
    tasks: &Vec<TaskPacket>,
) -> (r: Vec<String>)
    ensures
        text::texts(r@) == out_of_scope(
            current@,
            accepted@,
            text::texts(executor_paths@),
            tasks@,
        ),
{
    let none: Vec<String> = Vec::new();
    assert(text::texts(none@) =~= Seq::<Seq<char>>::empty());
    let paths: Vec<String> = list_unauthorized(current, accepted, &none);
    let ghost wrote = text::texts(executor_paths@);
    let ghost names = text::texts(paths@);
    let ghost all = beyond(names, wrote, tasks@, 0);
    let mut out: Vec<String> = Vec::new();
    assert(text::texts(out@) + all =~= all);
    let mut i: usize = 0;
    while i < paths.len()
        invariant
            i <= paths@.len(),
            wrote == text::texts(executor_paths@),
            names == text::texts(paths@),
            text::texts(out@) + beyond(names, wrote, tasks@, i as int) == all,
        decreases paths@.len() - i,
    {
        let path: &str = paths[i].as_str();
        assert(names[i as int] == path@);
        if text::among(executor_paths, path) && !is_writable(tasks, path) {
            let ghost so_far = text::texts(out@);
            let ghost rest = beyond(names, wrote, tasks@, i + 1);
            out.push(paths[i].clone());
            proof {
                let one = names[i as int];
                assert(text::texts(out@) =~= so_far.push(one));
                assert(so_far.push(one) + rest =~= so_far + (seq![one] + rest));
            }
        }
        i += 1;
    }
    assert(text::texts(out@) + beyond(names, wrote, tasks@, i as int) =~= text::texts(out@));
    out
}

/// Captured changes: whose they are, and the paths that they change.
#[derive(Debug, PartialEq, Eq)]
pub struct CapturedResult {
    pub plan_id: String,
    pub paths: Vec<String>,
}

/// The captured result that a run would discard: the refused one, or else the
/// pending one.
pub open spec fn discardable(run: RunRecord) -> Option<ArtifactRef> {
    match (run.refused, run.pending) {
        (Some(r), _) => Some(r),
        (None, Some(p)) => Some(p.diff),
        (None, None) => None,
    }
}

pub fn find_discardable(run: &RunRecord) -> (r: Option<ArtifactRef>)
    ensures
        r == discardable(*run),
{
    match (&run.refused, &run.pending) {
        (Some(r), _) => Some(r.clone()),
        (None, Some(p)) => Some(p.diff.clone()),
        (None, None) => None,
    }
}

pub const NO_VERIFIED_SOURCE: &'static str =
    "this run predates verified-source tracking, so the source it last verified is unknown; cancel it with agentctl run cancel and plan the replacement";

pub const NOTHING_CAPTURED: &'static str =
    "this run holds no captured executor result to discard, so nothing it recorded accounts for the current workspace; resolve those changes explicitly";

/// What is said where other files differ too: those that the executor never
/// wrote, and those that it wrote outside the write scopes of the plan.
pub open spec fn strayed_message(unwritten: Seq<Seq<char>>, outside: Seq<Seq<char>>) -> Seq<char> {
    "workspace also differs from the last verified source in files "@ + (if unwritten.len() > 0 {
        "this plan's executor never wrote ("@ + text::listed(unwritten, ", "@) + ")"@
    } else {
        Seq::empty()
    }) + (if unwritten.len() > 0 && outside.len() > 0 {
        " and in files "@
    } else {
        Seq::empty()
    }) + (if outside.len() > 0 {
        "outside this plan's write scopes ("@ + text::listed(outside, ", "@) + ")"@
    } else {
        Seq::empty()
    }) + "; resolve those changes explicitly before discarding"@
}

fn say_strayed(unwritten: &Vec<String>, outside: &Vec<String>) -> (r: String)
    ensures
        r@ == strayed_message(text::texts(unwritten@), text::texts(outside@)),
{
    let ghost (a, b) = (text::texts(unwritten@), text::texts(outside@));
    assert(a.len() == unwritten@.len() && b.len() == outside@.len());
    let mut first: String = String::new();
    assert(first@ =~= Seq::<char>::empty());
    if unwritten.len() > 0 {
        let names: String = text::list(unwritten, ", ");
        first = text::join3("this plan's executor never wrote (", names.as_str(), ")");
    }
    let mut between: String = String::new();
    assert(between@ =~= Seq::<char>::empty());
    if unwritten.len() > 0 && outside.len() > 0 {
        between = " and in files ".to_owned();
    }
    let mut second: String = String::new();
    assert(second@ =~= Seq::<char>::empty());
    if outside.len() > 0 {
        let names: String = text::list(outside, ", ");
        second = text::join3("outside this plan's write scopes (", names.as_str(), ")");
    }
    let m: String = text::join3(
        "workspace also differs from the last verified source in files ",
        first.as_str(),
        between.as_str(),
    );
    text::join3(
        m.as_str(),
        second.as_str(),
        "; resolve those changes explicitly before discarding",
    )
}

/// Why a run has nothing that can be discarded, before the workspace is looked
/// at.
pub open spec fn discard_refusal(run: RunRecord) -> Option<Seq<char>> {
    if run.state == RunState::Complete {
        Some("plan completed; its result is accepted truth and is not discardable"@)
    } else if run.verified is None {
        Some(NO_VERIFIED_SOURCE@)
    } else {
        None
    }
}

pub fn check_discard(run: &RunRecord) -> (r: Result<(), Error>)
    ensures
        crate::error::settles(r, discard_refusal(*run)),
{
    if run.state == RunState::Complete {
        return invalid("plan completed; its result is accepted truth and is not discardable");
    }
    if run.verified.is_none() {
        return invalid(NO_VERIFIED_SOURCE);
    }
    Ok(())
}

/// Why a workspace cannot be put back to the last verified source, if it
/// cannot. `tasks` are those of the plan.
pub open spec fn restore_refusal(
    run: RunRecord,
    tasks: Seq<TaskPacket>,
    current: SourceSnapshot,
    accepted: SourceSnapshot,
    captured: Option<CapturedResult>,
) -> Option<Seq<char>> {
    if source::same_snapshot(current, accepted) {
        Some("workspace already equals the last verified source; nothing to discard"@)
    } else {
        match captured {
            None => Some(NOTHING_CAPTURED@),
            Some(c) => {
                let wrote = text::texts(c.paths@);
                let unwritten = unauthorized(current.files@, accepted.files@, wrote);
                let outside = out_of_scope(current.files@, accepted.files@, wrote, tasks);
                if c.plan_id@ != run.plan_id@ {
                    Some("captured result belongs to another plan"@)
                } else if unwritten.len() > 0 || outside.len() > 0 {
                    Some(strayed_message(unwritten, outside))
                } else {
                    None
                }
            },
        }
    }
}

/// Checks that only files differ from the last verified source that this plan's
/// executor was seen to change inside the plan's own write scopes, so that
/// putting them back destroys nothing else. Any other file is named.
pub fn check_restore(
    run: &RunRecord,
    tasks: &Vec<TaskPacket>,
    current: &SourceSnapshot,
    accepted: &SourceSnapshot,
    captured: &Option<CapturedResult>,
) -> (r: Result<(), Error>)
    ensures
        crate::error::settles(r, restore_refusal(*run, tasks@, *current, *accepted, *captured)),
{
    if current.same(accepted) {
        return invalid("workspace already equals the last verified source; nothing to discard");
    }
    match captured {
        None => invalid(NOTHING_CAPTURED),
        Some(c) => {
            if !text::same(c.plan_id.as_str(), run.plan_id.as_str()) {
                return invalid("captured result belongs to another plan");
            }
            let unwritten: Vec<String> = list_unauthorized(
                &current.files,
                &accepted.files,
                &c.paths,
            );
            let outside: Vec<String> = list_out_of_scope(
                &current.files,
                &accepted.files,
                &c.paths,
                tasks,
            );
            assert(text::texts(unwritten@).len() == unwritten@.len());
            assert(text::texts(outside@).len() == outside@.len());
            if unwritten.len() > 0 || outside.len() > 0 {
                let said: String = say_strayed(&unwritten, &outside);
                return invalid(said.as_str());
            }
            Ok(())
        },
    }
}

pub const DISCARDED: &'static str =
    "refused executor result discarded; a replacement plan is required";

pub const NOT_RESTORED: &'static str = "workspace could not be restored to the last verified source";

/// Refuses to record a workspace as restored that is not the accepted source. The
/// hash of the Git index is not reproduced.
pub fn check_restored(observed: SourceSnapshot, accepted: &SourceSnapshot) -> (r: Result<(), Error>)
    ensures
        crate::error::settles(
            r,
            if source::same_snapshot(
                (SourceSnapshot { index_hash: accepted.index_hash, ..observed }),
                *accepted,
            ) {
                None
            } else {
                Some(NOT_RESTORED@)
            },
        ),
{
    let mut normalized: SourceSnapshot = observed;
    normalized.index_hash = accepted.index_hash.clone();
    if normalized.same(accepted) {
        Ok(())
    } else {
        invalid(NOT_RESTORED)
    }
}

/// What is said where there is no run to discard anything of.
pub fn no_history(plan: &str) -> (r: String)
    ensures
        r@ == "no runtime history for "@ + plan@
            + "; there is nothing agentctl captured to discard"@,
{
    text::join3(
        "no runtime history for ",
        plan,
        "; there is nothing agentctl captured to discard",
    )
}

/// Records that a refused result was discarded: the run expects the last
/// verified source again, and stands blocked.
pub fn discard(run: &mut RunRecord)
    requires
        old(run).verified is Some,
    ensures
        validation::is_text(final(run).reason, DISCARDED@),
        *final(run) == (RunRecord {
            pending: None,
            refused: None,
            expected: old(run).verified->0,
            state: RunState::Blocked,
            reason: final(run).reason,
            ..*old(run)
        }),
{
    let verified: ArtifactRef = match &run.verified {
        Some(v) => v.clone(),
        None => run.expected.clone(),
    };
    run.pending = None;
    run.refused = None;
    run.expected = verified;
    run.state = RunState::Blocked;
    run.reason = Some(DISCARDED.to_owned());
}

proof fn lemma_differing_is_listed(
    a: Seq<FileEntry>,
    b: Seq<FileEntry>,
    allowed: Seq<Seq<char>>,
    path: Seq<char>,
)
    requires
        source::at(a, path, 0) != source::at(b, path, 0),
        !allowed.contains(path),
    ensures
        unauthorized(a, b, allowed).contains(path),
{
    let all = strayed(a, a, b, allowed, 0) + strayed(b, a, b, allowed, 0);
    if source::at(a, path, 0) is Some {
        source::lemma_at_listed(a, path, 0);
        let k = choose|k: int| 0 <= k < a.len() && (#[trigger] a[k]).path@ == path;
        lemma_strayed(a, a, b, allowed, 0, k);
        let m = choose|m: int|
            0 <= m < strayed(a, a, b, allowed, 0).len() && #[trigger] strayed(
                a,
                a,
                b,
                allowed,
                0,
            )[m] == path;
        assert(all[m] == path);
    } else {
        source::lemma_at_listed(b, path, 0);
        let k = choose|k: int| 0 <= k < b.len() && (#[trigger] b[k]).path@ == path;
        lemma_strayed(b, a, b, allowed, 0, k);
        let m = choose|m: int|
            0 <= m < strayed(b, a, b, allowed, 0).len() && #[trigger] strayed(
                b,
                a,
                b,
                allowed,
                0,
            )[m] == path;
        assert(all[strayed(a, a, b, allowed, 0).len() + m] == path);
    }
    assert(all.contains(path));
    text::law_texts_can_be_ordered(all);
}

proof fn lemma_beyond(
    paths: Seq<Seq<char>>,
    executor_paths: Seq<Seq<char>>,
    tasks: Seq<TaskPacket>,
    i: int,
    k: int,
)
    requires
        0 <= i <= k < paths.len(),
        executor_paths.contains(paths[k]),
        !may_write(tasks, paths[k]),
    ensures
        beyond(paths, executor_paths, tasks, i).len() > 0,
    decreases k - i,
{
    if i < k {
        lemma_beyond(paths, executor_paths, tasks, i + 1, k);
    }
}

/// A path that a refused result is discarded from is as it was verified, or this
/// plan's executor changed it inside a write scope of the plan.
pub proof fn law_discarding_touches_only_the_executors_files(
    run: RunRecord,
    tasks: Seq<TaskPacket>,
    current: SourceSnapshot,
    accepted: SourceSnapshot,
    captured: CapturedResult,
    path: Seq<char>,
)
    requires
        restore_refusal(run, tasks, current, accepted, Some(captured)) is None,
        source::at(current.files@, path, 0) != source::at(accepted.files@, path, 0),
    ensures
        text::texts(captured.paths@).contains(path),
        may_write(tasks, path),
{
    let wrote = text::texts(captured.paths@);
    let (a, b) = (current.files@, accepted.files@);
    if !wrote.contains(path) {
        lemma_differing_is_listed(a, b, wrote, path);
    } else if !may_write(tasks, path) {
        lemma_differing_is_listed(a, b, Seq::empty(), path);
        let paths = differing(a, b);
        let k = choose|k: int| 0 <= k < paths.len() && paths[k] == path;
        lemma_beyond(paths, wrote, tasks, 0, k);
    }
}

proof fn lemma_strayed(
    listed: Seq<FileEntry>,
    current: Seq<FileEntry>,
    accepted: Seq<FileEntry>,
    allowed: Seq<Seq<char>>,
    i: int,
    k: int,
)
    requires
        0 <= i <= k < listed.len(),
        source::at(current, listed[k].path@, 0) != source::at(accepted, listed[k].path@, 0),
        !allowed.contains(listed[k].path@),
    ensures
        strayed(listed, current, accepted, allowed, i).contains(listed[k].path@),
    decreases k - i,
{
    let here = strayed(listed, current, accepted, allowed, i);
    if i == k {
        assert(here[0] == listed[k].path@);
    } else {
        lemma_strayed(listed, current, accepted, allowed, i + 1, k);
        let rest = strayed(listed, current, accepted, allowed, i + 1);
        let m = choose|m: int| 0 <= m < rest.len() && rest[m] == listed[k].path@;
        if here.len() == rest.len() {
            assert(here[m] == listed[k].path@);
        } else {
            assert(here[m + 1] == rest[m]);
        }
    }
}

// ---------------------------------------------------------------------------
// Cancelling and replacing
// ---------------------------------------------------------------------------

/// How a run is cancelled.
#[derive(Debug, Clone, Copy, PartialEq, Eq, Structural)]
pub enum Cancelling {
    /// It is asked to stop, and winds down by itself.
    Ask,
    /// It already stopped, and is cancelled outright.
    Outright,
}

/// Why a run cannot be cancelled, if it cannot.
pub open spec fn cancel_refusal(run: Option<RunRecord>) -> Option<Seq<char>> {
    match run {
        None => Some("runtime plan not found"@),
        Some(run) => if run.state == RunState::Complete {
            Some("plan completed; its result is accepted truth and is not cancellable"@)
        } else {
            None
        },
    }
}

/// Decides how a run is cancelled.
pub fn cancel(run: &Option<RunRecord>) -> (r: Result<Cancelling, Error>)
    ensures
        crate::error::settles(r, cancel_refusal(*run)),
        r matches Ok(how) ==> how == if run->0.state == RunState::Running {
            Cancelling::Ask
        } else {
            Cancelling::Outright
        },
{
    match run {
        None => invalid("runtime plan not found"),
        Some(run) => match run.state {
            RunState::Running => Ok(Cancelling::Ask),
            RunState::Complete => invalid(
                "plan completed; its result is accepted truth and is not cancellable",
            ),
            _ => Ok(Cancelling::Outright),
        },
    }
}

pub const CANCELLED: &'static str = "plan cancelled; a replacement plan is required";

/// Records that a stopped run was cancelled.
pub fn record_cancelled(run: &mut RunRecord)
    ensures
        validation::is_text(final(run).reason, CANCELLED@),
        *final(run) == (RunRecord {
            state: RunState::Cancelled,
            reason: final(run).reason,
            ..*old(run)
        }),
{
    run.state = RunState::Cancelled;
    run.reason = Some(CANCELLED.to_owned());
}

/// Why a run cannot be replaced, if it cannot.
pub open spec fn replace_refusal(run: Option<RunRecord>, max_rounds: u32) -> Option<Seq<char>> {
    match run {
        None => Some("runtime plan missing"@),
        Some(run) => if !(run.state == RunState::Blocked || run.state == RunState::Cancelled) {
            Some("only stopped runtime plans can be replaced"@)
        } else if run.correction_round >= max_rounds {
            Some("correction limit reached; human escalation required"@)
        } else {
            None
        },
    }
}

/// Checks that the plan of a run can be replaced.
pub fn check_replace(run: &Option<RunRecord>, max_rounds: u32) -> (r: Result<(), Error>)
    ensures
        crate::error::settles(r, replace_refusal(*run, max_rounds)),
{
    match run {
        None => invalid("runtime plan missing"),
        Some(run) => {
            if !(run.state == RunState::Blocked || run.state == RunState::Cancelled) {
                return invalid("only stopped runtime plans can be replaced");
            }
            if run.correction_round >= max_rounds {
                return invalid("correction limit reached; human escalation required");
            }
            Ok(())
        },
    }
}

proof fn lemma_stopped(tasks: Seq<TaskStatus>, which: Stopping, i: int, k: int)
    requires
        0 <= i,
        0 <= k < stopped(tasks, which, i).len(),
    ensures
        stops(which, stopped(tasks, which, i)[k].1),
    decreases tasks.len() - i,
{
    if stops(which, tasks[i].state) {
        if k > 0 {
            assert(stopped(tasks, which, i)[k] == stopped(tasks, which, i + 1)[k - 1]);
            lemma_stopped(tasks, which, i + 1, k - 1);
        }
    } else {
        lemma_stopped(tasks, which, i + 1, k);
    }
}

/// Stopping a run never takes a verified, rejected or already blocked task out
/// of its state.
pub proof fn law_settled_tasks_stay_settled(tasks: Seq<TaskStatus>, which: Stopping, k: int)
    requires
        0 <= k < stopped(tasks, which, 0).len(),
    ensures
        stopped(tasks, which, 0)[k].1 != TaskState::Verified,
        stopped(tasks, which, 0)[k].1 != TaskState::Rejected,
        stopped(tasks, which, 0)[k].1 != TaskState::Blocked,
{
    lemma_stopped(tasks, which, 0, k);
}

} // verus!
