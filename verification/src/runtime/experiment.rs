//! Long-running processes under supervision. An experiment is a plain process:
//! nothing here calls a model. A record that says RUNNING is history, never
//! proof that a process is alive.
use crate::error::{invalid, Error};
use crate::planning::model::NamedCommand;
use crate::planning::validation;
use crate::protocol;
use crate::protocol::CommandSpec;
use crate::repository::WorkspaceId;
use crate::runtime::experiment_decisions;
use crate::runtime::experiment_decisions::{copied_boundaries, BoundaryDefinition};
use crate::runtime::experiment_events;
use crate::runtime::experiment_events::ExperimentEventSummary;
use crate::runtime::issue;
use crate::runtime::issue::find_command;
use crate::runtime::worktree;
use crate::runtime::worktree::lies_inside;
use crate::store::{JournalEntry, Store, StoredExperiment};
use crate::text;
use vstd::prelude::*;

verus! {

/// The longest time that an experiment may be given: thirty days.
pub const MAX_TIMEOUT_MS: u64 = 2_592_000_000;

/// The time that an experiment is given unless it asks for another: one day.
pub const DEFAULT_TIMEOUT_MS: u64 = 86_400_000;

pub const NOT_FOUND: &'static str = "experiment not found";

#[derive(Debug, Clone, Copy, PartialEq, Eq, Structural)]
pub enum ExperimentState {
    Created,
    Running,
    Succeeded,
    Failed,
    Cancelled,
    Interrupted,
}

impl ExperimentState {
    pub open spec fn terminal(self) -> bool {
        self is Succeeded || self is Failed || self is Cancelled || self is Interrupted
    }

    pub fn is_terminal(self) -> (r: bool)
        ensures
            r == self.terminal(),
    {
        match self {
            ExperimentState::Succeeded
            | ExperimentState::Failed
            | ExperimentState::Cancelled
            | ExperimentState::Interrupted => true,
            ExperimentState::Created | ExperimentState::Running => false,
        }
    }
}

#[derive(Debug, PartialEq, Eq)]
pub struct ExperimentAttempt {
    pub attempt: u32,
    pub pid: Option<u32>,
    pub started_at_ms: Option<u64>,
    pub finished_at_ms: Option<u64>,
    pub exit_status: Option<i32>,
    /// The identifier of the captured evidence.
    pub evidence: Option<String>,
    pub failure: Option<String>,
    /// What went wrong while events were taken in. It never changes the state of
    /// the process.
    pub event_ingestion_error: Option<String>,
    pub state: ExperimentState,
}

impl Clone for ExperimentAttempt {
    fn clone(&self) -> (r: Self)
        ensures
            r == *self,
    {
        ExperimentAttempt {
            attempt: self.attempt,
            pid: self.pid,
            started_at_ms: self.started_at_ms,
            finished_at_ms: self.finished_at_ms,
            exit_status: self.exit_status,
            evidence: self.evidence.clone(),
            failure: self.failure.clone(),
            event_ingestion_error: self.event_ingestion_error.clone(),
            state: self.state,
        }
    }
}

fn copied_attempts(v: &Vec<ExperimentAttempt>) -> (r: Vec<ExperimentAttempt>)
    ensures
        r@ == v@,
{
    let mut out: Vec<ExperimentAttempt> = Vec::new();
    let mut i: usize = 0;
    while i < v.len()
        invariant
            i <= v@.len(),
            out@ == v@.take(i as int),
        decreases v@.len() - i,
    {
        out.push(v[i].clone());
        i += 1;
        assert(out@ =~= v@.take(i as int));
    }
    assert(out@ =~= v@);
    out
}

#[derive(Debug, PartialEq, Eq)]
pub struct ExperimentRun {
    pub experiment_id: String,
    pub workspace_id: WorkspaceId,
    pub engineering_session_id: Option<String>,
    pub command: CommandSpec,
    /// Where the command came from project policy, its name there.
    pub project_command_key: Option<String>,
    /// The grant at creation.
    pub network: bool,
    /// Names of environment variables, never values.
    pub env_passthrough: Vec<String>,
    pub timeout_ms: u64,
    pub created_at_ms: u64,
    pub state: ExperimentState,
    pub attempts: Vec<ExperimentAttempt>,
    pub decision_boundaries: Vec<BoundaryDefinition>,
    pub boundaries_hash: String,
    pub max_planner_wakeups: u32,
}

/// Whether two records say the same apart from their states and attempts.
pub open spec fn same_experiment(a: ExperimentRun, b: ExperimentRun) -> bool {
    &&& a.experiment_id@ == b.experiment_id@
    &&& a.workspace_id@ == b.workspace_id@
    &&& text::same_option(a.engineering_session_id, b.engineering_session_id)
    &&& protocol::same_command(a.command, b.command)
    &&& text::same_option(a.project_command_key, b.project_command_key)
    &&& a.network == b.network
    &&& text::texts(a.env_passthrough@) == text::texts(b.env_passthrough@)
    &&& a.timeout_ms == b.timeout_ms
    &&& a.created_at_ms == b.created_at_ms
    &&& experiment_decisions::all_alike(a.decision_boundaries@, b.decision_boundaries@)
    &&& a.boundaries_hash@ == b.boundaries_hash@
    &&& a.max_planner_wakeups == b.max_planner_wakeups
}

impl ExperimentRun {
    pub fn copy(&self) -> (r: Self)
        ensures
            same_experiment(r, *self),
            r.state == self.state,
            r.attempts@ == self.attempts@,
    {
        ExperimentRun {
            experiment_id: self.experiment_id.clone(),
            workspace_id: self.workspace_id.clone(),
            engineering_session_id: self.engineering_session_id.clone(),
            command: self.command.copy(),
            project_command_key: self.project_command_key.clone(),
            network: self.network,
            env_passthrough: text::copied(&self.env_passthrough),
            timeout_ms: self.timeout_ms,
            created_at_ms: self.created_at_ms,
            state: self.state,
            attempts: copied_attempts(&self.attempts),
            decision_boundaries: copied_boundaries(&self.decision_boundaries),
            boundaries_hash: self.boundaries_hash.clone(),
            max_planner_wakeups: self.max_planner_wakeups,
        }
    }
}

/// Whether a process is observed to be alive. Only the controller that holds the
/// child may say so; to everyone else it is unknown.
#[derive(Debug, Clone, Copy, PartialEq, Eq, Structural)]
pub enum Liveness {
    Live,
    Unknown,
}

#[derive(Debug, PartialEq, Eq)]
pub struct ExperimentObservation<'a> {
    pub run: &'a ExperimentRun,
    pub liveness: Liveness,
    pub events: ExperimentEventSummary,
}

#[derive(Debug, PartialEq, Eq)]
pub struct ExperimentInput {
    pub command: CommandSpec,
    pub network: bool,
    pub env_passthrough: Vec<String>,
    pub timeout_ms: u64,
}

// ---------------------------------------------------------------------------
// Records
// ---------------------------------------------------------------------------

/// The position of an experiment of a workspace, looked up from the `i`-th
/// record on.
pub open spec fn experiment_at(
    all: Seq<StoredExperiment>,
    workspace: Seq<char>,
    id: Seq<char>,
    i: int,
) -> Option<int>
    decreases all.len() - i,
{
    if i < 0 || i >= all.len() {
        None
    } else if all[i].workspace_id@ == workspace && all[i].run.experiment_id@ == id {
        Some(i)
    } else {
        experiment_at(all, workspace, id, i + 1)
    }
}

pub fn find_experiment(all: &Vec<StoredExperiment>, workspace: &WorkspaceId, id: &str) -> (r: Option<
    usize,
>)
    ensures
        match r {
            Some(i) => i < all@.len() && experiment_at(all@, workspace@, id@, 0) == Some(i as int),
            None => experiment_at(all@, workspace@, id@, 0) is None,
        },
{
    let mut i: usize = 0;
    while i < all.len()
        invariant
            i <= all@.len(),
            experiment_at(all@, workspace@, id@, 0) == experiment_at(
                all@,
                workspace@,
                id@,
                i as int,
            ),
        decreases all@.len() - i,
    {
        if text::same(all[i].workspace_id.as_str(), workspace.as_str()) && text::same(
            all[i].run.experiment_id.as_str(),
            id,
        ) {
            return Some(i);
        }
        i += 1;
    }
    None
}

/// The position of an experiment, whatever its workspace, looked up from the
/// `i`-th record on.
pub open spec fn recorded_at(all: Seq<StoredExperiment>, id: Seq<char>, i: int) -> Option<int>
    decreases all.len() - i,
{
    if i < 0 || i >= all.len() {
        None
    } else if all[i].run.experiment_id@ == id {
        Some(i)
    } else {
        recorded_at(all, id, i + 1)
    }
}

fn find_recorded(all: &Vec<StoredExperiment>, id: &str) -> (r: Option<usize>)
    ensures
        match r {
            Some(i) => i < all@.len() && recorded_at(all@, id@, 0) == Some(i as int),
            None => recorded_at(all@, id@, 0) is None,
        },
{
    let mut i: usize = 0;
    while i < all.len()
        invariant
            i <= all@.len(),
            recorded_at(all@, id@, 0) == recorded_at(all@, id@, i as int),
        decreases all@.len() - i,
    {
        if text::same(all[i].run.experiment_id.as_str(), id) {
            return Some(i);
        }
        i += 1;
    }
    None
}

/// Whether an observation is that of a stored experiment.
pub open spec fn observes(
    store: Store,
    workspace: Seq<char>,
    o: ExperimentObservation,
    k: int,
    live: bool,
) -> bool {
    &&& *o.run == store.experiments@[k].run
    &&& o.liveness == if live {
        Liveness::Live
    } else {
        Liveness::Unknown
    }
    &&& experiment_events::summarizes(
        o.events,
        store.events@,
        workspace,
        store.experiments@[k].run.experiment_id@,
    )
}

/// The positions of the experiments of a workspace among the first `n`, oldest
/// first; those created at the same time stay in the order of their records.
pub open spec fn by_age(all: Seq<StoredExperiment>, workspace: Seq<char>, n: int) -> Seq<int>
    decreases n,
{
    if n <= 0 {
        Seq::empty()
    } else {
        let front = by_age(all, workspace, n - 1);
        if all[n - 1].workspace_id@ == workspace {
            front.insert(younger(all, front, all[n - 1].run.created_at_ms, 0), n - 1)
        } else {
            front
        }
    }
}

/// The first place, from the `i`-th on, of an experiment that was created after
/// a time.
pub open spec fn younger(all: Seq<StoredExperiment>, order: Seq<int>, created: u64, i: int) -> int
    decreases order.len() - i,
{
    if i < 0 || i >= order.len() {
        order.len() as int
    } else if all[order[i]].run.created_at_ms > created {
        i
    } else {
        younger(all, order, created, i + 1)
    }
}

/// Positions as integers.
pub open spec fn positions(v: Seq<usize>) -> Seq<int> {
    v.map_values(|i: usize| i as int)
}

fn list_by_age(all: &Vec<StoredExperiment>, workspace: &WorkspaceId) -> (r: Vec<usize>)
    ensures
        positions(r@) == by_age(all@, workspace@, all@.len() as int),
        forall|k: int| 0 <= k < r@.len() ==> (#[trigger] r@[k]) < all@.len(),
{
    let mut out: Vec<usize> = Vec::new();
    assert(positions(out@) =~= Seq::<int>::empty());
    let mut n: usize = 0;
    while n < all.len()
        invariant
            n <= all@.len(),
            positions(out@) == by_age(all@, workspace@, n as int),
            forall|k: int| 0 <= k < out@.len() ==> (#[trigger] out@[k]) < n,
        decreases all@.len() - n,
    {
        if text::same(all[n].workspace_id.as_str(), workspace.as_str()) {
            let created: u64 = all[n].run.created_at_ms;
            let ghost order = positions(out@);
            let mut at: usize = 0;
            while at < out.len() && all[out[at]].run.created_at_ms <= created
                invariant
                    at <= out@.len(),
                    n < all@.len(),
                    order == positions(out@),
                    younger(all@, order, created, 0) == younger(all@, order, created, at as int),
                    forall|k: int| 0 <= k < out@.len() ==> (#[trigger] out@[k]) < n,
                decreases out@.len() - at,
            {
                assert(order[at as int] == out@[at as int]);
                at += 1;
            }
            proof {
                if at < out@.len() {
                    assert(order[at as int] == out@[at as int]);
                }
                assert(at == younger(all@, order, created, 0));
            }
            let ghost before = out@;
            out.insert(at, n);
            assert(positions(out@) =~= order.insert(at as int, n as int));
            assert forall|k: int| 0 <= k < out@.len() implies (#[trigger] out@[k]) < n + 1 by {
                if k < at {
                    assert(out@[k] == before[k]);
                } else if k > at {
                    assert(out@[k] == before[k - 1]);
                }
            }
        }
        n += 1;
    }
    out
}

impl Store {
    pub fn experiment_status(&self, workspace: &WorkspaceId, id: &str, live: bool) -> (r: Option<
        ExperimentObservation<'_>,
    >)
        ensures
            match experiment_at(self.experiments@, workspace@, id@, 0) {
                Some(k) => r matches Some(o) && observes(*self, workspace@, o, k, live),
                None => r is None,
            },
    {
        match find_experiment(&self.experiments, workspace, id) {
            None => None,
            Some(k) => Some(self.observe(workspace, k, live)),
        }
    }

    fn observe(&self, workspace: &WorkspaceId, k: usize, live: bool) -> (r: ExperimentObservation<'_>)
        requires
            k < self.experiments@.len(),
        ensures
            observes(*self, workspace@, r, k as int, live),
    {
        let run: &ExperimentRun = &self.experiments[k].run;
        ExperimentObservation {
            run,
            liveness: if live {
                Liveness::Live
            } else {
                Liveness::Unknown
            },
            events: self.experiment_event_summary(workspace, run.experiment_id.as_str()),
        }
    }

    /// The experiments of a workspace, oldest first. `live` names those whose
    /// process this controller holds.
    pub fn experiment_list(&self, workspace: &WorkspaceId, live: &Vec<String>) -> (r: Vec<
        ExperimentObservation<'_>,
    >)
        ensures
            ({
                let order = by_age(self.experiments@, workspace@, self.experiments@.len() as int);
                &&& r@.len() == order.len()
                &&& forall|i: int|
                    0 <= i < r@.len() ==> observes(
                        *self,
                        workspace@,
                        #[trigger] r@[i],
                        order[i],
                        text::texts(live@).contains(
                            self.experiments@[order[i]].run.experiment_id@,
                        ),
                    )
            }),
    {
        let order: Vec<usize> = list_by_age(&self.experiments, workspace);
        let mut out: Vec<ExperimentObservation<'_>> = Vec::new();
        let mut i: usize = 0;
        while i < order.len()
            invariant
                i <= order@.len(),
                out@.len() == i,
                forall|k: int| 0 <= k < order@.len() ==> (#[trigger] order@[k])
                    < self.experiments@.len(),
                forall|k: int|
                    0 <= k < i ==> observes(
                        *self,
                        workspace@,
                        #[trigger] out@[k],
                        order@[k] as int,
                        text::texts(live@).contains(
                            self.experiments@[order@[k] as int].run.experiment_id@,
                        ),
                    ),
            decreases order@.len() - i,
        {
            let k: usize = order[i];
            let held: bool = text::among(live, self.experiments[k].run.experiment_id.as_str());
            out.push(self.observe(workspace, k, held));
            i += 1;
        }
        proof {
            let places = positions(order@);
            assert forall|k: int| 0 <= k < out@.len() implies observes(
                *self,
                workspace@,
                #[trigger] out@[k],
                places[k],
                text::texts(live@).contains(self.experiments@[places[k]].run.experiment_id@),
            ) by {
                assert(places[k] == order@[k]);
            }
        }
        out
    }
}

// ---------------------------------------------------------------------------
// Recording
// ---------------------------------------------------------------------------

/// What the journal records of a saved experiment: the failure of its last
/// attempt.
pub open spec fn last_failure(run: ExperimentRun) -> Seq<char> {
    if run.attempts@.len() > 0 && run.attempts@.last().failure is Some {
        run.attempts@.last().failure->0@
    } else {
        ""@
    }
}

/// Whether a journal entry is of an experiment, a phase and a detail.
pub open spec fn notes(e: JournalEntry, id: Seq<char>, phase: Seq<char>, detail: Seq<char>) -> bool {
    e matches JournalEntry::Experiment { experiment_id, phase: p, detail: d } && experiment_id@ == id
        && p@ == phase && d@ == detail
}

/// Whether a journal has gained exactly one entry.
pub open spec fn journaled(
    before: Seq<JournalEntry>,
    after: Seq<JournalEntry>,
    id: Seq<char>,
    phase: Seq<char>,
    detail: Seq<char>,
) -> bool {
    &&& after.len() == before.len() + 1
    &&& after.drop_last() == before
    &&& notes(after.last(), id, phase, detail)
}

/// Whether a store is as before but for its experiments and its journal.
pub open spec fn else_unchanged(before: Store, after: Store) -> bool {
    &&& after.plans == before.plans
    &&& after.requests == before.requests
    &&& after.jobs == before.jobs
    &&& after.events == before.events
    &&& after.decisions == before.decisions
    &&& after.cursors == before.cursors
}

pub const PHASE_CANCELLATION_REQUESTED: &'static str = "EXPERIMENT_CANCELLATION_REQUESTED";

pub const CANCELLATION_DETAIL: &'static str =
    "effective only while a live controller is polling this experiment; a crashed controller cannot observe this flag";

pub const NOT_RUNNING: &'static str = "only a running experiment can be cancelled";

/// Why an experiment cannot be asked to stop, if it cannot.
pub open spec fn cancel_refusal(
    all: Seq<StoredExperiment>,
    workspace: Seq<char>,
    id: Seq<char>,
) -> Option<Seq<char>> {
    match experiment_at(all, workspace, id, 0) {
        None => Some(NOT_FOUND@),
        Some(k) => if !(all[k].run.state is Running) {
            Some(NOT_RUNNING@)
        } else {
            None
        },
    }
}

impl Store {
    pub fn journal_experiment(&mut self, id: &str, phase: &str, detail: &str)
        ensures
            journaled(old(self).journal@, final(self).journal@, id@, phase@, detail@),
            else_unchanged(*old(self), *final(self)),
            final(self).experiments == old(self).experiments,
    {
        let ghost before = self.journal@;
        self.journal.push(
            JournalEntry::Experiment {
                experiment_id: id.to_owned(),
                phase: phase.to_owned(),
                detail: detail.to_owned(),
            },
        );
        assert(self.journal@.drop_last() =~= before);
    }

    /// Records an experiment, new or known, and notes the phase that it entered.
    pub fn save_experiment(&mut self, workspace: &WorkspaceId, run: &ExperimentRun, phase: &str)
        ensures
            ({
                let (before, after) = (old(self).experiments@, final(self).experiments@);
                match recorded_at(before, run.experiment_id@, 0) {
                    Some(k) => {
                        &&& after.len() == before.len()
                        &&& after == before.update(k, after[k])
                        &&& after[k].workspace_id@ == before[k].workspace_id@
                        &&& after[k].cancel_requested == before[k].cancel_requested
                        &&& same_experiment(after[k].run, *run)
                        &&& after[k].run.state == run.state
                        &&& after[k].run.attempts@ == run.attempts@
                    },
                    None => {
                        &&& after.len() == before.len() + 1
                        &&& after.drop_last() == before
                        &&& after.last().workspace_id@ == workspace@
                        &&& !after.last().cancel_requested
                        &&& same_experiment(after.last().run, *run)
                        &&& after.last().run.state == run.state
                        &&& after.last().run.attempts@ == run.attempts@
                    },
                }
            }),
            journaled(
                old(self).journal@,
                final(self).journal@,
                run.experiment_id@,
                phase@,
                last_failure(*run),
            ),
            else_unchanged(*old(self), *final(self)),
    {
        let ghost before = self.experiments@;
        match find_recorded(&self.experiments, run.experiment_id.as_str()) {
            Some(k) => {
                let known: &StoredExperiment = &self.experiments[k];
                let entry: StoredExperiment = StoredExperiment {
                    workspace_id: known.workspace_id.clone(),
                    cancel_requested: known.cancel_requested,
                    run: run.copy(),
                };
                self.experiments.set(k, entry);
                assert(self.experiments@ =~= before.update(k as int, self.experiments@[k as int]));
            },
            None => {
                let entry: StoredExperiment = StoredExperiment {
                    workspace_id: workspace.clone(),
                    cancel_requested: false,
                    run: run.copy(),
                };
                self.experiments.push(entry);
                assert(self.experiments@.drop_last() =~= before);
            },
        }
        let n: usize = run.attempts.len();
        let mut detail: String = "".to_owned();
        if n > 0 {
            match &run.attempts[n - 1].failure {
                Some(f) => {
                    detail = f.clone();
                },
                None => {},
            }
        }
        self.journal_experiment(run.experiment_id.as_str(), phase, detail.as_str());
    }

    fn set_cancel_requested(&mut self, k: usize, requested: bool)
        requires
            k < old(self).experiments@.len(),
        ensures
            final(self).experiments@.len() == old(self).experiments@.len(),
            final(self).experiments@ == old(self).experiments@.update(
                k as int,
                final(self).experiments@[k as int],
            ),
            flagged(
                old(self).experiments@[k as int],
                final(self).experiments@[k as int],
                requested,
            ),
            final(self).journal == old(self).journal,
            else_unchanged(*old(self), *final(self)),
    {
        let ghost before = self.experiments@;
        let known: &StoredExperiment = &self.experiments[k];
        let entry: StoredExperiment = StoredExperiment {
            workspace_id: known.workspace_id.clone(),
            cancel_requested: requested,
            run: known.run.copy(),
        };
        self.experiments.set(k, entry);
        assert(self.experiments@ =~= before.update(k as int, self.experiments@[k as int]));
    }

    /// Asks a running experiment to stop. Only the controller that polls it will
    /// notice; nothing is claimed about a process that nobody holds.
    pub fn experiment_cancel(&mut self, workspace: &WorkspaceId, id: &str) -> (r: Result<(), Error>)
        ensures
            crate::error::settles(
                r,
                cancel_refusal(old(self).experiments@, workspace@, id@),
            ),
            r is Err ==> *final(self) == *old(self),
            r is Ok ==> {
                let k = experiment_at(old(self).experiments@, workspace@, id@, 0)->0;
                &&& final(self).experiments@ == old(self).experiments@.update(
                    k,
                    final(self).experiments@[k],
                )
                &&& flagged(old(self).experiments@[k], final(self).experiments@[k], true)
                &&& journaled(
                    old(self).journal@,
                    final(self).journal@,
                    id@,
                    PHASE_CANCELLATION_REQUESTED@,
                    CANCELLATION_DETAIL@,
                )
                &&& else_unchanged(*old(self), *final(self))
            },
    {
        match find_experiment(&self.experiments, workspace, id) {
            None => invalid(NOT_FOUND),
            Some(k) => {
                match self.experiments[k].run.state {
                    ExperimentState::Running => {},
                    _ => return invalid(NOT_RUNNING),
                }
                self.set_cancel_requested(k, true);
                self.journal_experiment(id, PHASE_CANCELLATION_REQUESTED, CANCELLATION_DETAIL);
                Ok(())
            },
        }
    }

    /// Whether an experiment was asked to stop.
    pub fn cancel_requested(&self, id: &str) -> (r: bool)
        ensures
            r == (recorded_at(self.experiments@, id@, 0) matches Some(k)
                && self.experiments@[k].cancel_requested),
    {
        match find_recorded(&self.experiments, id) {
            Some(k) => self.experiments[k].cancel_requested,
            None => false,
        }
    }

    /// Forgets that an experiment was asked to stop, before it is started again.
    pub fn clear_cancellation(&mut self, workspace: &WorkspaceId, id: &str) -> (r: Result<(), Error>)
        ensures
            crate::error::settles(
                r,
                if experiment_at(old(self).experiments@, workspace@, id@, 0) is None {
                    Some(NOT_FOUND@)
                } else {
                    None
                },
            ),
            r is Err ==> *final(self) == *old(self),
            r is Ok ==> {
                let k = experiment_at(old(self).experiments@, workspace@, id@, 0)->0;
                &&& final(self).experiments@ == old(self).experiments@.update(
                    k,
                    final(self).experiments@[k],
                )
                &&& flagged(old(self).experiments@[k], final(self).experiments@[k], false)
                &&& final(self).journal == old(self).journal
                &&& else_unchanged(*old(self), *final(self))
            },
    {
        match find_experiment(&self.experiments, workspace, id) {
            None => invalid(NOT_FOUND),
            Some(k) => {
                self.set_cancel_requested(k, false);
                Ok(())
            },
        }
    }
}

/// Whether a record changed in nothing but whether it was asked to stop.
pub open spec fn flagged(before: StoredExperiment, after: StoredExperiment, requested: bool) -> bool {
    &&& after.workspace_id@ == before.workspace_id@
    &&& after.cancel_requested == requested
    &&& same_experiment(after.run, before.run)
    &&& after.run.state == before.run.state
    &&& after.run.attempts@ == before.run.attempts@
}

// ---------------------------------------------------------------------------
// Starting
// ---------------------------------------------------------------------------

/// What an experiment runs: a command of its own, or one of the project.
#[derive(Debug, PartialEq, Eq)]
pub enum ExperimentCommand {
    Explicit(CommandSpec),
    Project(String),
}

pub const CWD_ESCAPES: &'static str = "experiment cwd escapes workspace";

/// What is said of a time limit that is out of range.
pub open spec fn timeout_message() -> Seq<char> {
    "experiment timeout_ms must be 1..="@ + text::digits(MAX_TIMEOUT_MS as nat)
}

/// Checks a time limit.
pub fn check_timeout(timeout_ms: u64) -> (r: Result<(), Error>)
    ensures
        crate::error::settles(
            r,
            if !(1 <= timeout_ms <= MAX_TIMEOUT_MS) {
                Some(timeout_message())
            } else {
                None
            },
        ),
{
    if !(1 <= timeout_ms && timeout_ms <= MAX_TIMEOUT_MS) {
        let most: String = text::decimal(MAX_TIMEOUT_MS);
        let said: String = text::join2("experiment timeout_ms must be 1..=", most.as_str());
        return invalid(said.as_str());
    }
    Ok(())
}

/// What is said of a project command that is not declared.
pub open spec fn unknown_command(key: Seq<char>) -> Seq<char> {
    "unknown project command "@ + key + "; declare it under [commands."@ + key
        + "] in .agentctl/project.toml"@
}

/// Looks a command up. A project command comes with its name.
pub fn resolve_command(commands: &Vec<NamedCommand>, command: &ExperimentCommand) -> (r: Result<
    (CommandSpec, Option<String>),
    Error,
>)
    ensures
        match *command {
            ExperimentCommand::Explicit(c) => r matches Ok(v) && protocol::same_command(v.0, c)
                && v.1 is None,
            ExperimentCommand::Project(key) => match issue::command_at(commands@, key@, 0) {
                Some(i) => r matches Ok(v) && protocol::same_command(v.0, commands@[i].command)
                    && v.1 == Some(key),
                None => crate::error::refused(r, unknown_command(key@)),
            },
        },
{
    match command {
        ExperimentCommand::Explicit(c) => Ok((c.copy(), None)),
        ExperimentCommand::Project(key) => match find_command(commands, key.as_str()) {
            Some(i) => Ok((commands[i].command.copy(), Some(key.clone()))),
            None => {
                let head: String = text::join3(
                    "unknown project command ",
                    key.as_str(),
                    "; declare it under [commands.",
                );
                let said: String = text::join3(
                    head.as_str(),
                    key.as_str(),
                    "] in .agentctl/project.toml",
                );
                invalid(said.as_str())
            },
        },
    }
}

/// Refuses a working directory outside the workspace. Both are the components
/// of canonical paths.
pub fn check_cwd(cwd: &Vec<String>, root: &Vec<String>) -> (r: Result<(), Error>)
    ensures
        crate::error::settles(
            r,
            if !worktree::inside(text::texts(cwd@), text::texts(root@)) {
                Some(CWD_ESCAPES@)
            } else {
                None
            },
        ),
{
    if !lies_inside(cwd, root) {
        return invalid(CWD_ESCAPES);
    }
    Ok(())
}

/// What a new experiment is declared with.
#[derive(Debug, PartialEq, Eq)]
pub struct Declaration {
    pub workspace_id: WorkspaceId,
    /// What identifies it, without its kind.
    pub hex: String,
    pub command: CommandSpec,
    pub project_command_key: Option<String>,
    pub network: bool,
    pub env_passthrough: Vec<String>,
    pub timeout_ms: u64,
    pub created_at_ms: u64,
    pub decision_boundaries: Vec<BoundaryDefinition>,
    pub boundaries_hash: String,
    pub max_planner_wakeups: u32,
}

/// A new experiment. It has the network only where it asked for it and policy
/// does not deny it.
pub fn create(d: Declaration, deny_network: bool) -> (r: ExperimentRun)
    ensures
        r.experiment_id@ == "experiment:"@ + d.hex@,
        r.workspace_id == d.workspace_id,
        r.engineering_session_id is None,
        r.command == d.command,
        r.project_command_key == d.project_command_key,
        r.network == (d.network && !deny_network),
        r.env_passthrough == d.env_passthrough,
        r.timeout_ms == d.timeout_ms,
        r.created_at_ms == d.created_at_ms,
        r.state == ExperimentState::Created,
        r.attempts@.len() == 0,
        r.decision_boundaries == d.decision_boundaries,
        r.boundaries_hash == d.boundaries_hash,
        r.max_planner_wakeups == d.max_planner_wakeups,
{
    ExperimentRun {
        experiment_id: text::join2("experiment:", d.hex.as_str()),
        workspace_id: d.workspace_id,
        engineering_session_id: None,
        command: d.command,
        project_command_key: d.project_command_key,
        network: d.network && !deny_network,
        env_passthrough: d.env_passthrough,
        timeout_ms: d.timeout_ms,
        created_at_ms: d.created_at_ms,
        state: ExperimentState::Created,
        attempts: Vec::new(),
        decision_boundaries: d.decision_boundaries,
        boundaries_hash: d.boundaries_hash,
        max_planner_wakeups: d.max_planner_wakeups,
    }
}

/// Whether a process of an experiment may use the network now.
pub fn may_use_network(run: &ExperimentRun, deny_network: bool) -> (r: bool)
    ensures
        r == (run.network && !deny_network),
{
    run.network && !deny_network
}

// ---------------------------------------------------------------------------
// Attempts
// ---------------------------------------------------------------------------

/// Whether nothing but the state and the attempts of an experiment changed, and
/// of the attempts only the last.
pub open spec fn only_last_changed(before: ExperimentRun, after: ExperimentRun) -> bool {
    &&& rest_kept(before, after)
    &&& after.attempts@.len() == before.attempts@.len()
    &&& after.attempts@.drop_last() == before.attempts@.drop_last()
}

/// Whether nothing but the state and the attempts of an experiment changed.
pub open spec fn rest_kept(before: ExperimentRun, after: ExperimentRun) -> bool {
    &&& after.experiment_id == before.experiment_id
    &&& after.workspace_id == before.workspace_id
    &&& after.engineering_session_id == before.engineering_session_id
    &&& after.command == before.command
    &&& after.project_command_key == before.project_command_key
    &&& after.network == before.network
    &&& after.env_passthrough == before.env_passthrough
    &&& after.timeout_ms == before.timeout_ms
    &&& after.created_at_ms == before.created_at_ms
    &&& after.decision_boundaries == before.decision_boundaries
    &&& after.boundaries_hash == before.boundaries_hash
    &&& after.max_planner_wakeups == before.max_planner_wakeups
}

/// An attempt that has just been opened.
pub open spec fn opened(number: u32) -> ExperimentAttempt {
    ExperimentAttempt {
        attempt: number,
        pid: None,
        started_at_ms: None,
        finished_at_ms: None,
        exit_status: None,
        evidence: None,
        failure: None,
        event_ingestion_error: None,
        state: ExperimentState::Running,
    }
}

/// Opens the next attempt. Every prior one stays. The result is its number.
pub fn begin_attempt(run: &mut ExperimentRun) -> (r: u32)
    requires
        old(run).attempts@.len() < u32::MAX,
    ensures
        r == old(run).attempts@.len() + 1,
        final(run).attempts@ == old(run).attempts@.push(opened(r)),
        final(run).state == ExperimentState::Running,
        rest_kept(*old(run), *final(run)),
{
    let number: u32 = run.attempts.len() as u32 + 1;
    run.state = ExperimentState::Running;
    run.attempts.push(
        ExperimentAttempt {
            attempt: number,
            pid: None,
            started_at_ms: None,
            finished_at_ms: None,
            exit_status: None,
            evidence: None,
            failure: None,
            event_ingestion_error: None,
            state: ExperimentState::Running,
        },
    );
    number
}

fn replace_last(run: &mut ExperimentRun, last: ExperimentAttempt)
    requires
        old(run).attempts@.len() > 0,
    ensures
        only_last_changed(*old(run), *final(run)),
        final(run).attempts@.last() == last,
        final(run).state == old(run).state,
{
    let ghost before = run.attempts@;
    let n: usize = run.attempts.len();
    run.attempts.set(n - 1, last);
    assert(run.attempts@.drop_last() =~= before.drop_last());
}

/// The process could not be started.
pub fn start_failed(run: &mut ExperimentRun, error: String, now_ms: u64)
    requires
        old(run).attempts@.len() > 0,
    ensures
        only_last_changed(*old(run), *final(run)),
        final(run).state == ExperimentState::Failed,
        final(run).attempts@.last() == (ExperimentAttempt {
            state: ExperimentState::Failed,
            failure: Some(error),
            finished_at_ms: Some(now_ms),
            ..old(run).attempts@.last()
        }),
{
    let mut last: ExperimentAttempt = run.attempts[run.attempts.len() - 1].clone();
    last.state = ExperimentState::Failed;
    last.failure = Some(error);
    last.finished_at_ms = Some(now_ms);
    replace_last(run, last);
    run.state = ExperimentState::Failed;
}

/// The process runs.
pub fn started(run: &mut ExperimentRun, pid: Option<u32>, now_ms: u64)
    requires
        old(run).attempts@.len() > 0,
    ensures
        only_last_changed(*old(run), *final(run)),
        final(run).state == old(run).state,
        final(run).attempts@.last() == (ExperimentAttempt {
            pid,
            started_at_ms: Some(now_ms),
            ..old(run).attempts@.last()
        }),
{
    let mut last: ExperimentAttempt = run.attempts[run.attempts.len() - 1].clone();
    last.pid = pid;
    last.started_at_ms = Some(now_ms);
    replace_last(run, last);
}

/// What came of terminating the process that a controller holds.
#[derive(Debug, PartialEq, Eq)]
pub enum CancellationOutcome {
    Applied,
    AlreadyExited,
    Failed(String),
}

/// What a controller found when it went to stop the process.
#[derive(Debug, PartialEq, Eq)]
pub enum Found {
    /// The process had already exited.
    Exited,
    Tried(CancellationOutcome),
}

/// What a controller does next.
#[derive(Debug, Clone, Copy, PartialEq, Eq, Structural)]
pub enum Watching {
    /// Ask whether the process has exited.
    Poll,
    /// Ask the same, and terminate it if it has not.
    Stop,
}

/// How the supervision of an attempt stands.
#[derive(Debug, PartialEq, Eq)]
pub struct Supervision {
    /// Whether a request to stop was acted upon.
    pub checked: bool,
    /// Whether termination was applied.
    pub applied: bool,
    /// Why termination failed.
    pub failure: Option<String>,
    pub ingestion_error: Option<String>,
}

pub const PHASE_APPLIED: &'static str = "EXPERIMENT_CANCELLATION_APPLIED";

pub const PHASE_NOT_APPLIED: &'static str = "EXPERIMENT_CANCELLATION_NOT_APPLIED";

pub const DETAIL_APPLIED: &'static str = "termination was applied to the owned live process";

pub const DETAIL_EXITED: &'static str =
    "the owned process had already exited; its observed exit outcome is authoritative";

/// What the journal records of what a controller found: a phase and a detail.
pub open spec fn found_note(found: Found) -> (Seq<char>, Seq<char>) {
    match found {
        Found::Exited => (PHASE_NOT_APPLIED@, DETAIL_EXITED@),
        Found::Tried(CancellationOutcome::Applied) => (PHASE_APPLIED@, DETAIL_APPLIED@),
        Found::Tried(CancellationOutcome::AlreadyExited) => (PHASE_NOT_APPLIED@, DETAIL_EXITED@),
        Found::Tried(CancellationOutcome::Failed(error)) => (
            PHASE_NOT_APPLIED@,
            "termination failed: "@ + error@
                + "; the observed process exit remains authoritative"@,
        ),
    }
}

impl Supervision {
    pub fn new() -> (r: Self)
        ensures
            !r.checked && !r.applied && r.failure is None && r.ingestion_error is None,
    {
        Supervision { checked: false, applied: false, failure: None, ingestion_error: None }
    }

    /// What to do next. A request to stop is acted upon once.
    pub fn watch(&mut self, cancel_requested: bool) -> (r: Watching)
        ensures
            r == if !old(self).checked && cancel_requested {
                Watching::Stop
            } else {
                Watching::Poll
            },
            final(self).checked == (old(self).checked || cancel_requested),
            final(self).applied == old(self).applied,
            final(self).failure == old(self).failure,
            final(self).ingestion_error == old(self).ingestion_error,
    {
        if !self.checked && cancel_requested {
            self.checked = true;
            Watching::Stop
        } else {
            Watching::Poll
        }
    }

    /// Takes note of what came of stopping the process. The result is what the
    /// journal records.
    pub fn settle(&mut self, found: &Found) -> (r: (&'static str, String))
        ensures
            (r.0@, r.1@) == found_note(*found),
            final(self).checked == old(self).checked,
            final(self).ingestion_error == old(self).ingestion_error,
            final(self).applied == (old(self).applied || *found == Found::Tried(
                CancellationOutcome::Applied,
            )),
            final(self).failure == match *found {
                Found::Tried(CancellationOutcome::Failed(error)) => Some(error),
                _ => old(self).failure,
            },
    {
        match found {
            Found::Exited => (PHASE_NOT_APPLIED, DETAIL_EXITED.to_owned()),
            Found::Tried(outcome) => match outcome {
                CancellationOutcome::Applied => {
                    self.applied = true;
                    (PHASE_APPLIED, DETAIL_APPLIED.to_owned())
                },
                CancellationOutcome::AlreadyExited => {
                    (PHASE_NOT_APPLIED, DETAIL_EXITED.to_owned())
                },
                CancellationOutcome::Failed(error) => {
                    self.failure = Some(error.clone());
                    let said: String = text::join3(
                        "termination failed: ",
                        error.as_str(),
                        "; the observed process exit remains authoritative",
                    );
                    (PHASE_NOT_APPLIED, said)
                },
            },
        }
    }

    /// Takes note of events that could not be taken in. While the process runs
    /// that is tried again; once it has ended it is final.
    pub fn ingestion_failed(&mut self, error: &str, ended: bool)
        ensures
            final(self).ingestion_error matches Some(e) && e@ == if ended {
                "event ingestion failed: "@ + error@
            } else {
                "event ingestion retry pending: "@ + error@
            },
            final(self).checked == old(self).checked,
            final(self).applied == old(self).applied,
            final(self).failure == old(self).failure,
    {
        self.ingestion_error = Some(
            if ended {
                text::join2("event ingestion failed: ", error)
            } else {
                text::join2("event ingestion retry pending: ", error)
            },
        );
    }
}

/// How a process ended.
#[derive(Debug, PartialEq, Eq)]
pub struct ProcessOutput {
    pub exit: Option<i32>,
    pub failure: Option<String>,
}

/// The state of an attempt whose process has ended: cancelled only where
/// termination was applied and is what ended it, succeeded only on a clean exit.
pub open spec fn outcome(applied: bool, output: ProcessOutput) -> ExperimentState {
    if applied && validation::is_text(output.failure, "cancelled"@) && output.exit != Some(0i32) {
        ExperimentState::Cancelled
    } else if output.exit == Some(0i32) && output.failure is None {
        ExperimentState::Succeeded
    } else {
        ExperimentState::Failed
    }
}

fn clean(exit: &Option<i32>) -> (r: bool)
    ensures
        r == (*exit == Some(0i32)),
{
    match exit {
        Some(n) => *n == 0,
        None => false,
    }
}

pub fn finished_state(applied: bool, output: &ProcessOutput) -> (r: ExperimentState)
    ensures
        r == outcome(applied, *output),
{
    let clean_exit: bool = clean(&output.exit);
    if applied && validation::holds_text(&output.failure, "cancelled") && !clean_exit {
        ExperimentState::Cancelled
    } else if clean_exit && output.failure.is_none() {
        ExperimentState::Succeeded
    } else {
        ExperimentState::Failed
    }
}

/// The process has ended.
pub fn finish(
    run: &mut ExperimentRun,
    supervision: &Supervision,
    output: &ProcessOutput,
    evidence_id: String,
    now_ms: u64,
)
    requires
        old(run).attempts@.len() > 0,
    ensures
        only_last_changed(*old(run), *final(run)),
        final(run).state == outcome(supervision.applied, *output),
        final(run).attempts@.last() == (ExperimentAttempt {
            finished_at_ms: Some(now_ms),
            exit_status: output.exit,
            evidence: Some(evidence_id),
            failure: output.failure,
            event_ingestion_error: supervision.ingestion_error,
            state: outcome(supervision.applied, *output),
            ..old(run).attempts@.last()
        }),
{
    let state: ExperimentState = finished_state(supervision.applied, output);
    let mut last: ExperimentAttempt = run.attempts[run.attempts.len() - 1].clone();
    last.finished_at_ms = Some(now_ms);
    last.exit_status = output.exit;
    last.evidence = Some(evidence_id);
    last.failure = output.failure.clone();
    last.event_ingestion_error = supervision.ingestion_error.clone();
    last.state = state;
    replace_last(run, last);
    run.state = state;
}

/// The file that an attempt writes its events to.
pub fn event_file_name(attempt: u32) -> (r: String)
    ensures
        r@ == "attempt-"@ + text::digits(attempt as nat) + "-events.jsonl"@,
{
    let number: String = text::decimal(attempt as u64);
    text::join3("attempt-", number.as_str(), "-events.jsonl")
}

/// What identifies the evidence of an attempt.
pub fn evidence_id(experiment_id: &str, attempt: u32) -> (r: String)
    ensures
        r@ == "evidence:"@ + experiment_id@ + "-attempt-"@ + text::digits(attempt as nat),
{
    let head: String = text::join3("evidence:", experiment_id, "-attempt-");
    let number: String = text::decimal(attempt as u64);
    text::join2(head.as_str(), number.as_str())
}

/// When the process of the last attempt was started, as evidence records it.
pub fn evidence_start(run: &ExperimentRun) -> (r: u64)
    ensures
        r == if run.attempts@.len() > 0 && run.attempts@.last().started_at_ms is Some {
            run.attempts@.last().started_at_ms->0
        } else {
            run.created_at_ms
        },
{
    let n: usize = run.attempts.len();
    if n > 0 {
        match run.attempts[n - 1].started_at_ms {
            Some(t) => return t,
            None => {},
        }
    }
    run.created_at_ms
}

/// A whole number, with its sign.
pub open spec fn signed(n: int) -> Seq<char> {
    if n < 0 {
        "-"@ + text::digits((-n) as nat)
    } else {
        text::digits(n as nat)
    }
}

pub fn signed_decimal(n: i64) -> (r: String)
    ensures
        r@ == signed(n as int),
{
    let wide: i128 = n as i128;
    if wide < 0 {
        let rest: String = text::decimal((-wide) as u64);
        text::join2("-", rest.as_str())
    } else {
        text::decimal(wide as u64)
    }
}

/// How an exit status is shown.
pub open spec fn exit_text(exit: Option<i32>) -> Seq<char> {
    match exit {
        Some(n) => "Some("@ + signed(n as int) + ")"@,
        None => "None"@,
    }
}

pub fn show_exit(exit: &Option<i32>) -> (r: String)
    ensures
        r@ == exit_text(*exit),
{
    match exit {
        Some(n) => {
            let inner: String = signed_decimal(*n as i64);
            text::join3("Some(", inner.as_str(), ")")
        },
        None => "None".to_owned(),
    }
}

/// How the debug formatter shows an optional text.
pub uninterp spec fn debugged(value: Option<Seq<char>>) -> Seq<char>;

/// `format!` of the standard library with `{:?}` on an `Option<String>`: the text
/// is a function of the value. Which characters it escapes is left open.
#[verifier::external_body]
pub(crate) fn debug_text(value: &Option<String>) -> (r: String)
    ensures
        r@ == debugged(validation::message(*value)),
{
    format!("{:?}", value)
}

/// What evidence says of an attempt.
pub open spec fn summary(
    id: Seq<char>,
    attempt: nat,
    exit: Option<i32>,
    failure: Seq<char>,
) -> Seq<char> {
    "experiment "@ + id + " attempt "@ + text::digits(attempt) + ": exit "@ + exit_text(exit)
        + ", failure "@ + failure
}

/// What evidence says of an attempt, given how its failure is shown.
pub fn summary_of(id: &str, attempt: u32, exit: &Option<i32>, failure: &str) -> (r: String)
    ensures
        r@ == summary(id@, attempt as nat, *exit, failure@),
{
    let number: String = text::decimal(attempt as u64);
    let shown: String = show_exit(exit);
    let head: String = text::join3("experiment ", id, " attempt ");
    let head: String = text::join3(head.as_str(), number.as_str(), ": exit ");
    let head: String = text::join3(head.as_str(), shown.as_str(), ", failure ");
    text::join2(head.as_str(), failure)
}

/// What evidence says of an attempt whose process has ended.
pub fn summarize(id: &str, attempt: u32, output: &ProcessOutput) -> (r: String)
    ensures
        r@ == summary(
            id@,
            attempt as nat,
            output.exit,
            debugged(validation::message(output.failure)),
        ),
{
    let failure: String = debug_text(&output.failure);
    summary_of(id, attempt, &output.exit, failure.as_str())
}

// ---------------------------------------------------------------------------
// Starting again
// ---------------------------------------------------------------------------

pub const STILL_LIVE: &'static str =
    "experiment appears to still be actively supervised by a live controller; cancel it or wait for it to finish, then restart";

pub const INTERRUPTED: &'static str =
    "controller interrupted; success unproven; no automatic retry";

/// Whether the project command of an experiment is still what it was.
pub open spec fn command_kept(run: ExperimentRun, commands: Seq<NamedCommand>) -> bool {
    match run.project_command_key {
        None => true,
        Some(key) => issue::command_at(commands, key@, 0) matches Some(i) && protocol::same_command(
            commands[i].command,
            run.command,
        ),
    }
}

/// Why an experiment cannot be started again, if it cannot.
pub open spec fn restart_refusal(
    run: ExperimentRun,
    commands: Seq<NamedCommand>,
    live: bool,
) -> Option<Seq<char>> {
    if !command_kept(run, commands) {
        Some(
            "SOURCE_DRIFT: project command "@ + run.project_command_key->0@
                + " changed or was removed; create a new experiment to revalidate it"@,
        )
    } else if run.state is Running && live {
        Some(STILL_LIVE@)
    } else {
        None
    }
}

/// Checks that an experiment may be started again: an explicit request only, and
/// never while a controller watches it.
pub fn check_restart(run: &ExperimentRun, commands: &Vec<NamedCommand>, live: bool) -> (r: Result<
    (),
    Error,
>)
    ensures
        crate::error::settles(r, restart_refusal(*run, commands@, live)),
{
    match &run.project_command_key {
        Some(key) => {
            let kept: bool = match find_command(commands, key.as_str()) {
                Some(i) => commands[i].command.same(&run.command),
                None => false,
            };
            if !kept {
                let said: String = text::join3(
                    "SOURCE_DRIFT: project command ",
                    key.as_str(),
                    " changed or was removed; create a new experiment to revalidate it",
                );
                return invalid(said.as_str());
            }
        },
        None => {},
    }
    match run.state {
        ExperimentState::Running => {
            if live {
                return invalid(STILL_LIVE);
            }
        },
        _ => {},
    }
    Ok(())
}

/// An attempt that a lost controller left behind. Its outcome is unproven.
pub open spec fn given_up(a: ExperimentAttempt, after: ExperimentAttempt) -> bool {
    if a.state.terminal() {
        after == a
    } else {
        &&& after == (ExperimentAttempt {
            state: ExperimentState::Interrupted,
            failure: after.failure,
            ..a
        })
        &&& after.failure matches Some(f) && f@ == match a.failure {
            Some(known) => known@,
            None => INTERRUPTED@,
        }
    }
}

/// Reconciles a record that still says RUNNING although nobody runs it. Success
/// is never guessed. The result says whether there was anything to reconcile.
pub fn reconcile(run: &mut ExperimentRun) -> (r: bool)
    ensures
        r == (old(run).state is Running),
        !r ==> *final(run) == *old(run),
        r ==> {
            &&& final(run).state == ExperimentState::Interrupted
            &&& only_last_changed(*old(run), *final(run))
            &&& old(run).attempts@.len() > 0 ==> given_up(
                old(run).attempts@.last(),
                final(run).attempts@.last(),
            )
        },
{
    match run.state {
        ExperimentState::Running => {},
        _ => return false,
    }
    let n: usize = run.attempts.len();
    if n > 0 {
        let mut last: ExperimentAttempt = run.attempts[n - 1].clone();
        if !last.state.is_terminal() {
            last.state = ExperimentState::Interrupted;
            if last.failure.is_none() {
                last.failure = Some(INTERRUPTED.to_owned());
            }
            replace_last(run, last);
        }
    }
    run.state = ExperimentState::Interrupted;
    true
}

// ---------------------------------------------------------------------------
// Laws
// ---------------------------------------------------------------------------

/// An attempt is cancelled only where termination was applied to the live
/// process, and a process that exited cleanly is never called cancelled.
pub proof fn law_cancellation_is_never_guessed(applied: bool, output: ProcessOutput)
    ensures
        outcome(applied, output) is Cancelled ==> applied && output.exit != Some(0i32),
        outcome(applied, output) is Succeeded ==> output.exit == Some(0i32),
        outcome(applied, output).terminal(),
{
}

/// Reconciling what a lost controller left behind never makes a success of it,
/// and keeps every earlier attempt.
pub proof fn law_reconciling_proves_nothing(before: ExperimentRun, after: ExperimentRun)
    requires
        before.state is Running,
        before.attempts@.len() > 0,
        !before.attempts@.last().state.terminal(),
        after.state == ExperimentState::Interrupted,
        only_last_changed(before, after),
        given_up(before.attempts@.last(), after.attempts@.last()),
    ensures
        after.state.terminal(),
        after.attempts@.last().state is Interrupted,
        after.attempts@.last().failure is Some,
        after.attempts@.last().exit_status == before.attempts@.last().exit_status,
        forall|i: int|
            0 <= i < before.attempts@.len() - 1 ==> after.attempts@[i] == #[trigger] before.attempts@[i],
{
    assert forall|i: int| 0 <= i < before.attempts@.len() - 1 implies after.attempts@[i]
        == #[trigger] before.attempts@[i] by {
        assert(after.attempts@.drop_last()[i] == before.attempts@.drop_last()[i]);
    }
}

proof fn lemma_younger(all: Seq<StoredExperiment>, order: Seq<int>, created: u64, i: int)
    requires
        0 <= i <= order.len(),
    ensures
        i <= younger(all, order, created, i) <= order.len(),
        forall|k: int|
            i <= k < younger(all, order, created, i) ==> all[#[trigger] order[k]].run.created_at_ms
                <= created,
        younger(all, order, created, i) < order.len() ==> all[order[younger(
            all,
            order,
            created,
            i,
        )]].run.created_at_ms > created,
    decreases order.len() - i,
{
    if i < order.len() && all[order[i]].run.created_at_ms <= created {
        lemma_younger(all, order, created, i + 1);
    }
}

/// Experiments are listed oldest first, only those of the workspace, each once.
pub proof fn law_experiments_are_listed_by_age(
    all: Seq<StoredExperiment>,
    workspace: Seq<char>,
    n: int,
)
    requires
        0 <= n <= all.len(),
    ensures
        ({
            let order = by_age(all, workspace, n);
            &&& forall|i: int, j: int|
                0 <= i < j < order.len() ==> all[#[trigger] order[i]].run.created_at_ms
                    <= all[#[trigger] order[j]].run.created_at_ms && order[i] != order[j]
            &&& forall|i: int|
                0 <= i < order.len() ==> 0 <= #[trigger] order[i] < n
                    && all[order[i]].workspace_id@ == workspace
            &&& forall|k: int|
                0 <= k < n && (#[trigger] all[k]).workspace_id@ == workspace ==> order.contains(k)
        }),
    decreases n,
{
    if n > 0 {
        law_experiments_are_listed_by_age(all, workspace, n - 1);
        let front = by_age(all, workspace, n - 1);
        let order = by_age(all, workspace, n);
        if all[n - 1].workspace_id@ == workspace {
            let created = all[n - 1].run.created_at_ms;
            let at = younger(all, front, created, 0);
            lemma_younger(all, front, created, 0);
            assert(order == front.insert(at, n - 1));
            assert forall|i: int, j: int| 0 <= i < j < order.len() implies all[
                #[trigger] order[i]
            ].run.created_at_ms <= all[#[trigger] order[j]].run.created_at_ms && order[i]
                != order[j] by {
                let a = if i < at { i } else { i - 1 };
                let b = if j < at { j } else { j - 1 };
                if i != at && j != at {
                    assert(order[i] == front[a] && order[j] == front[b]);
                } else if j == at {
                    assert(order[i] == front[i]);
                } else {
                    assert(order[j] == front[j - 1]);
                    assert(all[front[at]].run.created_at_ms > created);
                    if at < j - 1 {
                        assert(all[front[at]].run.created_at_ms
                            <= all[front[j - 1]].run.created_at_ms);
                    }
                }
            }
            assert forall|i: int| 0 <= i < order.len() implies 0 <= #[trigger] order[i] < n
                && all[order[i]].workspace_id@ == workspace by {
                if i < at {
                    assert(order[i] == front[i]);
                } else if i > at {
                    assert(order[i] == front[i - 1]);
                }
            }
            assert forall|k: int|
                0 <= k < n && (#[trigger] all[k]).workspace_id@ == workspace implies order.contains(
                k,
            ) by {
                if k == n - 1 {
                    assert(order[at] == k);
                } else {
                    assert(front.contains(k));
                    let w = choose|w: int| 0 <= w < front.len() && front[w] == k;
                    if w < at {
                        assert(order[w] == k);
                    } else {
                        assert(order[w + 1] == k);
                    }
                }
            }
        }
    }
}

} // verus!
