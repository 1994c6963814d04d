//! The records of one repository that decisions are made from.
use crate::planning::model::{ExecutionPlanView, PlannerPacket, SourceStateRef};
use crate::protocol::{AgentJob, TaskState, VerificationPacket};
use crate::repository::WorkspaceId;
use crate::runtime::experiment::ExperimentRun;
use crate::runtime::experiment_decisions::{Cursor, ExperimentDecision};
use crate::runtime::experiment_events::StoredEvent;
use crate::text;
use vstd::prelude::*;

verus! {

/// The recorded state of a task.
#[derive(Debug, PartialEq, Eq)]
pub struct TaskStatus {
    pub task_id: String,
    pub state: TaskState,
}

/// A stored plan, its workspace and the recorded states of its tasks.
#[derive(Debug, PartialEq, Eq)]
pub struct StoredPlan {
    pub workspace_id: WorkspaceId,
    pub view: ExecutionPlanView,
    pub tasks: Vec<TaskStatus>,
}

/// A prepared planning request and its workspace.
#[derive(Debug, PartialEq, Eq)]
pub struct StoredRequest {
    pub workspace_id: WorkspaceId,
    pub packet: PlannerPacket,
}

/// An experiment, and whether it was asked to stop.
#[derive(Debug, PartialEq, Eq)]
pub struct StoredExperiment {
    pub workspace_id: WorkspaceId,
    pub cancel_requested: bool,
    pub run: ExperimentRun,
}

/// A decision and its workspace.
#[derive(Debug, PartialEq, Eq)]
pub struct StoredDecision {
    pub workspace_id: WorkspaceId,
    pub decision: ExperimentDecision,
}

/// How far an attempt of an experiment was evaluated.
#[derive(Debug, PartialEq, Eq)]
pub struct StoredCursor {
    pub experiment_id: String,
    pub attempt: u32,
    pub cursor: Cursor,
}

/// What the journal records of plans and experiments.
#[derive(Debug, PartialEq, Eq)]
pub enum JournalEntry {
    PlanningRequestCreated { request_id: String },
    ExecutionPlanImported { plan_id: String },
    ExecutionPlanValidated { plan_id: String },
    ExecutionPlanActivated { plan_id: String },
    ExecutionPlanCancelled { plan_id: String, reason: String },
    ExecutionPlanSuperseded { original: String, replacement: String, reason: String },
    ExecutionPlanCompleted {
        plan_id: String,
        verification: VerificationPacket,
        source: SourceStateRef,
    },
    Experiment { experiment_id: String, phase: String, detail: String },
}

/// The records of one repository.
#[derive(Debug, PartialEq, Eq)]
pub struct Store {
    pub plans: Vec<StoredPlan>,
    pub requests: Vec<StoredRequest>,
    pub jobs: Vec<AgentJob>,
    /// Experiments in the order of their creation.
    pub experiments: Vec<StoredExperiment>,
    /// Events in the order of their arrival.
    pub events: Vec<StoredEvent>,
    /// Decisions in the order in which they fired.
    pub decisions: Vec<StoredDecision>,
    pub cursors: Vec<StoredCursor>,
    pub journal: Vec<JournalEntry>,
}

/// The recorded state of a task, looked up from the `i`-th record on.
pub open spec fn state_of(tasks: Seq<TaskStatus>, id: Seq<char>, i: int) -> Option<TaskState>
    decreases tasks.len() - i,
{
    if i < 0 || i >= tasks.len() {
        None
    } else if tasks[i].task_id@ == id {
        Some(tasks[i].state)
    } else {
        state_of(tasks, id, i + 1)
    }
}

pub fn task_state(tasks: &Vec<TaskStatus>, id: &str) -> (r: Option<TaskState>)
    ensures
        r == state_of(tasks@, id@, 0),
{
    let mut i: usize = 0;
    while i < tasks.len()
        invariant
            i <= tasks@.len(),
            state_of(tasks@, id@, 0) == state_of(tasks@, id@, i as int),
        decreases tasks@.len() - i,
    {
        if text::same(tasks[i].task_id.as_str(), id) {
            return Some(tasks[i].state);
        }
        i += 1;
    }
    None
}

/// The position of a plan of a workspace, looked up from the `i`-th record on.
pub open spec fn plan_at(plans: Seq<StoredPlan>, workspace: Seq<char>, id: Seq<char>, i: int) -> Option<
    int,
>
    decreases plans.len() - i,
{
    if i < 0 || i >= plans.len() {
        None
    } else if plans[i].workspace_id@ == workspace && plans[i].view.plan.packet.plan_id@ == id {
        Some(i)
    } else {
        plan_at(plans, workspace, id, i + 1)
    }
}

/// The position of a request of a workspace, looked up from the `i`-th record
/// on.
pub open spec fn request_at(
    requests: Seq<StoredRequest>,
    workspace: Seq<char>,
    id: Seq<char>,
    i: int,
) -> Option<int>
    decreases requests.len() - i,
{
    if i < 0 || i >= requests.len() {
        None
    } else if requests[i].workspace_id@ == workspace && requests[i].packet.request.request_id@
        == id {
        Some(i)
    } else {
        request_at(requests, workspace, id, i + 1)
    }
}

/// The position of a registered job, looked up from the `i`-th record on.
pub open spec fn job_at(jobs: Seq<AgentJob>, id: Seq<char>, i: int) -> Option<int>
    decreases jobs.len() - i,
{
    if i < 0 || i >= jobs.len() {
        None
    } else if jobs[i].job_id@ == id {
        Some(i)
    } else {
        job_at(jobs, id, i + 1)
    }
}

pub fn find_job(jobs: &Vec<AgentJob>, id: &str) -> (r: Option<usize>)
    ensures
        match r {
            Some(i) => i < jobs@.len() && job_at(jobs@, id@, 0) == Some(i as int),
            None => job_at(jobs@, id@, 0) is None,
        },
{
    let mut i: usize = 0;
    while i < jobs.len()
        invariant
            i <= jobs@.len(),
            job_at(jobs@, id@, 0) == job_at(jobs@, id@, i as int),
        decreases jobs@.len() - i,
    {
        if text::same(jobs[i].job_id.as_str(), id) {
            return Some(i);
        }
        i += 1;
    }
    None
}

pub proof fn lemma_plan_at(plans: Seq<StoredPlan>, workspace: Seq<char>, id: Seq<char>, i: int)
    requires
        0 <= i,
    ensures
        plan_at(plans, workspace, id, i) matches Some(k) ==> i <= k < plans.len()
            && plans[k].workspace_id@ == workspace && plans[k].view.plan.packet.plan_id@ == id,
    decreases plans.len() - i,
{
    if i < plans.len() && !(plans[i].workspace_id@ == workspace
        && plans[i].view.plan.packet.plan_id@ == id) {
        lemma_plan_at(plans, workspace, id, i + 1);
    }
}

impl Store {
    pub fn find_plan(&self, workspace: &WorkspaceId, id: &str) -> (r: Option<usize>)
        ensures
            match r {
                Some(i) => i < self.plans@.len() && plan_at(self.plans@, workspace@, id@, 0) == Some(
                    i as int,
                ),
                None => plan_at(self.plans@, workspace@, id@, 0) is None,
            },
    {
        let mut i: usize = 0;
        while i < self.plans.len()
            invariant
                i <= self.plans@.len(),
                plan_at(self.plans@, workspace@, id@, 0) == plan_at(
                    self.plans@,
                    workspace@,
                    id@,
                    i as int,
                ),
            decreases self.plans@.len() - i,
        {
            if text::same(self.plans[i].workspace_id.as_str(), workspace.as_str()) && text::same(
                self.plans[i].view.plan.packet.plan_id.as_str(),
                id,
            ) {
                return Some(i);
            }
            i += 1;
        }
        None
    }

    pub fn find_request(&self, workspace: &WorkspaceId, id: &str) -> (r: Option<usize>)
        ensures
            match r {
                Some(i) => i < self.requests@.len() && request_at(
                    self.requests@,
                    workspace@,
                    id@,
                    0,
                ) == Some(i as int),
                None => request_at(self.requests@, workspace@, id@, 0) is None,
            },
    {
        let mut i: usize = 0;
        while i < self.requests.len()
            invariant
                i <= self.requests@.len(),
                request_at(self.requests@, workspace@, id@, 0) == request_at(
                    self.requests@,
                    workspace@,
                    id@,
                    i as int,
                ),
            decreases self.requests@.len() - i,
        {
            if text::same(self.requests[i].workspace_id.as_str(), workspace.as_str()) && text::same(
                self.requests[i].packet.request.request_id.as_str(),
                id,
            ) {
                return Some(i);
            }
            i += 1;
        }
        None
    }
}

} // verus!
