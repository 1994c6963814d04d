//! The vocabulary of plans, tasks, jobs and verifications.
use crate::planning::scope;
use crate::planning::scope::ScopePath;
use crate::text;
use vstd::prelude::*;

verus! {

#[derive(Debug, Clone, Copy, PartialEq, Eq, Structural)]
pub enum ProtocolVersion {
    V1,
}

#[derive(Debug, Clone, Copy, PartialEq, Eq, Structural)]
pub enum AgentRole {
    Planner,
    Executor,
    Verifier,
}

#[derive(Debug, Clone, Copy, PartialEq, Eq, Structural)]
pub enum TaskState {
    Planned,
    Ready,
    Executing,
    AwaitingVerification,
    Verifying,
    Verified,
    Rejected,
    Blocked,
}

/// The name of a task state as it appears in messages.
pub open spec fn task_state_name(state: TaskState) -> Seq<char> {
    match state {
        TaskState::Planned => "Planned"@,
        TaskState::Ready => "Ready"@,
        TaskState::Executing => "Executing"@,
        TaskState::AwaitingVerification => "AwaitingVerification"@,
        TaskState::Verifying => "Verifying"@,
        TaskState::Verified => "Verified"@,
        TaskState::Rejected => "Rejected"@,
        TaskState::Blocked => "Blocked"@,
    }
}

impl TaskState {
    pub fn name(self) -> (r: &'static str)
        ensures
            r@ == task_state_name(self),
    {
        match self {
            TaskState::Planned => "Planned",
            TaskState::Ready => "Ready",
            TaskState::Executing => "Executing",
            TaskState::AwaitingVerification => "AwaitingVerification",
            TaskState::Verifying => "Verifying",
            TaskState::Verified => "Verified",
            TaskState::Rejected => "Rejected",
            TaskState::Blocked => "Blocked",
        }
    }
}

#[derive(Debug, Clone, Copy, PartialEq, Eq, Structural)]
pub enum JobState {
    Queued,
    Running,
    Waiting,
    Succeeded,
    Failed,
    Cancelled,
}

/// Whether a job can still change.
pub open spec fn job_unfinished(state: JobState) -> bool {
    state == JobState::Queued || state == JobState::Running || state == JobState::Waiting
}

impl JobState {
    pub fn unfinished(self) -> (r: bool)
        ensures
            r == job_unfinished(self),
    {
        matches!(self, JobState::Queued | JobState::Running | JobState::Waiting)
    }
}

#[derive(Debug, Clone, Copy, PartialEq, Eq, Structural)]
pub enum VerificationDecision {
    Pass,
    Reject,
    Blocked,
}

/// The canonical checks that a task or a plan must pass.
#[derive(Debug, PartialEq, Eq)]
pub struct VerificationRequirements {
    pub requirement_refs: Vec<String>,
    pub evidence_required: bool,
}

impl VerificationRequirements {
    pub fn copy(&self) -> (r: Self)
        ensures
            r.requirement_refs@ == self.requirement_refs@,
            r.evidence_required == self.evidence_required,
    {
        VerificationRequirements {
            requirement_refs: text::copied(&self.requirement_refs),
            evidence_required: self.evidence_required,
        }
    }
}

#[derive(Debug, PartialEq, Eq)]
pub struct ProviderMetadata {
    pub provider: String,
    pub model: String,
}

/// A command as structured arguments; never a shell string.
#[derive(Debug, PartialEq, Eq)]
pub struct CommandSpec {
    pub program: String,
    pub args: Vec<String>,
    pub cwd: String,
}

/// Whether two commands are the same.
pub open spec fn same_command(a: CommandSpec, b: CommandSpec) -> bool {
    a.program@ == b.program@ && text::texts(a.args@) == text::texts(b.args@) && a.cwd@ == b.cwd@
}

impl CommandSpec {
    pub fn copy(&self) -> (r: Self)
        ensures
            r.program == self.program,
            r.args@ == self.args@,
            r.cwd == self.cwd,
            same_command(r, *self),
    {
        CommandSpec {
            program: self.program.clone(),
            args: text::copied(&self.args),
            cwd: self.cwd.clone(),
        }
    }

    pub fn same(&self, other: &CommandSpec) -> (r: bool)
        ensures
            r == same_command(*self, *other),
    {
        text::same(self.program.as_str(), other.program.as_str()) && text::same_texts(
            &self.args,
            &other.args,
        ) && text::same(self.cwd.as_str(), other.cwd.as_str())
    }
}

/// One task of a plan.
#[derive(Debug, PartialEq, Eq)]
pub struct TaskPacket {
    pub task_id: String,
    pub objective: String,
    pub dependencies: Vec<String>,
    pub read_scope: Vec<ScopePath>,
    pub write_scope: Vec<ScopePath>,
    pub graph_entities: Vec<String>,
    pub invariant_refs: Vec<String>,
    pub verification: VerificationRequirements,
}

/// Whether two task packets have the same contents.
pub open spec fn same_packet(a: TaskPacket, b: TaskPacket) -> bool {
    &&& a.task_id == b.task_id
    &&& a.objective == b.objective
    &&& a.dependencies@ == b.dependencies@
    &&& a.read_scope@ == b.read_scope@
    &&& a.write_scope@ == b.write_scope@
    &&& a.graph_entities@ == b.graph_entities@
    &&& a.invariant_refs@ == b.invariant_refs@
    &&& a.verification.requirement_refs@ == b.verification.requirement_refs@
    &&& a.verification.evidence_required == b.verification.evidence_required
}

impl TaskPacket {
    pub fn copy(&self) -> (r: Self)
        ensures
            same_packet(r, *self),
    {
        TaskPacket {
            task_id: self.task_id.clone(),
            objective: self.objective.clone(),
            dependencies: text::copied(&self.dependencies),
            read_scope: scope::copied(&self.read_scope),
            write_scope: scope::copied(&self.write_scope),
            graph_entities: text::copied(&self.graph_entities),
            invariant_refs: text::copied(&self.invariant_refs),
            verification: self.verification.copy(),
        }
    }
}

/// The canonical definition of a plan's tasks.
#[derive(Debug, PartialEq, Eq)]
pub struct PlanPacket {
    pub plan_id: String,
    pub objective: String,
    pub tasks: Vec<TaskPacket>,
    pub integration_verification: VerificationRequirements,
}

/// What a verification speaks of: one task, or the whole plan.
#[derive(Debug, PartialEq, Eq)]
pub enum VerificationTarget {
    Packet { task_id: String, executor_job_id: String },
    Integration { plan_id: String, executor_job_ids: Vec<String> },
}

/// A verifier's decision.
#[derive(Debug, PartialEq, Eq)]
pub struct VerificationPacket {
    pub verifier_job_id: String,
    pub target: VerificationTarget,
    pub decision: VerificationDecision,
    pub evidence: Vec<String>,
    /// The canonical JSON of what else the decision states: its references, its
    /// findings and the context it asks for.
    pub rest: String,
}

/// Whether two targets are the same.
pub open spec fn same_target(a: VerificationTarget, b: VerificationTarget) -> bool {
    match (a, b) {
        (
            VerificationTarget::Packet { task_id: t, executor_job_id: j },
            VerificationTarget::Packet { task_id: u, executor_job_id: k },
        ) => t@ == u@ && j@ == k@,
        (
            VerificationTarget::Integration { plan_id: p, executor_job_ids: v },
            VerificationTarget::Integration { plan_id: q, executor_job_ids: w },
        ) => p@ == q@ && text::texts(v@) == text::texts(w@),
        _ => false,
    }
}

/// Whether two decisions are the same.
pub open spec fn same_verification(a: VerificationPacket, b: VerificationPacket) -> bool {
    &&& a.verifier_job_id@ == b.verifier_job_id@
    &&& same_target(a.target, b.target)
    &&& a.decision == b.decision
    &&& text::texts(a.evidence@) == text::texts(b.evidence@)
    &&& a.rest@ == b.rest@
}

impl VerificationTarget {
    pub fn copy(&self) -> (r: Self)
        ensures
            same_target(r, *self),
    {
        match self {
            VerificationTarget::Packet { task_id, executor_job_id } => VerificationTarget::Packet {
                task_id: task_id.clone(),
                executor_job_id: executor_job_id.clone(),
            },
            VerificationTarget::Integration { plan_id, executor_job_ids } =>
                VerificationTarget::Integration {
                    plan_id: plan_id.clone(),
                    executor_job_ids: text::copied(executor_job_ids),
                },
        }
    }

    pub fn same(&self, other: &Self) -> (r: bool)
        ensures
            r == same_target(*self, *other),
    {
        match (self, other) {
            (
                VerificationTarget::Packet { task_id: t, executor_job_id: j },
                VerificationTarget::Packet { task_id: u, executor_job_id: k },
            ) => text::same(t.as_str(), u.as_str()) && text::same(j.as_str(), k.as_str()),
            (
                VerificationTarget::Integration { plan_id: p, executor_job_ids: v },
                VerificationTarget::Integration { plan_id: q, executor_job_ids: w },
            ) => text::same(p.as_str(), q.as_str()) && text::same_texts(v, w),
            _ => false,
        }
    }
}

impl VerificationPacket {
    pub fn copy(&self) -> (r: Self)
        ensures
            same_verification(r, *self),
    {
        VerificationPacket {
            verifier_job_id: self.verifier_job_id.clone(),
            target: self.target.copy(),
            decision: self.decision,
            evidence: text::copied(&self.evidence),
            rest: self.rest.clone(),
        }
    }

    pub fn same(&self, other: &Self) -> (r: bool)
        ensures
            r == same_verification(*self, *other),
    {
        self.target.same(&other.target) && text::same(self.verifier_job_id.as_str(), other.verifier_job_id.as_str())
            && self.decision == other.decision && text::same_texts(&self.evidence, &other.evidence)
            && text::same(self.rest.as_str(), other.rest.as_str())
    }
}

/// A registered job.
#[derive(Debug, PartialEq, Eq)]
pub struct AgentJob {
    pub job_id: String,
    pub role: AgentRole,
    pub plan_id: String,
    pub task_id: Option<String>,
    pub state: JobState,
    pub workspace_id: Option<String>,
}

/// The position of the first task with an identifier.
pub open spec fn task_at(tasks: Seq<TaskPacket>, id: Seq<char>, i: int) -> Option<int>
    decreases tasks.len() - i,
{
    if i < 0 || i >= tasks.len() {
        None
    } else if tasks[i].task_id@ == id {
        Some(i)
    } else {
        task_at(tasks, id, i + 1)
    }
}

/// The position of the first task with an identifier.
pub fn find_task(tasks: &Vec<TaskPacket>, id: &str) -> (r: Option<usize>)
    ensures
        match r {
            Some(i) => i < tasks@.len() && task_at(tasks@, id@, 0) == Some(i as int)
                && tasks@[i as int].task_id@ == id@,
            None => task_at(tasks@, id@, 0) is None,
        },
{
    let mut i: usize = 0;
    while i < tasks.len()
        invariant
            i <= tasks@.len(),
            task_at(tasks@, id@, 0) == task_at(tasks@, id@, i as int),
        decreases tasks@.len() - i,
    {
        if text::same(tasks[i].task_id.as_str(), id) {
            return Some(i);
        }
        i += 1;
    }
    None
}

} // verus!
