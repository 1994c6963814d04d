//! What the durable history of a plan demonstrates of the control plane. An
//! inspection: nothing is inferred from the mere presence of code, and nothing
//! is recorded.
use crate::error::{invalid, Error};
use crate::graph;
use crate::planning::model;
use crate::planning::model::{ExecutionPlanView, PlanState, SourceStateRef};
use crate::planning::plan;
use crate::planning::scope;
use crate::planning::validation;
use crate::protocol;
use crate::protocol::{
    AgentRole, TaskPacket, TaskState, VerificationDecision, VerificationPacket, VerificationTarget,
};
use crate::repository::RepositoryInfo;
use crate::runtime::context;
use crate::runtime::context::{
    ContextDecision, ContextLedger, DecisionKind, DeltaRef, Grant, RoundOutcome, RoundRecord,
};
use crate::runtime::history;
use crate::runtime::history::{
    DecisionReason, Footprint, Generation, GenerationDecision, GenerationOrigin,
    GenerationState, History, JobInput, StoredDelta,
};
use crate::runtime::record;
use crate::runtime::record::{AcceptedTask, RunRecord, RunState, RuntimeJob, RuntimeJobState};
use crate::source;
use crate::source::ArtifactRef;
use crate::store;
use crate::store::Store;
use crate::text;
use vstd::prelude::*;

verus! {

#[derive(Debug, Clone, Copy, PartialEq, Eq, Structural)]
pub enum ControlPlaneCapability {
    ExecuteAndIndependentlyVerifyBoundedTask,
    PreserveDependencyLockUntilVerification,
    KeepCandidateSeparateFromAcceptedTruth,
    RejectFailureWithoutAdvancingAcceptedTruth,
    RefuseStaleSource,
    MediateContextEscalation,
    ExposeStructuralEvidenceToIntegration,
    ResumeDurableWorkToCompletion,
    AtomicallyIntegrateAndAcceptFinalTruth,
}

#[derive(Debug, Clone, Copy, PartialEq, Eq, Structural)]
pub enum CapabilityStatus {
    Supported,
    NotDemonstrated,
    Unavailable,
}

#[derive(Debug, Clone, Copy, PartialEq, Eq, Structural)]
pub enum CapabilityEvidenceKind {
    TaskVerification,
    DependencyTransition,
    OntologyGeneration,
    FailureBoundary,
    SourceDrift,
    ContextDecision,
    VerificationInput,
    ResumeCheckpoint,
    IntegrationAcceptance,
}

/// One thing in the history that demonstrates a capability.
#[derive(Debug, PartialEq, Eq)]
pub struct CapabilityEvidence {
    pub kind: CapabilityEvidenceKind,
    pub sequence: Option<i64>,
    pub task_id: Option<String>,
    pub dependency_task_id: Option<String>,
    pub executor_job_id: Option<String>,
    pub verifier_job_id: Option<String>,
    pub generation_id: Option<String>,
    pub artifact_hash: Option<String>,
    pub detail: String,
}

/// Evidence by what it says.
pub struct EvidenceView {
    pub kind: CapabilityEvidenceKind,
    pub sequence: Option<i64>,
    pub task_id: Option<Seq<char>>,
    pub dependency_task_id: Option<Seq<char>>,
    pub executor_job_id: Option<Seq<char>>,
    pub verifier_job_id: Option<Seq<char>>,
    pub generation_id: Option<Seq<char>>,
    pub artifact_hash: Option<Seq<char>>,
    pub detail: Seq<char>,
}

/// The characters of an optional text.
pub open spec fn view_of(o: Option<String>) -> Option<Seq<char>> {
    match o {
        Some(s) => Some(s@),
        None => None,
    }
}

impl View for CapabilityEvidence {
    type V = EvidenceView;

    open spec fn view(&self) -> EvidenceView {
        EvidenceView {
            kind: self.kind,
            sequence: self.sequence,
            task_id: view_of(self.task_id),
            dependency_task_id: view_of(self.dependency_task_id),
            executor_job_id: view_of(self.executor_job_id),
            verifier_job_id: view_of(self.verifier_job_id),
            generation_id: view_of(self.generation_id),
            artifact_hash: view_of(self.artifact_hash),
            detail: self.detail@,
        }
    }
}

/// Evidence of a kind that names nothing yet.
pub open spec fn bare(kind: CapabilityEvidenceKind, detail: Seq<char>) -> EvidenceView {
    EvidenceView {
        kind,
        sequence: None,
        task_id: None,
        dependency_task_id: None,
        executor_job_id: None,
        verifier_job_id: None,
        generation_id: None,
        artifact_hash: None,
        detail,
    }
}

impl CapabilityEvidence {
    fn new(kind: CapabilityEvidenceKind, detail: &str) -> (r: Self)
        ensures
            r@ == bare(kind, detail@),
    {
        CapabilityEvidence {
            kind,
            sequence: None,
            task_id: None,
            dependency_task_id: None,
            executor_job_id: None,
            verifier_job_id: None,
            generation_id: None,
            artifact_hash: None,
            detail: detail.to_owned(),
        }
    }
}

/// What some evidence says.
pub open spec fn views(v: Seq<CapabilityEvidence>) -> Seq<EvidenceView> {
    v.map_values(|e: CapabilityEvidence| e@)
}

proof fn lemma_views_push(v: Seq<CapabilityEvidence>, e: CapabilityEvidence)
    ensures
        views(v.push(e)) == views(v).push(e@),
{
    assert(views(v.push(e)) =~= views(v).push(e@));
}

#[derive(Debug, PartialEq, Eq)]
pub struct CapabilityFinding {
    pub capability: ControlPlaneCapability,
    pub status: CapabilityStatus,
    pub evidence: Vec<CapabilityEvidence>,
    pub limitations: Vec<String>,
}

/// A finding by what it says.
pub struct FindingView {
    pub capability: ControlPlaneCapability,
    pub status: CapabilityStatus,
    pub evidence: Seq<EvidenceView>,
    pub limitations: Seq<Seq<char>>,
}

impl View for CapabilityFinding {
    type V = FindingView;

    open spec fn view(&self) -> FindingView {
        FindingView {
            capability: self.capability,
            status: self.status,
            evidence: views(self.evidence@),
            limitations: text::texts(self.limitations@),
        }
    }
}

/// A finding; only one that is not supported has a limitation.
pub open spec fn found(
    capability: ControlPlaneCapability,
    status: CapabilityStatus,
    evidence: Seq<EvidenceView>,
    limitation: Seq<char>,
) -> FindingView {
    FindingView {
        capability,
        status,
        evidence,
        limitations: if status != CapabilityStatus::Supported && limitation.len() > 0 {
            seq![limitation]
        } else {
            Seq::empty()
        },
    }
}

fn finding(
    capability: ControlPlaneCapability,
    status: CapabilityStatus,
    evidence: Vec<CapabilityEvidence>,
    limitation: &str,
) -> (r: CapabilityFinding)
    ensures
        r@ == found(capability, status, views(evidence@), limitation@),
{
    let mut limitations: Vec<String> = Vec::new();
    if status != CapabilityStatus::Supported && limitation.unicode_len() > 0 {
        limitations.push(limitation.to_owned());
    }
    proof {
        assert(text::texts(limitations@) =~= found(
            capability,
            status,
            views(evidence@),
            limitation@,
        ).limitations);
    }
    CapabilityFinding { capability, status, evidence, limitations }
}

#[derive(Debug, PartialEq, Eq)]
pub struct ControlPlaneCapabilityReport {
    pub version: String,
    pub repository_id: String,
    pub workspace_id: String,
    pub plan_id: String,
    pub plan_state: PlanState,
    pub accepted_generation_id: Option<String>,
    pub final_source: Option<SourceStateRef>,
    pub capabilities: Vec<CapabilityFinding>,
}

/// A plan of a workspace, with its history.
#[derive(Debug)]
pub struct Case<'a> {
    pub repository_id: &'a str,
    pub workspace_id: &'a str,
    pub view: &'a ExecutionPlanView,
    pub history: &'a History,
}

impl<'a> Case<'a> {
    /// The identifier of the plan.
    pub open spec fn id(self) -> Seq<char> {
        self.view.plan.packet.plan_id@
    }

    /// Whether the controller owns no history of the plan.
    pub open spec fn unrun(self) -> bool {
        self.history.run is None
    }

    fn plan(&self) -> (r: &str)
        ensures
            r@ == self.id(),
    {
        self.view.plan.packet.plan_id.as_str()
    }
}

/// Shown, or else what is missing.
pub open spec fn shown_or(shown: bool, unavailable: bool) -> CapabilityStatus {
    if shown {
        CapabilityStatus::Supported
    } else if unavailable {
        CapabilityStatus::Unavailable
    } else {
        CapabilityStatus::NotDemonstrated
    }
}

fn status_of(shown: bool, unavailable: bool) -> (r: CapabilityStatus)
    ensures
        r == shown_or(shown, unavailable),
{
    if shown {
        CapabilityStatus::Supported
    } else if unavailable {
        CapabilityStatus::Unavailable
    } else {
        CapabilityStatus::NotDemonstrated
    }
}

// ---------------------------------------------------------------------------
// Jobs and what they were issued
// ---------------------------------------------------------------------------

/// The characters of an optional borrowed text.
pub open spec fn borrowed(o: Option<&str>) -> Option<Seq<char>> {
    match o {
        Some(s) => Some(s@),
        None => None,
    }
}

fn is_task(o: &Option<String>, task: Option<&str>) -> (r: bool)
    ensures
        r == (view_of(*o) == borrowed(task)),
{
    match (o, task) {
        (Some(a), Some(b)) => text::same(a.as_str(), b),
        (None, None) => true,
        _ => false,
    }
}

/// Whether a job is the plan's own, in its workspace, for a task.
pub open spec fn own_job(c: Case<'_>, job: RuntimeJob, role: AgentRole, task: Option<Seq<char>>) -> bool {
    &&& job.role == role
    &&& job.state == RuntimeJobState::Succeeded
    &&& validation::is_text(job.plan_id, c.id())
    &&& view_of(job.task_id) == task
    &&& job.workspace_id@ == c.workspace_id@
}

fn is_own_job(c: &Case<'_>, job: &RuntimeJob, role: AgentRole, task: Option<&str>) -> (r: bool)
    ensures
        r == own_job(*c, *job, role, borrowed(task)),
{
    job.role == role && job.state == RuntimeJobState::Succeeded && validation::holds_text(
        &job.plan_id,
        c.plan(),
    ) && is_task(&job.task_id, task) && text::same(job.workspace_id.as_str(), c.workspace_id)
}

/// Whether an input was issued to a job of the plan, for a task.
pub open spec fn issued_to(
    c: Case<'_>,
    input: JobInput,
    job: RuntimeJob,
    role: AgentRole,
    task: Option<Seq<char>>,
) -> bool {
    &&& input.repository_id@ == c.repository_id@
    &&& input.workspace_id@ == c.workspace_id@
    &&& validation::is_text(input.plan_id, c.id())
    &&& view_of(input.task_id) == task
    &&& input.job_id@ == job.job_id@
    &&& input.role == role
}

fn is_issued_to(c: &Case<'_>, input: &JobInput, job: &RuntimeJob, role: AgentRole, task: Option<&str>) -> (r:
    bool)
    ensures
        r == issued_to(*c, *input, *job, role, borrowed(task)),
{
    text::same(input.repository_id.as_str(), c.repository_id) && text::same(
        input.workspace_id.as_str(),
        c.workspace_id,
    ) && validation::holds_text(&input.plan_id, c.plan()) && is_task(&input.task_id, task)
        && text::same(input.job_id.as_str(), job.job_id.as_str()) && input.role == role
}

/// Whether a job is the verifier behind a proof: it succeeded for this plan and
/// task, reported that very decision, was issued that very target and put out
/// that very proof.
pub open spec fn bound_verifier(
    c: Case<'_>,
    task: Option<Seq<char>>,
    job: RuntimeJob,
    proof: VerificationPacket,
) -> bool {
    &&& own_job(c, job, AgentRole::Verifier, task)
    &&& job.reported_verification == Some(proof.decision)
    &&& job.context_request is None
    &&& proof.verifier_job_id@ == job.job_id@
    &&& match history::document(c.history.documents.inputs@, job.input, 0) {
        Some(input) => issued_to(c, input, job, AgentRole::Verifier, task) && match input.target {
            Some(target) => protocol::same_target(target, proof.target),
            None => false,
        },
        None => false,
    }
    &&& match job.output {
        Some(output) => match history::document(c.history.documents.proofs@, output, 0) {
            Some(stored) => protocol::same_verification(stored, proof),
            None => false,
        },
        None => false,
    }
}

fn bound_verifier_job(
    c: &Case<'_>,
    task: Option<&str>,
    job: &RuntimeJob,
    proof: &VerificationPacket,
) -> (r: bool)
    ensures
        r == bound_verifier(*c, borrowed(task), *job, *proof),
{
    let reported: bool = match job.reported_verification {
        Some(decision) => decision == proof.decision,
        None => false,
    };
    if !(is_own_job(c, job, AgentRole::Verifier, task) && reported && job.context_request.is_none()
        && text::same(proof.verifier_job_id.as_str(), job.job_id.as_str())) {
        return false;
    }
    let issued: bool = match history::read(&c.history.documents.inputs, &job.input) {
        Some(input) => is_issued_to(c, input, job, AgentRole::Verifier, task) && match &input.target {
            Some(target) => target.same(&proof.target),
            None => false,
        },
        None => false,
    };
    if !issued {
        return false;
    }
    match &job.output {
        Some(output) => match history::read(&c.history.documents.proofs, output) {
            Some(stored) => stored.same(proof),
            None => false,
        },
        None => false,
    }
}

/// Whether a job was issued exactly the source that a document captured.
pub open spec fn issued_source(c: Case<'_>, job: RuntimeJob, captured: ArtifactRef) -> bool {
    match (
        history::document(c.history.documents.sources@, captured, 0),
        history::document(c.history.documents.inputs@, job.input, 0),
    ) {
        (Some(snapshot), Some(input)) => match snapshot.source {
            Some(s) => model::same_source_ref(input.source, s),
            None => false,
        },
        _ => false,
    }
}

fn is_issued_source(c: &Case<'_>, job: &RuntimeJob, captured: &ArtifactRef) -> (r: bool)
    ensures
        r == issued_source(*c, *job, *captured),
{
    match (
        history::read(&c.history.documents.sources, captured),
        history::read(&c.history.documents.inputs, &job.input),
    ) {
        (Some(snapshot), Some(input)) => match &snapshot.source {
            Some(s) => input.source.same(s),
            None => false,
        },
        _ => false,
    }
}

// ---------------------------------------------------------------------------
// Independently verified tasks
// ---------------------------------------------------------------------------

/// Whether a task of the plan reads or writes anything that bounds it.
pub open spec fn bounded(c: Case<'_>, task: Seq<char>) -> bool {
    match protocol::task_at(c.view.plan.packet.tasks@, task, 0) {
        Some(k) => c.view.plan.packet.tasks@[k].read_scope@.len() != 0
            || c.view.plan.packet.tasks@[k].write_scope@.len() != 0,
        None => false,
    }
}

/// Whether the run accepted a task on the word of these two jobs, and the source
/// that its captured changes lead to is the one that was verified.
pub open spec fn accepted_of(
    c: Case<'_>,
    task: Seq<char>,
    executor: Seq<char>,
    verifier: RuntimeJob,
) -> bool {
    match c.history.run {
        Some(run) => match record::accepted_at(run.accepted@, task, 0) {
            Some(k) => {
                &&& run.accepted@[k].executor@ == executor
                &&& run.accepted@[k].verifier@ == verifier.job_id@
                &&& match history::document(c.history.documents.changes@, run.accepted@[k].diff, 0) {
                    Some(diff) => {
                        &&& diff.plan_id@ == c.id()
                        &&& validation::is_text(diff.task_id, task)
                        &&& validation::is_text(diff.executor_job_id, executor)
                        &&& issued_source(c, verifier, diff.after)
                    },
                    None => false,
                }
            },
            None => false,
        },
        None => false,
    }
}

fn is_accepted_of(c: &Case<'_>, task: &str, executor: &str, verifier: &RuntimeJob) -> (r: bool)
    ensures
        r == accepted_of(*c, task@, executor@, *verifier),
{
    match &c.history.run {
        Some(run) => match record::find_accepted(&run.accepted, task) {
            Some(k) => {
                if !(text::same(run.accepted[k].executor.as_str(), executor) && text::same(
                    run.accepted[k].verifier.as_str(),
                    verifier.job_id.as_str(),
                )) {
                    return false;
                }
                match history::read(&c.history.documents.changes, &run.accepted[k].diff) {
                    Some(diff) => text::same(diff.plan_id.as_str(), c.plan()) && validation::holds_text(
                        &diff.task_id,
                        task,
                    ) && validation::holds_text(&diff.executor_job_id, executor) && is_issued_source(
                        c,
                        verifier,
                        &diff.after,
                    ),
                    None => false,
                }
            },
            None => false,
        },
        None => false,
    }
}

/// Whether a proof shows a task verified by another job than the one that did
/// it.
pub open spec fn verifies(
    c: Case<'_>,
    proof: VerificationPacket,
    task: Seq<char>,
    executor: RuntimeJob,
    verifier: RuntimeJob,
) -> bool {
    &&& bounded(c, task)
    &&& proof.decision == VerificationDecision::Pass
    &&& own_job(c, executor, AgentRole::Executor, Some(task))
    &&& executor.job_id@ != verifier.job_id@
    &&& bound_verifier(c, Some(task), verifier, proof)
    &&& accepted_of(c, task, executor.job_id@, verifier)
}

fn is_verified(
    c: &Case<'_>,
    proof: &VerificationPacket,
    task: &str,
    executor: &RuntimeJob,
    verifier: &RuntimeJob,
) -> (r: bool)
    ensures
        r == verifies(*c, *proof, task@, *executor, *verifier),
{
    let tasks: &Vec<TaskPacket> = &c.view.plan.packet.tasks;
    let limited: bool = match protocol::find_task(tasks, task) {
        Some(k) => tasks[k].read_scope.len() != 0 || tasks[k].write_scope.len() != 0,
        None => false,
    };
    limited && proof.decision == VerificationDecision::Pass && is_own_job(
        c,
        executor,
        AgentRole::Executor,
        Some(task),
    ) && !text::same(executor.job_id.as_str(), verifier.job_id.as_str()) && bound_verifier_job(
        c,
        Some(task),
        verifier,
        proof,
    ) && is_accepted_of(c, task, executor.job_id.as_str(), verifier)
}

pub const VERIFIED_DETAIL: &'static str =
    "bounded task reached VERIFIED through distinct successful executor and verifier jobs";

/// What the `i`-th transition shows of an independently verified task.
pub open spec fn verified_evidence(c: Case<'_>, i: int) -> Option<EvidenceView> {
    let t = c.history.transitions@[i];
    match (t.to, t.proof) {
        (TaskState::Verified, Some(proof)) => match proof.target {
            VerificationTarget::Packet { task_id, executor_job_id } => match (
                record::job_at(c.history.jobs@, executor_job_id@, 0),
                record::job_at(c.history.jobs@, proof.verifier_job_id@, 0),
            ) {
                (Some(e), Some(v)) => if t.task@ == task_id@ && verifies(
                    c,
                    proof,
                    task_id@,
                    c.history.jobs@[e],
                    c.history.jobs@[v],
                ) {
                    Some(
                        EvidenceView {
                            sequence: Some(t.sequence),
                            task_id: Some(task_id@),
                            executor_job_id: Some(executor_job_id@),
                            verifier_job_id: Some(proof.verifier_job_id@),
                            ..bare(CapabilityEvidenceKind::TaskVerification, VERIFIED_DETAIL@)
                        },
                    )
                } else {
                    None
                },
                _ => None,
            },
            _ => None,
        },
        _ => None,
    }
}

/// What the transitions from the `i`-th on show of independently verified tasks.
pub open spec fn verified_from(c: Case<'_>, i: int) -> Seq<EvidenceView>
    decreases c.history.transitions@.len() - i,
{
    if i < 0 || i >= c.history.transitions@.len() {
        Seq::empty()
    } else {
        match verified_evidence(c, i) {
            Some(e) => seq![e] + verified_from(c, i + 1),
            None => verified_from(c, i + 1),
        }
    }
}

fn verified_at(c: &Case<'_>, i: usize) -> (r: Option<CapabilityEvidence>)
    requires
        i < c.history.transitions@.len(),
    ensures
        match r {
            Some(e) => verified_evidence(*c, i as int) == Some(e@),
            None => verified_evidence(*c, i as int) is None,
        },
{
    let t = &c.history.transitions[i];
    if t.to != TaskState::Verified {
        return None;
    }
    match &t.proof {
        Some(proof) => match &proof.target {
            VerificationTarget::Packet { task_id, executor_job_id } => match (
                record::find_job(&c.history.jobs, executor_job_id.as_str()),
                record::find_job(&c.history.jobs, proof.verifier_job_id.as_str()),
            ) {
                (Some(e), Some(v)) => {
                    if text::same(t.task.as_str(), task_id.as_str()) && is_verified(
                        c,
                        proof,
                        task_id.as_str(),
                        &c.history.jobs[e],
                        &c.history.jobs[v],
                    ) {
                        let mut evidence: CapabilityEvidence = CapabilityEvidence::new(
                            CapabilityEvidenceKind::TaskVerification,
                            VERIFIED_DETAIL,
                        );
                        evidence.sequence = Some(t.sequence);
                        evidence.task_id = Some(task_id.clone());
                        evidence.executor_job_id = Some(executor_job_id.clone());
                        evidence.verifier_job_id = Some(proof.verifier_job_id.clone());
                        Some(evidence)
                    } else {
                        None
                    }
                },
                _ => None,
            },
            _ => None,
        },
        None => None,
    }
}

fn verified(c: &Case<'_>) -> (r: Vec<CapabilityEvidence>)
    ensures
        views(r@) == verified_from(*c, 0),
{
    let mut out: Vec<CapabilityEvidence> = Vec::new();
    let mut i: usize = 0;
    while i < c.history.transitions.len()
        invariant
            i <= c.history.transitions@.len(),
            views(out@) + verified_from(*c, i as int) == verified_from(*c, 0),
        decreases c.history.transitions@.len() - i,
    {
        let ghost so_far = views(out@);
        match verified_at(c, i) {
            Some(e) => {
                proof {
                    lemma_views_push(out@, e);
                    assert(so_far.push(e@) + verified_from(*c, i + 1) =~= so_far + (seq![e@]
                        + verified_from(*c, i + 1)));
                }
                out.push(e);
            },
            None => {},
        }
        i += 1;
    }
    assert(views(out@) + verified_from(*c, i as int) =~= views(out@));
    out
}

/// Whether bounded tasks were executed and independently verified.
pub open spec fn verified_finding(c: Case<'_>) -> FindingView {
    found(
        ControlPlaneCapability::ExecuteAndIndependentlyVerifyBoundedTask,
        shown_or(verified_from(c, 0).len() > 0, c.unrun()),
        verified_from(c, 0),
        if c.unrun() {
            "this plan has no controller-owned runtime history"@
        } else {
            "no task has a complete canonical executor/verifier proof"@
        },
    )
}

fn find_verified(c: &Case<'_>) -> (r: CapabilityFinding)
    ensures
        r@ == verified_finding(*c),
{
    let evidence: Vec<CapabilityEvidence> = verified(c);
    let unrun: bool = c.history.run.is_none();
    assert(views(evidence@).len() == evidence@.len());
    finding(
        ControlPlaneCapability::ExecuteAndIndependentlyVerifyBoundedTask,
        status_of(evidence.len() > 0, unrun),
        evidence,
        if unrun {
            "this plan has no controller-owned runtime history"
        } else {
            "no task has a complete canonical executor/verifier proof"
        },
    )
}

// ---------------------------------------------------------------------------
// Dependency locks
// ---------------------------------------------------------------------------

/// When evidence shows a task verified, from the `i`-th on.
pub open spec fn verified_time(verified: Seq<EvidenceView>, task: Seq<char>, i: int) -> Option<i64>
    decreases verified.len() - i,
{
    if i < 0 || i >= verified.len() {
        None
    } else if verified[i].task_id == Some(task) {
        verified[i].sequence
    } else {
        verified_time(verified, task, i + 1)
    }
}

fn find_verified_time(verified: &Vec<CapabilityEvidence>, task: &str) -> (r: Option<i64>)
    ensures
        r == verified_time(views(verified@), task@, 0),
{
    let mut i: usize = 0;
    while i < verified.len()
        invariant
            i <= verified@.len(),
            verified_time(views(verified@), task@, 0) == verified_time(
                views(verified@),
                task@,
                i as int,
            ),
        decreases verified@.len() - i,
    {
        assert(views(verified@)[i as int] == verified@[i as int]@);
        if validation::holds_text(&verified[i].task_id, task) {
            return verified[i].sequence;
        }
        i += 1;
    }
    None
}

/// When a task first became ready, from the `i`-th transition on.
pub open spec fn ready_time(c: Case<'_>, task: Seq<char>, i: int) -> Option<i64>
    decreases c.history.transitions@.len() - i,
{
    if i < 0 || i >= c.history.transitions@.len() {
        None
    } else if c.history.transitions@[i].task@ == task && c.history.transitions@[i].to
        == TaskState::Ready {
        Some(c.history.transitions@[i].sequence)
    } else {
        ready_time(c, task, i + 1)
    }
}

fn find_ready_time(c: &Case<'_>, task: &str) -> (r: Option<i64>)
    ensures
        r == ready_time(*c, task@, 0),
{
    let mut i: usize = 0;
    while i < c.history.transitions.len()
        invariant
            i <= c.history.transitions@.len(),
            ready_time(*c, task@, 0) == ready_time(*c, task@, i as int),
        decreases c.history.transitions@.len() - i,
    {
        let t = &c.history.transitions[i];
        if text::same(t.task.as_str(), task) && t.to == TaskState::Ready {
            return Some(t.sequence);
        }
        i += 1;
    }
    None
}

pub const UNLOCKED_DETAIL: &'static str =
    "dependent task first became READY only after its dependency was VERIFIED";

/// What shows that one dependency of a task was verified before the task became
/// ready.
pub open spec fn unlock(c: Case<'_>, task: Seq<char>, dependency: Seq<char>) -> Option<EvidenceView> {
    match (verified_time(verified_from(c, 0), dependency, 0), ready_time(c, task, 0)) {
        (Some(verified_at), Some(ready_at)) => if verified_at < ready_at {
            Some(
                EvidenceView {
                    sequence: Some(ready_at),
                    task_id: Some(task),
                    dependency_task_id: Some(dependency),
                    ..bare(CapabilityEvidenceKind::DependencyTransition, UNLOCKED_DETAIL@)
                },
            )
        } else {
            None
        },
        _ => None,
    }
}

/// What shows of the dependencies of a task, from the `d`-th on.
pub open spec fn unlocks_of(c: Case<'_>, task: TaskPacket, d: int) -> Seq<EvidenceView>
    decreases task.dependencies@.len() - d,
{
    if d < 0 || d >= task.dependencies@.len() {
        Seq::empty()
    } else {
        match unlock(c, task.task_id@, task.dependencies@[d]@) {
            Some(e) => seq![e] + unlocks_of(c, task, d + 1),
            None => unlocks_of(c, task, d + 1),
        }
    }
}

/// What shows of the dependencies of the tasks from the `t`-th on.
pub open spec fn unlocks_from(c: Case<'_>, t: int) -> Seq<EvidenceView>
    decreases c.view.plan.packet.tasks@.len() - t,
{
    if t < 0 || t >= c.view.plan.packet.tasks@.len() {
        Seq::empty()
    } else {
        unlocks_of(c, c.view.plan.packet.tasks@[t], 0) + unlocks_from(c, t + 1)
    }
}

/// Whether every dependency of a task was verified before it became ready.
pub open spec fn unlocked(c: Case<'_>, task: TaskPacket) -> bool {
    forall|d: int|
        0 <= d < task.dependencies@.len() ==> unlock(
            c,
            task.task_id@,
            (#[trigger] task.dependencies@[d])@,
        ) is Some
}

/// Whether the plan has a dependency at all.
pub open spec fn has_dependency(c: Case<'_>) -> bool {
    exists|t: int|
        0 <= t < c.view.plan.packet.tasks@.len() && (
        #[trigger] c.view.plan.packet.tasks@[t]).dependencies@.len() > 0
}

/// Whether every dependency of every task was verified before the task became
/// ready.
pub open spec fn all_unlocked(c: Case<'_>) -> bool {
    forall|t: int|
        0 <= t < c.view.plan.packet.tasks@.len() ==> unlocked(
            c,
            #[trigger] c.view.plan.packet.tasks@[t],
        )
}

fn unlock_task(
    c: &Case<'_>,
    verified: &Vec<CapabilityEvidence>,
    task: &TaskPacket,
    out: &mut Vec<CapabilityEvidence>,
) -> (r: bool)
    requires
        views(verified@) == verified_from(*c, 0),
    ensures
        r == unlocked(*c, *task),
        views(final(out)@) == views(old(out)@) + unlocks_of(*c, *task, 0),
{
    let mut all: bool = true;
    let mut d: usize = 0;
    while d < task.dependencies.len()
        invariant
            d <= task.dependencies@.len(),
            views(verified@) == verified_from(*c, 0),
            views(out@) + unlocks_of(*c, *task, d as int) == views(old(out)@) + unlocks_of(
                *c,
                *task,
                0,
            ),
            all == (forall|k: int|
                0 <= k < d ==> unlock(
                    *c,
                    task.task_id@,
                    (#[trigger] task.dependencies@[k])@,
                ) is Some),
        decreases task.dependencies@.len() - d,
    {
        let dependency: &String = &task.dependencies[d];
        let ghost so_far = views(out@);
        let ghost rest = unlocks_of(*c, *task, d + 1);
        let times: (Option<i64>, Option<i64>) = (
            find_verified_time(verified, dependency.as_str()),
            find_ready_time(c, task.task_id.as_str()),
        );
        let mut shown: bool = false;
        if let (Some(verified_at), Some(ready_at)) = times {
            if verified_at < ready_at {
                let mut evidence: CapabilityEvidence = CapabilityEvidence::new(
                    CapabilityEvidenceKind::DependencyTransition,
                    UNLOCKED_DETAIL,
                );
                evidence.sequence = Some(ready_at);
                evidence.task_id = Some(task.task_id.clone());
                evidence.dependency_task_id = Some(dependency.clone());
                proof {
                    lemma_views_push(out@, evidence);
                    assert(so_far.push(evidence@) + rest =~= so_far + (seq![evidence@] + rest));
                }
                out.push(evidence);
                shown = true;
            }
        }
        assert(shown == (unlock(*c, task.task_id@, task.dependencies@[d as int]@) is Some));
        all = all && shown;
        d += 1;
    }
    assert(views(out@) + unlocks_of(*c, *task, d as int) =~= views(out@));
    all
}

/// Whether every dependent task stayed locked until its dependencies were
/// verified.
pub open spec fn dependency_finding(c: Case<'_>) -> FindingView {
    found(
        ControlPlaneCapability::PreserveDependencyLockUntilVerification,
        shown_or(has_dependency(c) && all_unlocked(c), !has_dependency(c)),
        unlocks_from(c, 0),
        if !has_dependency(c) {
            "the plan contains no dependency edge"@
        } else {
            "not every dependency edge has a completed VERIFIED-before-READY transition"@
        },
    )
}

fn find_dependency(c: &Case<'_>, verified: &Vec<CapabilityEvidence>) -> (r: CapabilityFinding)
    requires
        views(verified@) == verified_from(*c, 0),
    ensures
        r@ == dependency_finding(*c),
{
    let tasks: &Vec<TaskPacket> = &c.view.plan.packet.tasks;
    let mut out: Vec<CapabilityEvidence> = Vec::new();
    let mut any: bool = false;
    let mut all: bool = true;
    let mut t: usize = 0;
    while t < tasks.len()
        invariant
            *tasks == c.view.plan.packet.tasks,
            t <= tasks@.len(),
            views(verified@) == verified_from(*c, 0),
            views(out@) + unlocks_from(*c, t as int) == unlocks_from(*c, 0),
            any == (exists|k: int| 0 <= k < t && (#[trigger] tasks@[k]).dependencies@.len() > 0),
            all == (forall|k: int| 0 <= k < t ==> unlocked(*c, #[trigger] tasks@[k])),
        decreases tasks@.len() - t,
    {
        let ghost so_far = views(out@);
        let shown: bool = unlock_task(c, verified, &tasks[t], &mut out);
        proof {
            let one = unlocks_of(*c, tasks@[t as int], 0);
            let rest = unlocks_from(*c, t + 1);
            assert((so_far + one) + rest =~= so_far + (one + rest));
        }
        all = all && shown;
        any = any || tasks[t].dependencies.len() > 0;
        t += 1;
    }
    assert(views(out@) + unlocks_from(*c, t as int) =~= views(out@));
    assert(any == has_dependency(*c));
    finding(
        ControlPlaneCapability::PreserveDependencyLockUntilVerification,
        status_of(any && all, !any),
        out,
        if !any {
            "the plan contains no dependency edge"
        } else {
            "not every dependency edge has a completed VERIFIED-before-READY transition"
        },
    )
}

// ---------------------------------------------------------------------------
// Candidates and accepted truth
// ---------------------------------------------------------------------------

/// Whether a decision names the plan.
pub open spec fn decided_by(d: Option<GenerationDecision>, id: Seq<char>) -> bool {
    match d {
        Some(d) => validation::is_text(d.plan_id, id),
        None => false,
    }
}

fn is_decided_by(d: &Option<GenerationDecision>, id: &str) -> (r: bool)
    ensures
        r == decided_by(*d, id@),
{
    match d {
        Some(d) => validation::holds_text(&d.plan_id, id),
        None => false,
    }
}

/// Whether a decision by the plan has a reason.
pub open spec fn decided_for(
    d: Option<GenerationDecision>,
    id: Seq<char>,
    reason: DecisionReason,
) -> bool {
    decided_by(d, id) && d->0.reason == reason
}

fn is_decided_for(d: &Option<GenerationDecision>, id: &str, reason: DecisionReason) -> (r: bool)
    ensures
        r == decided_for(*d, id@, reason),
{
    is_decided_by(d, id) && match d {
        Some(d) => d.reason == reason,
        None => false,
    }
}

/// Whether a generation observed work of the plan.
pub open spec fn observed(g: Generation, id: Seq<char>) -> bool {
    match g.origin {
        GenerationOrigin::Runtime { plan_id, .. } => plan_id@ == id,
        GenerationOrigin::External => false,
    }
}

fn is_observed(g: &Generation, id: &str) -> (r: bool)
    ensures
        r == observed(*g, id@),
{
    match &g.origin {
        GenerationOrigin::Runtime { plan_id, .. } => text::same(plan_id.as_str(), id),
        GenerationOrigin::External => false,
    }
}

/// Whether a generation is of the plan: observed from it, or decided by it.
pub open spec fn owned(c: Case<'_>, g: Generation) -> bool {
    observed(g, c.id()) || decided_by(g.acceptance, c.id()) || decided_by(g.closure, c.id())
}

fn is_owned(c: &Case<'_>, g: &Generation) -> (r: bool)
    ensures
        r == owned(*c, *g),
{
    is_observed(g, c.plan()) || is_decided_by(&g.acceptance, c.plan()) || is_decided_by(
        &g.closure,
        c.plan(),
    )
}

/// Whether the plan accepted a generation on the word of its integration.
pub open spec fn promoted(c: Case<'_>, g: Generation) -> bool {
    decided_for(g.acceptance, c.id(), DecisionReason::IntegrationVerified)
}

/// Whether a generation was accepted, if ever, by the integration of the plan
/// whose work it observed.
pub open spec fn safely_decided(c: Case<'_>, g: Generation) -> bool {
    g.acceptance is None || promoted(c, g) && observed(g, c.id())
}

/// What a generation of the plan shows of the separation of candidates.
pub open spec fn candidate_evidence(g: Generation) -> EvidenceView {
    EvidenceView {
        task_id: match g.origin {
            GenerationOrigin::Runtime { task_id, .. } => view_of(task_id),
            GenerationOrigin::External => None,
        },
        generation_id: Some(g.generation_id@),
        ..bare(
            CapabilityEvidenceKind::OntologyGeneration,
            "runtime observation ended "@ + history::generation_state_name(g.state)
                + "; acceptance, if any, was integration-authorized"@,
        )
    }
}

/// What the generations from the `i`-th on show of the separation of candidates.
pub open spec fn candidates_from(c: Case<'_>, i: int) -> Seq<EvidenceView>
    decreases c.history.generations@.len() - i,
{
    if i < 0 || i >= c.history.generations@.len() {
        Seq::empty()
    } else if owned(c, c.history.generations@[i]) && safely_decided(c, c.history.generations@[i]) {
        seq![candidate_evidence(c.history.generations@[i])] + candidates_from(c, i + 1)
    } else {
        candidates_from(c, i + 1)
    }
}

/// Whether every generation of the plan was safely decided.
pub open spec fn all_safe(c: Case<'_>) -> bool {
    forall|i: int|
        0 <= i < c.history.generations@.len() && owned(c, #[trigger] c.history.generations@[i])
            ==> safely_decided(c, c.history.generations@[i])
}

/// Whether candidates stayed separate from accepted truth.
pub open spec fn candidate_finding(c: Case<'_>) -> FindingView {
    found(
        ControlPlaneCapability::KeepCandidateSeparateFromAcceptedTruth,
        shown_or(candidates_from(c, 0).len() > 0 && all_safe(c), c.unrun()),
        candidates_from(c, 0),
        "no plan-owned ontology candidate lifecycle is evidenced"@,
    )
}

fn find_candidate(c: &Case<'_>) -> (r: CapabilityFinding)
    ensures
        r@ == candidate_finding(*c),
{
    let list: &Vec<Generation> = &c.history.generations;
    let mut out: Vec<CapabilityEvidence> = Vec::new();
    let mut safe: bool = true;
    let mut i: usize = 0;
    while i < list.len()
        invariant
            *list == c.history.generations,
            i <= list@.len(),
            views(out@) + candidates_from(*c, i as int) == candidates_from(*c, 0),
            safe == (forall|k: int|
                0 <= k < i && owned(*c, #[trigger] list@[k]) ==> safely_decided(*c, list@[k])),
        decreases list@.len() - i,
    {
        let g: &Generation = &list[i];
        let ghost so_far = views(out@);
        let ghost rest = candidates_from(*c, i + 1);
        if is_owned(c, g) {
            if g.acceptance.is_none() || is_decided_for(
                &g.acceptance,
                c.plan(),
                DecisionReason::IntegrationVerified,
            ) && is_observed(g, c.plan()) {
                let detail: String = text::join3(
                    "runtime observation ended ",
                    g.state.name(),
                    "; acceptance, if any, was integration-authorized",
                );
                let mut evidence: CapabilityEvidence = CapabilityEvidence::new(
                    CapabilityEvidenceKind::OntologyGeneration,
                    detail.as_str(),
                );
                evidence.task_id = match &g.origin {
                    GenerationOrigin::Runtime { task_id, .. } => task_id.clone(),
                    GenerationOrigin::External => None,
                };
                evidence.generation_id = Some(g.generation_id.clone());
                proof {
                    assert(evidence@ == candidate_evidence(*g));
                    lemma_views_push(out@, evidence);
                    assert(so_far.push(evidence@) + rest =~= so_far + (seq![evidence@] + rest));
                }
                out.push(evidence);
            } else {
                assert(!safely_decided(*c, list@[i as int]));
                safe = false;
            }
        }
        i += 1;
    }
    assert(views(out@) + candidates_from(*c, i as int) =~= views(out@));
    assert(views(out@).len() == out@.len());
    finding(
        ControlPlaneCapability::KeepCandidateSeparateFromAcceptedTruth,
        status_of(out.len() > 0 && safe, c.history.run.is_none()),
        out,
        "no plan-owned ontology candidate lifecycle is evidenced",
    )
}

// ---------------------------------------------------------------------------
// Contained failures
// ---------------------------------------------------------------------------

/// Whether the plan ever accepted a generation. Acceptance is historical: what
/// retires a generation later does not undo it.
pub open spec fn accepted_by_plan(c: Case<'_>) -> bool {
    exists|i: int|
        0 <= i < c.history.generations@.len() && promoted(c, #[trigger] c.history.generations@[i])
}

fn is_accepted_by_plan(c: &Case<'_>) -> (r: bool)
    ensures
        r == accepted_by_plan(*c),
{
    let list: &Vec<Generation> = &c.history.generations;
    let mut i: usize = 0;
    while i < list.len()
        invariant
            *list == c.history.generations,
            i <= list@.len(),
            forall|k: int| 0 <= k < i ==> !promoted(*c, #[trigger] list@[k]),
        decreases list@.len() - i,
    {
        if is_decided_for(&list[i].acceptance, c.plan(), DecisionReason::IntegrationVerified) {
            assert(promoted(*c, list@[i as int]));
            return true;
        }
        i += 1;
    }
    false
}

/// The first rejection of a task, from the `i`-th transition on.
pub open spec fn rejection(c: Case<'_>, i: int) -> Option<int>
    decreases c.history.transitions@.len() - i,
{
    if i < 0 || i >= c.history.transitions@.len() {
        None
    } else if c.history.transitions@[i].to == TaskState::Rejected {
        Some(i)
    } else {
        rejection(c, i + 1)
    }
}

fn find_rejection(c: &Case<'_>) -> (r: Option<usize>)
    ensures
        match r {
            Some(i) => i < c.history.transitions@.len() && rejection(*c, 0) == Some(i as int),
            None => rejection(*c, 0) is None,
        },
{
    let mut i: usize = 0;
    while i < c.history.transitions.len()
        invariant
            i <= c.history.transitions@.len(),
            rejection(*c, 0) == rejection(*c, i as int),
        decreases c.history.transitions@.len() - i,
    {
        if c.history.transitions[i].to == TaskState::Rejected {
            return Some(i);
        }
        i += 1;
    }
    None
}

/// Whether a decision has a reason, whoever made it.
pub open spec fn has_reason(d: Option<GenerationDecision>, reason: DecisionReason) -> bool {
    match d {
        Some(d) => d.reason == reason,
        None => false,
    }
}

/// The first generation of the plan that an integration rejected, from the
/// `i`-th on.
pub open spec fn refusal(c: Case<'_>, i: int) -> Option<int>
    decreases c.history.generations@.len() - i,
{
    if i < 0 || i >= c.history.generations@.len() {
        None
    } else if owned(c, c.history.generations@[i]) && has_reason(
        c.history.generations@[i].closure,
        DecisionReason::IntegrationRejected,
    ) {
        Some(i)
    } else {
        refusal(c, i + 1)
    }
}

fn find_refusal(c: &Case<'_>) -> (r: Option<usize>)
    ensures
        match r {
            Some(i) => i < c.history.generations@.len() && refusal(*c, 0) == Some(i as int),
            None => refusal(*c, 0) is None,
        },
{
    let mut i: usize = 0;
    while i < c.history.generations.len()
        invariant
            i <= c.history.generations@.len(),
            refusal(*c, 0) == refusal(*c, i as int),
        decreases c.history.generations@.len() - i,
    {
        let g: &Generation = &c.history.generations[i];
        let rejected: bool = match &g.closure {
            Some(d) => d.reason == DecisionReason::IntegrationRejected,
            None => false,
        };
        if rejected && is_owned(c, g) {
            return Some(i);
        }
        i += 1;
    }
    None
}

/// The first executor that failed or was interrupted, from the `i`-th job on.
pub open spec fn failed_executor(c: Case<'_>, i: int) -> Option<int>
    decreases c.history.jobs@.len() - i,
{
    if i < 0 || i >= c.history.jobs@.len() {
        None
    } else if c.history.jobs@[i].role == AgentRole::Executor && (c.history.jobs@[i].state
        == RuntimeJobState::Failed || c.history.jobs@[i].state == RuntimeJobState::Interrupted) {
        Some(i)
    } else {
        failed_executor(c, i + 1)
    }
}

fn find_failed_executor(c: &Case<'_>) -> (r: Option<usize>)
    ensures
        match r {
            Some(i) => i < c.history.jobs@.len() && failed_executor(*c, 0) == Some(i as int),
            None => failed_executor(*c, 0) is None,
        },
{
    let mut i: usize = 0;
    while i < c.history.jobs.len()
        invariant
            i <= c.history.jobs@.len(),
            failed_executor(*c, 0) == failed_executor(*c, i as int),
        decreases c.history.jobs@.len() - i,
    {
        let job: &RuntimeJob = &c.history.jobs[i];
        if job.role == AgentRole::Executor && (job.state == RuntimeJobState::Failed || job.state
            == RuntimeJobState::Interrupted) {
            return Some(i);
        }
        i += 1;
    }
    None
}

/// The first phase of a name, from the `i`-th on.
pub open spec fn phase_at(c: Case<'_>, name: Seq<char>, i: int) -> Option<int>
    decreases c.history.phases@.len() - i,
{
    if i < 0 || i >= c.history.phases@.len() {
        None
    } else if c.history.phases@[i].phase@ == name {
        Some(i)
    } else {
        phase_at(c, name, i + 1)
    }
}

fn find_phase(c: &Case<'_>, name: &str) -> (r: Option<usize>)
    ensures
        match r {
            Some(i) => i < c.history.phases@.len() && phase_at(*c, name@, 0) == Some(i as int),
            None => phase_at(*c, name@, 0) is None,
        },
{
    let mut i: usize = 0;
    while i < c.history.phases.len()
        invariant
            i <= c.history.phases@.len(),
            phase_at(*c, name@, 0) == phase_at(*c, name@, i as int),
        decreases c.history.phases@.len() - i,
    {
        if text::same(c.history.phases[i].phase.as_str(), name) {
            return Some(i);
        }
        i += 1;
    }
    None
}

/// Whether the run of the plan stands blocked.
pub open spec fn blocked(c: Case<'_>) -> bool {
    match c.history.run {
        Some(run) => run.plan_id@ == c.id() && run.workspace_id@ == c.workspace_id@ && run.state
            == RunState::Blocked,
        None => false,
    }
}

fn is_blocked(c: &Case<'_>) -> (r: bool)
    ensures
        r == blocked(*c),
{
    match &c.history.run {
        Some(run) => text::same(run.plan_id.as_str(), c.plan()) && text::same(
            run.workspace_id.as_str(),
            c.workspace_id,
        ) && run.state == RunState::Blocked,
        None => false,
    }
}

/// Whether the result that a proof rejected is the one that the run holds.
pub open spec fn pending_of(
    c: Case<'_>,
    proof: VerificationPacket,
    task: Seq<char>,
    executor: Seq<char>,
    verifier: RuntimeJob,
) -> bool {
    match c.history.run {
        Some(run) => match run.pending {
            Some(pending) => {
                &&& pending.task_id@ == task
                &&& validation::is_text(pending.verifier, proof.verifier_job_id@)
                &&& match pending.proof {
                    Some(recorded) => protocol::same_verification(recorded, proof),
                    None => false,
                }
                &&& executor == pending.executor@
                &&& issued_source(c, verifier, pending.after)
            },
            None => false,
        },
        None => false,
    }
}

fn is_pending_of(
    c: &Case<'_>,
    proof: &VerificationPacket,
    task: &str,
    executor: &str,
    verifier: &RuntimeJob,
) -> (r: bool)
    ensures
        r == pending_of(*c, *proof, task@, executor@, *verifier),
{
    match &c.history.run {
        Some(run) => match &run.pending {
            Some(pending) => {
                let recorded: bool = match &pending.proof {
                    Some(recorded) => recorded.same(proof),
                    None => false,
                };
                recorded && text::same(pending.task_id.as_str(), task) && validation::holds_text(
                    &pending.verifier,
                    proof.verifier_job_id.as_str(),
                ) && text::same(executor, pending.executor.as_str()) && is_issued_source(
                    c,
                    verifier,
                    &pending.after,
                )
            },
            None => false,
        },
        None => false,
    }
}

pub const REJECTED_DETAIL: &'static str =
    "the rejecting proof, verifier job, task transition, and absence of plan acceptance form one causal chain";

/// What a rejection of a task shows of contained failures.
pub open spec fn rejection_evidence(c: Case<'_>) -> Option<EvidenceView> {
    match rejection(c, 0) {
        Some(i) => {
            let t = c.history.transitions@[i];
            match t.proof {
                Some(proof) => match (
                    proof.target,
                    record::job_at(c.history.jobs@, proof.verifier_job_id@, 0),
                ) {
                    (VerificationTarget::Packet { task_id, executor_job_id }, Some(v)) => if proof.decision
                        == VerificationDecision::Reject && task_id@ == t.task@ && bound_verifier(
                        c,
                        Some(t.task@),
                        c.history.jobs@[v],
                        proof,
                    ) && pending_of(c, proof, t.task@, executor_job_id@, c.history.jobs@[v]) {
                        Some(
                            EvidenceView {
                                sequence: Some(t.sequence),
                                task_id: Some(t.task@),
                                ..bare(CapabilityEvidenceKind::FailureBoundary, REJECTED_DETAIL@)
                            },
                        )
                    } else {
                        None
                    },
                    _ => None,
                },
                None => None,
            }
        },
        None => None,
    }
}

fn show_rejection(c: &Case<'_>) -> (r: Option<CapabilityEvidence>)
    ensures
        match r {
            Some(e) => rejection_evidence(*c) == Some(e@),
            None => rejection_evidence(*c) is None,
        },
{
    let i: usize = match find_rejection(c) {
        Some(i) => i,
        None => return None,
    };
    let t = &c.history.transitions[i];
    match &t.proof {
        Some(proof) => match (
            &proof.target,
            record::find_job(&c.history.jobs, proof.verifier_job_id.as_str()),
        ) {
            (VerificationTarget::Packet { task_id, executor_job_id }, Some(v)) => {
                let job: &RuntimeJob = &c.history.jobs[v];
                if proof.decision == VerificationDecision::Reject && text::same(
                    task_id.as_str(),
                    t.task.as_str(),
                ) && bound_verifier_job(c, Some(t.task.as_str()), job, proof) && is_pending_of(
                    c,
                    proof,
                    t.task.as_str(),
                    executor_job_id.as_str(),
                    job,
                ) {
                    let mut evidence: CapabilityEvidence = CapabilityEvidence::new(
                        CapabilityEvidenceKind::FailureBoundary,
                        REJECTED_DETAIL,
                    );
                    evidence.sequence = Some(t.sequence);
                    evidence.task_id = Some(t.task.clone());
                    Some(evidence)
                } else {
                    None
                }
            },
            _ => None,
        },
        None => None,
    }
}

pub const REFUSED_DETAIL: &'static str =
    "the plan-owned candidate was rejected against its accepted base and was never accepted";

/// What a rejected integration shows of contained failures.
pub open spec fn refusal_evidence(c: Case<'_>) -> Option<EvidenceView> {
    match refusal(c, 0) {
        Some(i) => {
            let g = c.history.generations@[i];
            if g.state == GenerationState::Rejected && g.base is Some && observed(g, c.id())
                && decided_for(g.closure, c.id(), DecisionReason::IntegrationRejected) {
                Some(
                    EvidenceView {
                        generation_id: Some(g.generation_id@),
                        ..bare(CapabilityEvidenceKind::FailureBoundary, REFUSED_DETAIL@)
                    },
                )
            } else {
                None
            }
        },
        None => None,
    }
}

fn show_refusal(c: &Case<'_>) -> (r: Option<CapabilityEvidence>)
    ensures
        match r {
            Some(e) => refusal_evidence(*c) == Some(e@),
            None => refusal_evidence(*c) is None,
        },
{
    let i: usize = match find_refusal(c) {
        Some(i) => i,
        None => return None,
    };
    let g: &Generation = &c.history.generations[i];
    if !(g.state == GenerationState::Rejected && g.base.is_some() && is_observed(g, c.plan())
        && is_decided_for(&g.closure, c.plan(), DecisionReason::IntegrationRejected)) {
        return None;
    }
    let mut evidence: CapabilityEvidence = CapabilityEvidence::new(
        CapabilityEvidenceKind::FailureBoundary,
        REFUSED_DETAIL,
    );
    evidence.generation_id = Some(g.generation_id.clone());
    Some(evidence)
}

pub const FAILED_DETAIL: &'static str =
    "the plan-owned executor failure is bound to the blocked run and no plan generation was accepted";

/// What a failed executor shows of contained failures.
pub open spec fn failure_evidence(c: Case<'_>) -> Option<EvidenceView> {
    match failed_executor(c, 0) {
        Some(i) => {
            let job = c.history.jobs@[i];
            if validation::is_text(job.plan_id, c.id()) && job.workspace_id@ == c.workspace_id@
                && blocked(c) {
                Some(
                    EvidenceView {
                        task_id: view_of(job.task_id),
                        executor_job_id: Some(job.job_id@),
                        ..bare(CapabilityEvidenceKind::FailureBoundary, FAILED_DETAIL@)
                    },
                )
            } else {
                None
            }
        },
        None => None,
    }
}

fn show_failure(c: &Case<'_>) -> (r: Option<CapabilityEvidence>)
    ensures
        match r {
            Some(e) => failure_evidence(*c) == Some(e@),
            None => failure_evidence(*c) is None,
        },
{
    let i: usize = match find_failed_executor(c) {
        Some(i) => i,
        None => return None,
    };
    let job: &RuntimeJob = &c.history.jobs[i];
    if !(validation::holds_text(&job.plan_id, c.plan()) && text::same(
        job.workspace_id.as_str(),
        c.workspace_id,
    ) && is_blocked(c)) {
        return None;
    }
    let mut evidence: CapabilityEvidence = CapabilityEvidence::new(
        CapabilityEvidenceKind::FailureBoundary,
        FAILED_DETAIL,
    );
    evidence.task_id = job.task_id.clone();
    evidence.executor_job_id = Some(job.job_id.clone());
    Some(evidence)
}

pub const BLOCKED_PHASE: &'static str = "BLOCKED_NEEDS_PLANNER";

pub const BLOCKED_DETAIL: &'static str =
    "runtime validation blocked the plan without accepting its result";

/// What a blocked run shows of contained failures where nothing else failed.
pub open spec fn blocked_evidence(c: Case<'_>) -> Option<EvidenceView> {
    if rejection(c, 0) is None && refusal(c, 0) is None && failed_executor(c, 0) is None && blocked(
        c,
    ) {
        match phase_at(c, BLOCKED_PHASE@, 0) {
            Some(i) => Some(
                EvidenceView {
                    sequence: Some(c.history.phases@[i].sequence),
                    executor_job_id: view_of(c.history.phases@[i].job),
                    ..bare(CapabilityEvidenceKind::FailureBoundary, BLOCKED_DETAIL@)
                },
            ),
            None => None,
        }
    } else {
        None
    }
}

fn show_blocked(c: &Case<'_>) -> (r: Option<CapabilityEvidence>)
    ensures
        match r {
            Some(e) => blocked_evidence(*c) == Some(e@),
            None => blocked_evidence(*c) is None,
        },
{
    if find_rejection(c).is_some() || find_refusal(c).is_some() || find_failed_executor(c).is_some()
        || !is_blocked(c) {
        return None;
    }
    match find_phase(c, BLOCKED_PHASE) {
        Some(i) => {
            let mut evidence: CapabilityEvidence = CapabilityEvidence::new(
                CapabilityEvidenceKind::FailureBoundary,
                BLOCKED_DETAIL,
            );
            evidence.sequence = Some(c.history.phases[i].sequence);
            evidence.executor_job_id = c.history.phases[i].job.clone();
            Some(evidence)
        },
        None => None,
    }
}

/// Evidence, if there is any.
pub open spec fn optional(e: Option<EvidenceView>) -> Seq<EvidenceView> {
    match e {
        Some(e) => seq![e],
        None => Seq::empty(),
    }
}

fn push_optional(out: &mut Vec<CapabilityEvidence>, e: Option<CapabilityEvidence>, Ghost(v): Ghost<
    Option<EvidenceView>,
>)
    requires
        match e {
            Some(e) => v == Some(e@),
            None => v is None,
        },
    ensures
        views(final(out)@) == views(old(out)@) + optional(v),
{
    let ghost so_far = views(out@);
    match e {
        Some(e) => {
            proof {
                lemma_views_push(out@, e);
                assert(so_far.push(e@) =~= so_far + optional(v));
            }
            out.push(e);
        },
        None => {
            assert(so_far =~= so_far + optional(v));
        },
    }
}

/// Everything that shows a contained failure.
pub open spec fn failures(c: Case<'_>) -> Seq<EvidenceView> {
    optional(rejection_evidence(c)) + optional(refusal_evidence(c)) + optional(failure_evidence(c))
        + optional(blocked_evidence(c))
}

/// Whether a plan reached nothing that counts as accepted.
pub open spec fn nothing_accepted(c: Case<'_>) -> bool {
    !accepted_by_plan(c) && c.view.state != PlanState::Complete
}

/// Whether a failure was contained: shown, with nothing accepted by the plan.
pub open spec fn failure_finding(c: Case<'_>) -> FindingView {
    found(
        ControlPlaneCapability::RejectFailureWithoutAdvancingAcceptedTruth,
        shown_or(failures(c).len() > 0 && nothing_accepted(c), c.unrun()),
        failures(c),
        "this plan has no contained executor/verifier/integration failure"@,
    )
}

fn find_failure(c: &Case<'_>) -> (r: CapabilityFinding)
    ensures
        r@ == failure_finding(*c),
{
    let mut out: Vec<CapabilityEvidence> = Vec::new();
    let rejected: Option<CapabilityEvidence> = show_rejection(c);
    push_optional(&mut out, rejected, Ghost(rejection_evidence(*c)));
    let refused: Option<CapabilityEvidence> = show_refusal(c);
    push_optional(&mut out, refused, Ghost(refusal_evidence(*c)));
    let failed: Option<CapabilityEvidence> = show_failure(c);
    push_optional(&mut out, failed, Ghost(failure_evidence(*c)));
    let stopped: Option<CapabilityEvidence> = show_blocked(c);
    push_optional(&mut out, stopped, Ghost(blocked_evidence(*c)));
    assert(views(out@) =~= failures(*c));
    assert(views(out@).len() == out@.len());
    let contained: bool = out.len() > 0 && !is_accepted_by_plan(c) && c.view.state
        != PlanState::Complete;
    finding(
        ControlPlaneCapability::RejectFailureWithoutAdvancingAcceptedTruth,
        status_of(contained, c.history.run.is_none()),
        out,
        "this plan has no contained executor/verifier/integration failure",
    )
}

// ---------------------------------------------------------------------------
// Stale source
// ---------------------------------------------------------------------------

pub const DRIFT_PHASE: &'static str = "SOURCE_DRIFT_DETECTED";

pub const DRIFT_MARK: &'static str = "SOURCE_DRIFT";

pub const DRIFT_DETAIL: &'static str =
    "runtime refused work after a canonical source-drift check failed";

/// Whether the run stands blocked by drift from the source and policy that the
/// plan was prepared against.
pub open spec fn drifted(c: Case<'_>) -> bool {
    &&& blocked(c)
    &&& match c.history.run->0.reason {
        Some(reason) => text::occurs(reason@, DRIFT_MARK@),
        None => false,
    }
    &&& match history::document(c.history.documents.sources@, c.history.run->0.expected, 0) {
        Some(snapshot) => {
            &&& snapshot.repository_id@ == c.repository_id@
            &&& snapshot.workspace_id@ == c.workspace_id@
            &&& text::same_option(
                snapshot.head,
                c.view.plan.metadata.source.observation.head_commit,
            )
            &&& c.history.run->0.policy_hash@ == c.view.plan.metadata.source.policy_hash@
        },
        None => false,
    }
}

fn is_drifted(c: &Case<'_>) -> (r: bool)
    ensures
        r == drifted(*c),
{
    if !is_blocked(c) {
        return false;
    }
    match &c.history.run {
        Some(run) => {
            let said: bool = match &run.reason {
                Some(reason) => text::contains(reason.as_str(), DRIFT_MARK),
                None => false,
            };
            said && match history::read(&c.history.documents.sources, &run.expected) {
                Some(snapshot) => text::same(snapshot.repository_id.as_str(), c.repository_id)
                    && text::same(snapshot.workspace_id.as_str(), c.workspace_id)
                    && text::same_optional(
                    &snapshot.head,
                    &c.view.plan.metadata.source.observation.head_commit,
                ) && text::same(
                    run.policy_hash.as_str(),
                    c.view.plan.metadata.source.policy_hash.as_str(),
                ),
                None => false,
            }
        },
        None => false,
    }
}

/// What the phases from the `i`-th on show of refused stale source.
pub open spec fn drifts_from(c: Case<'_>, i: int) -> Seq<EvidenceView>
    decreases c.history.phases@.len() - i,
{
    if i < 0 || i >= c.history.phases@.len() {
        Seq::empty()
    } else if c.history.phases@[i].phase@ == DRIFT_PHASE@ && drifted(c) {
        seq![
            EvidenceView {
                sequence: Some(c.history.phases@[i].sequence),
                executor_job_id: view_of(c.history.phases@[i].job),
                ..bare(CapabilityEvidenceKind::SourceDrift, DRIFT_DETAIL@)
            },
        ] + drifts_from(c, i + 1)
    } else {
        drifts_from(c, i + 1)
    }
}

/// Whether stale source was refused, with nothing accepted by the plan.
pub open spec fn drift_finding(c: Case<'_>) -> FindingView {
    found(
        ControlPlaneCapability::RefuseStaleSource,
        shown_or(drifts_from(c, 0).len() > 0 && nothing_accepted(c), c.unrun()),
        drifts_from(c, 0),
        "no source-drift refusal is recorded for this plan"@,
    )
}

fn find_drift(c: &Case<'_>) -> (r: CapabilityFinding)
    ensures
        r@ == drift_finding(*c),
{
    let stale: bool = is_drifted(c);
    let mut out: Vec<CapabilityEvidence> = Vec::new();
    let mut i: usize = 0;
    while i < c.history.phases.len()
        invariant
            stale == drifted(*c),
            i <= c.history.phases@.len(),
            views(out@) + drifts_from(*c, i as int) == drifts_from(*c, 0),
        decreases c.history.phases@.len() - i,
    {
        let ghost so_far = views(out@);
        let ghost rest = drifts_from(*c, i + 1);
        let phase = &c.history.phases[i];
        if stale && text::same(phase.phase.as_str(), DRIFT_PHASE) {
            let mut evidence: CapabilityEvidence = CapabilityEvidence::new(
                CapabilityEvidenceKind::SourceDrift,
                DRIFT_DETAIL,
            );
            evidence.sequence = Some(phase.sequence);
            evidence.executor_job_id = phase.job.clone();
            proof {
                lemma_views_push(out@, evidence);
                assert(so_far.push(evidence@) + rest =~= so_far + (seq![evidence@] + rest));
            }
            out.push(evidence);
        }
        i += 1;
    }
    assert(views(out@) + drifts_from(*c, i as int) =~= views(out@));
    assert(views(out@).len() == out@.len());
    let refused: bool = out.len() > 0 && !is_accepted_by_plan(c) && c.view.state
        != PlanState::Complete;
    finding(
        ControlPlaneCapability::RefuseStaleSource,
        status_of(refused, c.history.run.is_none()),
        out,
        "no source-drift refusal is recorded for this plan",
    )
}

// ---------------------------------------------------------------------------
// Mediated context
// ---------------------------------------------------------------------------

/// Whether a round's request was made by that job of the plan for the ledger's
/// subject.
pub open spec fn request_bound(
    c: Case<'_>,
    ledger: ContextLedger,
    round: RoundRecord,
    requester: RuntimeJob,
) -> bool {
    &&& validation::is_text(requester.plan_id, c.id())
    &&& requester.workspace_id@ == c.workspace_id@
    &&& requester.role == ledger.role
    &&& text::same_option(requester.task_id, ledger.task_id)
    &&& match requester.context_request {
        Some(request) => source::same_artifact(request, round.request),
        None => false,
    }
    &&& match history::document(c.history.documents.requests@, round.request, 0) {
        Some(request) => request.job_id@ == round.job_id@ && text::same_option(
            request.task_id,
            ledger.task_id,
        ),
        None => false,
    }
}

fn is_request_bound(
    c: &Case<'_>,
    ledger: &ContextLedger,
    round: &RoundRecord,
    requester: &RuntimeJob,
) -> (r: bool)
    ensures
        r == request_bound(*c, *ledger, *round, *requester),
{
    let requested: bool = match &requester.context_request {
        Some(request) => request.same(&round.request),
        None => false,
    };
    requested && validation::holds_text(&requester.plan_id, c.plan()) && text::same(
        requester.workspace_id.as_str(),
        c.workspace_id,
    ) && requester.role == ledger.role && text::same_optional(&requester.task_id, &ledger.task_id)
        && match history::read(&c.history.documents.requests, &round.request) {
        Some(request) => text::same(request.job_id.as_str(), round.job_id.as_str())
            && text::same_optional(&request.task_id, &ledger.task_id),
        None => false,
    }
}

/// Whether something was derived from the state that a ledger's base was.
pub open spec fn on_base(
    ledger: ContextLedger,
    generation: Option<graph::GraphGeneration>,
    source_hash: Seq<char>,
) -> bool {
    match ledger.base {
        Some(base) => graph::same_generation(generation, base.graph_generation) && source_hash
            == base.source_hash@,
        None => false,
    }
}

fn is_on_base(
    ledger: &ContextLedger,
    generation: &Option<graph::GraphGeneration>,
    source_hash: &str,
) -> (r: bool)
    ensures
        r == on_base(*ledger, *generation, source_hash@),
{
    match &ledger.base {
        Some(base) => graph::generation_same(generation, &base.graph_generation) && text::same(
            source_hash,
            base.source_hash.as_str(),
        ),
        None => false,
    }
}

/// Whether the resolution of a round is of its request, on the ledger's base.
pub open spec fn resolution_bound(c: Case<'_>, ledger: ContextLedger, round: RoundRecord) -> bool {
    match history::document(c.history.documents.resolutions@, round.resolution, 0) {
        Some(resolution) => resolution.request_hash@ == round.request.hash@ && on_base(
            ledger,
            resolution.graph_generation,
            resolution.source_hash@,
        ),
        None => false,
    }
}

fn is_resolution_bound(c: &Case<'_>, ledger: &ContextLedger, round: &RoundRecord) -> (r: bool)
    ensures
        r == resolution_bound(*c, *ledger, *round),
{
    match history::read(&c.history.documents.resolutions, &round.resolution) {
        Some(resolution) => text::same(
            resolution.request_hash.as_str(),
            round.request.hash.as_str(),
        ) && is_on_base(ledger, &resolution.graph_generation, resolution.source_hash.as_str()),
        None => false,
    }
}

/// Whether a decision is of a round's request.
pub open spec fn decision_bound(
    c: Case<'_>,
    ledger: ContextLedger,
    round: RoundRecord,
    decision: ContextDecision,
) -> bool {
    decision.plan_id@ == c.id() && validation::is_text(ledger.task_id, decision.task_id@)
        && decision.request_hash@ == round.request.hash@
}

fn is_decision_bound(
    c: &Case<'_>,
    ledger: &ContextLedger,
    round: &RoundRecord,
    decision: &ContextDecision,
) -> (r: bool)
    ensures
        r == decision_bound(*c, *ledger, *round, *decision),
{
    text::same(decision.plan_id.as_str(), c.plan()) && validation::holds_text(
        &ledger.task_id,
        decision.task_id.as_str(),
    ) && text::same(decision.request_hash.as_str(), round.request.hash.as_str())
}

/// Whether a readable delta does not rest on a decision.
pub open spec fn rests_elsewhere(c: Case<'_>, delta: DeltaRef, decision_hash: Seq<char>) -> bool {
    match history::document(c.history.documents.deltas@, delta.artifact, 0) {
        Some(stored) => match stored.delta.grant {
            Grant::PlannerApproved { decision_hash: h, .. } => h@ != decision_hash,
            Grant::Automatic => true,
        },
        None => false,
    }
}

/// Whether no delta of a ledger rests on a decision.
pub open spec fn ledger_unused(c: Case<'_>, ledger: ContextLedger, decision_hash: Seq<char>) -> bool {
    forall|i: int|
        0 <= i < context::granted(ledger.rounds@).len() ==> rests_elsewhere(
            c,
            #[trigger] context::granted(ledger.rounds@)[i],
            decision_hash,
        )
}

fn is_ledger_unused(c: &Case<'_>, ledger: &ContextLedger, decision_hash: &str) -> (r: bool)
    ensures
        r == ledger_unused(*c, *ledger, decision_hash@),
{
    let deltas: Vec<&DeltaRef> = ledger.deltas();
    let ghost all = context::granted(ledger.rounds@);
    assert(deltas@.map_values(|d: &DeltaRef| *d) == all);
    assert(all.len() == deltas@.len());
    let mut i: usize = 0;
    while i < deltas.len()
        invariant
            i <= deltas@.len(),
            all == context::granted(ledger.rounds@),
            all.len() == deltas@.len(),
            deltas@.map_values(|d: &DeltaRef| *d) == all,
            forall|k: int|
                0 <= k < i ==> rests_elsewhere(*c, #[trigger] all[k], decision_hash@),
        decreases deltas@.len() - i,
    {
        assert(all[i as int] == *deltas@[i as int]);
        let elsewhere: bool = match history::read(
            &c.history.documents.deltas,
            &deltas[i].artifact,
        ) {
            Some(stored) => match &stored.delta.grant {
                Grant::PlannerApproved { decision_hash: h, .. } => !text::same(
                    h.as_str(),
                    decision_hash,
                ),
                Grant::Automatic => true,
            },
            None => false,
        };
        if !elsewhere {
            assert(!rests_elsewhere(*c, all[i as int], decision_hash@));
            return false;
        }
        i += 1;
    }
    true
}

/// Whether no delta of a run rests on a decision.
pub open spec fn unused(c: Case<'_>, run: RunRecord, decision_hash: Seq<char>) -> bool {
    forall|i: int|
        0 <= i < run.context@.len() ==> ledger_unused(
            c,
            (#[trigger] run.context@[i]).ledger,
            decision_hash,
        )
}

fn is_unused(c: &Case<'_>, run: &RunRecord, decision_hash: &str) -> (r: bool)
    ensures
        r == unused(*c, *run, decision_hash@),
{
    let mut i: usize = 0;
    while i < run.context.len()
        invariant
            i <= run.context@.len(),
            forall|k: int|
                0 <= k < i ==> ledger_unused(
                    *c,
                    (#[trigger] run.context@[k]).ledger,
                    decision_hash@,
                ),
        decreases run.context@.len() - i,
    {
        if !is_ledger_unused(c, &run.context[i].ledger, decision_hash) {
            return false;
        }
        i += 1;
    }
    true
}

/// Whether a manifest names a delta as approved by a planner.
pub open spec fn manifest_names(
    list: Seq<crate::manifest::DeltaManifest>,
    delta_id: Seq<char>,
    hash: Seq<char>,
    parent: Seq<char>,
) -> bool {
    exists|i: int|
        0 <= i < list.len() && (#[trigger] list[i]).delta_id@ == delta_id && list[i].hash@ == hash
            && list[i].parent_job_id@ == parent && list[i].planner_approved
}

fn does_manifest_name(
    list: &Vec<crate::manifest::DeltaManifest>,
    delta_id: &str,
    hash: &str,
    parent: &str,
) -> (r: bool)
    ensures
        r == manifest_names(list@, delta_id@, hash@, parent@),
{
    let mut i: usize = 0;
    while i < list.len()
        invariant
            i <= list@.len(),
            forall|k: int|
                0 <= k < i ==> !((#[trigger] list@[k]).delta_id@ == delta_id@ && list@[k].hash@
                    == hash@ && list@[k].parent_job_id@ == parent@ && list@[k].planner_approved),
        decreases list@.len() - i,
    {
        if text::same(list[i].delta_id.as_str(), delta_id) && text::same(
            list[i].hash.as_str(),
            hash,
        ) && text::same(list[i].parent_job_id.as_str(), parent) && list[i].planner_approved {
            return true;
        }
        i += 1;
    }
    false
}

/// Whether a job is the fresh one that an approved delta was issued to.
pub open spec fn issued_anew(
    c: Case<'_>,
    ledger: ContextLedger,
    round: RoundRecord,
    requester: RuntimeJob,
    reference: DeltaRef,
    stored: StoredDelta,
    job: RuntimeJob,
) -> bool {
    &&& validation::is_text(job.plan_id, c.id())
    &&& job.workspace_id@ == c.workspace_id@
    &&& job.role == ledger.role
    &&& text::same_option(job.task_id, ledger.task_id)
    &&& job.job_id@ != round.job_id@
    &&& job.session_id@ != requester.session_id@
    &&& job.created_at_ms > requester.created_at_ms
    &&& match job.context_manifest {
        Some(manifest) => {
            &&& manifest.context_round == Some(stored.delta.round)
            &&& graph::same_generation(manifest.graph_generation, stored.delta.graph_generation)
            &&& manifest_names(
                manifest.context_deltas@,
                stored.delta.delta_id@,
                reference.artifact.hash@,
                round.job_id@,
            )
        },
        None => false,
    }
    &&& match history::document(c.history.documents.inputs@, job.input, 0) {
        Some(input) => text::texts(input.deltas@).contains(stored.content@),
        None => false,
    }
}

fn is_issued_anew(
    c: &Case<'_>,
    ledger: &ContextLedger,
    round: &RoundRecord,
    requester: &RuntimeJob,
    reference: &DeltaRef,
    stored: &StoredDelta,
    job: &RuntimeJob,
) -> (r: bool)
    ensures
        r == issued_anew(*c, *ledger, *round, *requester, *reference, *stored, *job),
{
    if !(validation::holds_text(&job.plan_id, c.plan()) && text::same(
        job.workspace_id.as_str(),
        c.workspace_id,
    ) && job.role == ledger.role && text::same_optional(&job.task_id, &ledger.task_id)
        && !text::same(job.job_id.as_str(), round.job_id.as_str()) && !text::same(
        job.session_id.as_str(),
        requester.session_id.as_str(),
    ) && job.created_at_ms > requester.created_at_ms) {
        return false;
    }
    let named: bool = match &job.context_manifest {
        Some(manifest) => {
            let round_matches: bool = match manifest.context_round {
                Some(n) => n == stored.delta.round,
                None => false,
            };
            round_matches && graph::generation_same(
                &manifest.graph_generation,
                &stored.delta.graph_generation,
            ) && does_manifest_name(
                &manifest.context_deltas,
                stored.delta.delta_id.as_str(),
                reference.artifact.hash.as_str(),
                round.job_id.as_str(),
            )
        },
        None => false,
    };
    named && match history::read(&c.history.documents.inputs, &job.input) {
        Some(input) => text::among(&input.deltas, stored.content.as_str()),
        None => false,
    }
}

/// Whether an approved delta reached a fresh job.
pub open spec fn reissued(
    c: Case<'_>,
    ledger: ContextLedger,
    round: RoundRecord,
    requester: RuntimeJob,
    reference: DeltaRef,
    stored: StoredDelta,
) -> bool {
    exists|j: int|
        0 <= j < c.history.jobs@.len() && issued_anew(
            c,
            ledger,
            round,
            requester,
            reference,
            stored,
            #[trigger] c.history.jobs@[j],
        )
}

fn is_reissued(
    c: &Case<'_>,
    ledger: &ContextLedger,
    round: &RoundRecord,
    requester: &RuntimeJob,
    reference: &DeltaRef,
    stored: &StoredDelta,
) -> (r: bool)
    ensures
        r == reissued(*c, *ledger, *round, *requester, *reference, *stored),
{
    let jobs: &Vec<RuntimeJob> = &c.history.jobs;
    let mut j: usize = 0;
    while j < jobs.len()
        invariant
            *jobs == c.history.jobs,
            j <= jobs@.len(),
            forall|k: int|
                0 <= k < j ==> !issued_anew(
                    *c,
                    *ledger,
                    *round,
                    *requester,
                    *reference,
                    *stored,
                    #[trigger] jobs@[k],
                ),
        decreases jobs@.len() - j,
    {
        if is_issued_anew(c, ledger, round, requester, reference, stored, &jobs[j]) {
            assert(issued_anew(
                *c,
                *ledger,
                *round,
                *requester,
                *reference,
                *stored,
                jobs@[j as int],
            ));
            return true;
        }
        j += 1;
    }
    false
}

/// Whether a delta answers a round's request by a decision, on the ledger's
/// base.
pub open spec fn delta_bound(
    c: Case<'_>,
    ledger: ContextLedger,
    round: RoundRecord,
    decision: ContextDecision,
    decision_hash: Seq<char>,
    reference: DeltaRef,
    stored: StoredDelta,
) -> bool {
    let delta = stored.delta;
    &&& delta.delta_id@ == reference.delta_id@
    &&& delta.plan_id@ == c.id()
    &&& text::same_option(delta.task_id, ledger.task_id)
    &&& delta.role == ledger.role
    &&& delta.parent_job_id@ == round.job_id@
    &&& delta.request_hash@ == round.request.hash@
    &&& delta.round == round.round + 1
    &&& on_base(ledger, delta.graph_generation, delta.source_hash@)
    &&& match delta.grant {
        Grant::PlannerApproved { decision_hash: h, scope_additions } => h@ == decision_hash
            && scope::same_scopes(scope_additions@, decision.read_scope_additions@),
        Grant::Automatic => false,
    }
}

fn is_delta_bound(
    c: &Case<'_>,
    ledger: &ContextLedger,
    round: &RoundRecord,
    decision: &ContextDecision,
    decision_hash: &str,
    reference: &DeltaRef,
    stored: &StoredDelta,
) -> (r: bool)
    ensures
        r == delta_bound(*c, *ledger, *round, *decision, decision_hash@, *reference, *stored),
{
    let delta = &stored.delta;
    text::same(delta.delta_id.as_str(), reference.delta_id.as_str()) && text::same(
        delta.plan_id.as_str(),
        c.plan(),
    ) && text::same_optional(&delta.task_id, &ledger.task_id) && delta.role == ledger.role
        && text::same(delta.parent_job_id.as_str(), round.job_id.as_str()) && text::same(
        delta.request_hash.as_str(),
        round.request.hash.as_str(),
    ) && round.round < u32::MAX && delta.round == round.round + 1 && is_on_base(
        ledger,
        &delta.graph_generation,
        delta.source_hash.as_str(),
    ) && match &delta.grant {
        Grant::PlannerApproved { decision_hash: h, scope_additions } => text::same(
            h.as_str(),
            decision_hash,
        ) && scope::scopes_same(scope_additions, &decision.read_scope_additions),
        Grant::Automatic => false,
    }
}

/// Whether a round came out as its planner decision says: denied and never used,
/// or approved by exactly one delta that reached a fresh job.
pub open spec fn outcome_bound(
    c: Case<'_>,
    run: RunRecord,
    ledger: ContextLedger,
    round: RoundRecord,
    requester: RuntimeJob,
    decision: ContextDecision,
    decision_hash: Seq<char>,
) -> bool {
    match round.outcome {
        RoundOutcome::PlannerDenied => {
            &&& decision.decision == DecisionKind::Deny
            &&& decision.read_scope_additions@.len() == 0
            &&& round.delta is None
            &&& unused(c, run, decision_hash)
        },
        RoundOutcome::Approved => decision.decision == DecisionKind::Approve && match round.delta {
            Some(reference) => match history::document(
                c.history.documents.deltas@,
                reference.artifact,
                0,
            ) {
                Some(stored) => delta_bound(
                    c,
                    ledger,
                    round,
                    decision,
                    decision_hash,
                    reference,
                    stored,
                ) && reissued(c, ledger, round, requester, reference, stored),
                None => false,
            },
            None => false,
        },
        _ => false,
    }
}

fn is_outcome_bound(
    c: &Case<'_>,
    run: &RunRecord,
    ledger: &ContextLedger,
    round: &RoundRecord,
    requester: &RuntimeJob,
    decision: &ContextDecision,
    decision_hash: &str,
) -> (r: bool)
    ensures
        r == outcome_bound(*c, *run, *ledger, *round, *requester, *decision, decision_hash@),
{
    match round.outcome {
        RoundOutcome::PlannerDenied => decision.decision == DecisionKind::Deny
            && decision.read_scope_additions.len() == 0 && round.delta.is_none() && is_unused(
            c,
            run,
            decision_hash,
        ),
        RoundOutcome::Approved => decision.decision == DecisionKind::Approve && match &round.delta {
            Some(reference) => match history::read(
                &c.history.documents.deltas,
                &reference.artifact,
            ) {
                Some(stored) => is_delta_bound(
                    c,
                    ledger,
                    round,
                    decision,
                    decision_hash,
                    reference,
                    stored,
                ) && is_reissued(c, ledger, round, requester, reference, stored),
                None => false,
            },
            None => false,
        },
        _ => false,
    }
}

/// The name of an outcome that a planner decided, as it appears in evidence.
pub open spec fn outcome_name(outcome: RoundOutcome) -> Seq<char> {
    match outcome {
        RoundOutcome::Granted => "Granted"@,
        RoundOutcome::Escalated => "Escalated"@,
        RoundOutcome::Denied => "Denied"@,
        RoundOutcome::Approved => "Approved"@,
        RoundOutcome::PlannerDenied => "PlannerDenied"@,
    }
}

fn name_outcome(outcome: RoundOutcome) -> (r: &'static str)
    ensures
        r@ == outcome_name(outcome),
{
    match outcome {
        RoundOutcome::Granted => "Granted",
        RoundOutcome::Escalated => "Escalated",
        RoundOutcome::Denied => "Denied",
        RoundOutcome::Approved => "Approved",
        RoundOutcome::PlannerDenied => "PlannerDenied",
    }
}

pub const MEDIATED_DETAIL: &'static str =
    "request, decision, exact delta (if approved), and fresh provider job are identity-bound for ";

/// What a round shows of mediated context.
pub open spec fn round_evidence(
    c: Case<'_>,
    run: RunRecord,
    ledger: ContextLedger,
    round: RoundRecord,
) -> Option<EvidenceView> {
    match (round.decision, record::job_at(c.history.jobs@, round.job_id@, 0)) {
        (Some(reference), Some(k)) => match history::document(
            c.history.documents.decisions@,
            reference,
            0,
        ) {
            Some(decision) => if request_bound(c, ledger, round, c.history.jobs@[k])
                && resolution_bound(c, ledger, round) && decision_bound(c, ledger, round, decision)
                && outcome_bound(
                c,
                run,
                ledger,
                round,
                c.history.jobs@[k],
                decision,
                reference.hash@,
            ) {
                Some(
                    EvidenceView {
                        task_id: view_of(ledger.task_id),
                        executor_job_id: Some(round.job_id@),
                        artifact_hash: Some(reference.hash@),
                        ..bare(
                            CapabilityEvidenceKind::ContextDecision,
                            MEDIATED_DETAIL@ + outcome_name(round.outcome),
                        )
                    },
                )
            } else {
                None
            },
            None => None,
        },
        _ => None,
    }
}

fn show_round(c: &Case<'_>, run: &RunRecord, ledger: &ContextLedger, round: &RoundRecord) -> (r: Option<
    CapabilityEvidence,
>)
    ensures
        match r {
            Some(e) => round_evidence(*c, *run, *ledger, *round) == Some(e@),
            None => round_evidence(*c, *run, *ledger, *round) is None,
        },
{
    match (&round.decision, record::find_job(&c.history.jobs, round.job_id.as_str())) {
        (Some(reference), Some(k)) => match history::read(
            &c.history.documents.decisions,
            reference,
        ) {
            Some(decision) => {
                let requester: &RuntimeJob = &c.history.jobs[k];
                if is_request_bound(c, ledger, round, requester) && is_resolution_bound(
                    c,
                    ledger,
                    round,
                ) && is_decision_bound(c, ledger, round, decision) && is_outcome_bound(
                    c,
                    run,
                    ledger,
                    round,
                    requester,
                    decision,
                    reference.hash.as_str(),
                ) {
                    let detail: String = text::join2(MEDIATED_DETAIL, name_outcome(round.outcome));
                    let mut evidence: CapabilityEvidence = CapabilityEvidence::new(
                        CapabilityEvidenceKind::ContextDecision,
                        detail.as_str(),
                    );
                    evidence.task_id = ledger.task_id.clone();
                    evidence.executor_job_id = Some(round.job_id.clone());
                    evidence.artifact_hash = Some(reference.hash.clone());
                    Some(evidence)
                } else {
                    None
                }
            },
            None => None,
        },
        _ => None,
    }
}

/// What the rounds of a ledger from the `i`-th on show of mediated context.
pub open spec fn rounds_from(c: Case<'_>, run: RunRecord, ledger: ContextLedger, i: int) -> Seq<
    EvidenceView,
>
    decreases ledger.rounds@.len() - i,
{
    if i < 0 || i >= ledger.rounds@.len() {
        Seq::empty()
    } else {
        optional(round_evidence(c, run, ledger, ledger.rounds@[i])) + rounds_from(
            c,
            run,
            ledger,
            i + 1,
        )
    }
}

fn show_rounds(
    c: &Case<'_>,
    run: &RunRecord,
    ledger: &ContextLedger,
    out: &mut Vec<CapabilityEvidence>,
)
    ensures
        views(final(out)@) == views(old(out)@) + rounds_from(*c, *run, *ledger, 0),
{
    let mut i: usize = 0;
    while i < ledger.rounds.len()
        invariant
            i <= ledger.rounds@.len(),
            views(out@) + rounds_from(*c, *run, *ledger, i as int) == views(old(out)@)
                + rounds_from(*c, *run, *ledger, 0),
        decreases ledger.rounds@.len() - i,
    {
        let ghost so_far = views(out@);
        let shown: Option<CapabilityEvidence> = show_round(c, run, ledger, &ledger.rounds[i]);
        let ghost one = round_evidence(*c, *run, *ledger, ledger.rounds@[i as int]);
        push_optional(out, shown, Ghost(one));
        proof {
            let rest = rounds_from(*c, *run, *ledger, i + 1);
            assert((so_far + optional(one)) + rest =~= so_far + (optional(one) + rest));
        }
        i += 1;
    }
    assert(views(out@) + rounds_from(*c, *run, *ledger, i as int) =~= views(out@));
}

/// What the ledgers of a run from the `i`-th on show of mediated context.
pub open spec fn ledgers_from(c: Case<'_>, run: RunRecord, i: int) -> Seq<EvidenceView>
    decreases run.context@.len() - i,
{
    if i < 0 || i >= run.context@.len() {
        Seq::empty()
    } else {
        rounds_from(c, run, run.context@[i].ledger, 0) + ledgers_from(c, run, i + 1)
    }
}

/// What the run shows of mediated context.
pub open spec fn mediated(c: Case<'_>) -> Seq<EvidenceView> {
    match c.history.run {
        Some(run) => ledgers_from(c, run, 0),
        None => Seq::empty(),
    }
}

/// Whether an escalated request for context was decided by a planner, with its
/// whole provenance.
pub open spec fn context_finding(c: Case<'_>) -> FindingView {
    found(
        ControlPlaneCapability::MediateContextEscalation,
        shown_or(mediated(c).len() > 0, c.unrun()),
        mediated(c),
        "no escalation has a complete request/decision/grant-or-denial provenance chain"@,
    )
}

fn find_context(c: &Case<'_>) -> (r: CapabilityFinding)
    ensures
        r@ == context_finding(*c),
{
    let mut out: Vec<CapabilityEvidence> = Vec::new();
    assert(views(out@) =~= Seq::empty());
    if let Some(run) = &c.history.run {
        let mut i: usize = 0;
        assert(views(out@) + ledgers_from(*c, *run, 0) =~= ledgers_from(*c, *run, 0));
        while i < run.context.len()
            invariant
                i <= run.context@.len(),
                views(out@) + ledgers_from(*c, *run, i as int) == ledgers_from(*c, *run, 0),
            decreases run.context@.len() - i,
        {
            let ghost so_far = views(out@);
            show_rounds(c, run, &run.context[i].ledger, &mut out);
            proof {
                let one = rounds_from(*c, *run, run.context@[i as int].ledger, 0);
                let rest = ledgers_from(*c, *run, i + 1);
                assert((so_far + one) + rest =~= so_far + (one + rest));
            }
            i += 1;
        }
        assert(views(out@) + ledgers_from(*c, *run, i as int) =~= views(out@));
    }
    assert(views(out@).len() == out@.len());
    finding(
        ControlPlaneCapability::MediateContextEscalation,
        status_of(out.len() > 0, c.history.run.is_none()),
        out,
        "no escalation has a complete request/decision/grant-or-denial provenance chain",
    )
}

// ---------------------------------------------------------------------------
// Structural evidence
// ---------------------------------------------------------------------------

/// Whether a generation is the candidate that a footprint leads to, on the base
/// that it starts from.
pub open spec fn reached_by(g: Generation, f: Footprint) -> bool {
    &&& g.generation_id@ == f.to_generation_id@
    &&& validation::is_text(g.base, f.from_generation_id@)
    &&& g.generation.sequence == f.to_generation.sequence
    &&& g.generation.fingerprint@ == f.to_generation.fingerprint@
    &&& g.snapshot@ == f.to_snapshot@
}

fn is_reached_by(g: &Generation, f: &Footprint) -> (r: bool)
    ensures
        r == reached_by(*g, *f),
{
    text::same(g.generation_id.as_str(), f.to_generation_id.as_str()) && validation::holds_text(
        &g.base,
        f.from_generation_id.as_str(),
    ) && g.generation.sequence == f.to_generation.sequence && text::same(
        g.generation.fingerprint.as_str(),
        f.to_generation.fingerprint.as_str(),
    ) && text::same(g.snapshot.as_str(), f.to_snapshot.as_str())
}

/// The first candidate of the plan that a footprint leads to, from the `i`-th
/// generation on.
pub open spec fn candidate_at(c: Case<'_>, f: Footprint, i: int) -> Option<int>
    decreases c.history.generations@.len() - i,
{
    if i < 0 || i >= c.history.generations@.len() {
        None
    } else if observed(c.history.generations@[i], c.id()) && reached_by(
        c.history.generations@[i],
        f,
    ) {
        Some(i)
    } else {
        candidate_at(c, f, i + 1)
    }
}

fn find_candidate_of(c: &Case<'_>, f: &Footprint) -> (r: Option<usize>)
    ensures
        match r {
            Some(i) => i < c.history.generations@.len() && candidate_at(*c, *f, 0) == Some(i as int),
            None => candidate_at(*c, *f, 0) is None,
        },
{
    let mut i: usize = 0;
    while i < c.history.generations.len()
        invariant
            i <= c.history.generations@.len(),
            candidate_at(*c, *f, 0) == candidate_at(*c, *f, i as int),
        decreases c.history.generations@.len() - i,
    {
        let g: &Generation = &c.history.generations[i];
        if is_observed(g, c.plan()) && is_reached_by(g, f) {
            return Some(i);
        }
        i += 1;
    }
    None
}

/// The executors that the run accepted, in order.
pub open spec fn accepted_executors(c: Case<'_>) -> Seq<Seq<char>> {
    match c.history.run {
        Some(run) => record::executors(run.accepted@),
        None => Seq::empty(),
    }
}

fn list_accepted(c: &Case<'_>) -> (r: Vec<String>)
    ensures
        text::texts(r@) == accepted_executors(*c),
{
    match &c.history.run {
        Some(run) => record::list_executors(&run.accepted),
        None => {
            let none: Vec<String> = Vec::new();
            assert(text::texts(none@) =~= Seq::empty());
            none
        },
    }
}

/// Whether a target is the integration of exactly what the run accepted.
pub open spec fn integration_of(c: Case<'_>, target: VerificationTarget) -> bool {
    match target {
        VerificationTarget::Integration { plan_id, executor_job_ids } => plan_id@ == c.id()
            && text::texts(executor_job_ids@) == accepted_executors(c),
        VerificationTarget::Packet { .. } => false,
    }
}

fn is_integration_of(c: &Case<'_>, target: &VerificationTarget) -> (r: bool)
    ensures
        r == integration_of(*c, *target),
{
    match target {
        VerificationTarget::Integration { plan_id, executor_job_ids } => {
            let accepted: Vec<String> = list_accepted(c);
            text::same(plan_id.as_str(), c.plan()) && text::same_texts(executor_job_ids, &accepted)
        },
        VerificationTarget::Packet { .. } => false,
    }
}

/// Whether what a proof decided is what became of a candidate.
pub open spec fn evaluated(c: Case<'_>, g: Generation, decision: VerificationDecision) -> bool {
    match decision {
        VerificationDecision::Pass => c.view.state == PlanState::Complete && promoted(c, g),
        VerificationDecision::Reject => g.state == GenerationState::Rejected && decided_for(
            g.closure,
            c.id(),
            DecisionReason::IntegrationRejected,
        ),
        VerificationDecision::Blocked => false,
    }
}

fn is_evaluated(c: &Case<'_>, g: &Generation, decision: VerificationDecision) -> (r: bool)
    ensures
        r == evaluated(*c, *g, decision),
{
    match decision {
        VerificationDecision::Pass => c.view.state == PlanState::Complete && is_decided_for(
            &g.acceptance,
            c.plan(),
            DecisionReason::IntegrationVerified,
        ),
        VerificationDecision::Reject => g.state == GenerationState::Rejected && is_decided_for(
            &g.closure,
            c.plan(),
            DecisionReason::IntegrationRejected,
        ),
        VerificationDecision::Blocked => false,
    }
}

/// Whether a job verified a whole plan.
pub open spec fn integrates(job: RuntimeJob) -> bool {
    job.role == AgentRole::Verifier && job.task_id is None && job.state
        == RuntimeJobState::Succeeded
}

/// Whether a job was issued the source that the run expects.
pub open spec fn issued_expected(c: Case<'_>, job: RuntimeJob) -> bool {
    match c.history.run {
        Some(run) => issued_source(c, job, run.expected),
        None => false,
    }
}

/// Whether an integration was shown the structural difference of exactly the
/// candidate that it decided.
pub open spec fn structurally_bound(
    c: Case<'_>,
    job: RuntimeJob,
    proof: VerificationPacket,
    target: VerificationTarget,
    footprint: Footprint,
) -> bool {
    &&& bound_verifier(c, None, job, proof)
    &&& footprint.workspace_id@ == c.workspace_id@
    &&& footprint.plan_id@ == c.id()
    &&& integration_of(c, target)
    &&& integration_of(c, proof.target)
    &&& issued_expected(c, job)
    &&& match candidate_at(c, footprint, 0) {
        Some(k) => evaluated(c, c.history.generations@[k], proof.decision),
        None => false,
    }
}

pub const STRUCTURAL_DETAIL: &'static str =
    "the integration job input, proof target, accepted-base delta, and exact evaluated candidate are identity-bound";

/// What a job shows of structural evidence at integration.
pub open spec fn structural_evidence(c: Case<'_>, job: RuntimeJob) -> Option<EvidenceView> {
    if !integrates(job) {
        None
    } else {
        match (history::document(c.history.documents.inputs@, job.input, 0), job.output) {
            (Some(input), Some(output)) => match (
                history::document(c.history.documents.proofs@, output, 0),
                input.target,
                input.footprint,
            ) {
                (Some(proof), Some(target), Some(footprint)) => if structurally_bound(
                    c,
                    job,
                    proof,
                    target,
                    footprint,
                ) {
                    Some(
                        EvidenceView {
                            verifier_job_id: Some(job.job_id@),
                            artifact_hash: Some(job.input.hash@),
                            generation_id: Some(footprint.to_generation_id@),
                            ..bare(CapabilityEvidenceKind::VerificationInput, STRUCTURAL_DETAIL@)
                        },
                    )
                } else {
                    None
                },
                _ => None,
            },
            _ => None,
        }
    }
}

fn is_structurally_bound(
    c: &Case<'_>,
    job: &RuntimeJob,
    proof: &VerificationPacket,
    target: &VerificationTarget,
    footprint: &Footprint,
) -> (r: bool)
    ensures
        r == structurally_bound(*c, *job, *proof, *target, *footprint),
{
    let expected: bool = match &c.history.run {
        Some(run) => is_issued_source(c, job, &run.expected),
        None => false,
    };
    expected && bound_verifier_job(c, None, job, proof) && text::same(
        footprint.workspace_id.as_str(),
        c.workspace_id,
    ) && text::same(footprint.plan_id.as_str(), c.plan()) && is_integration_of(c, target)
        && is_integration_of(c, &proof.target) && match find_candidate_of(c, footprint) {
        Some(k) => is_evaluated(c, &c.history.generations[k], proof.decision),
        None => false,
    }
}

fn show_structural(c: &Case<'_>, job: &RuntimeJob) -> (r: Option<CapabilityEvidence>)
    ensures
        match r {
            Some(e) => structural_evidence(*c, *job) == Some(e@),
            None => structural_evidence(*c, *job) is None,
        },
{
    if !(job.role == AgentRole::Verifier && job.task_id.is_none() && job.state
        == RuntimeJobState::Succeeded) {
        return None;
    }
    match (history::read(&c.history.documents.inputs, &job.input), &job.output) {
        (Some(input), Some(output)) => match (
            history::read(&c.history.documents.proofs, output),
            &input.target,
            &input.footprint,
        ) {
            (Some(proof), Some(target), Some(footprint)) => {
                if is_structurally_bound(c, job, proof, target, footprint) {
                    let mut evidence: CapabilityEvidence = CapabilityEvidence::new(
                        CapabilityEvidenceKind::VerificationInput,
                        STRUCTURAL_DETAIL,
                    );
                    evidence.verifier_job_id = Some(job.job_id.clone());
                    evidence.artifact_hash = Some(job.input.hash.clone());
                    evidence.generation_id = Some(footprint.to_generation_id.clone());
                    Some(evidence)
                } else {
                    None
                }
            },
            _ => None,
        },
        _ => None,
    }
}

/// What the jobs from the `i`-th on show of structural evidence at integration.
pub open spec fn structural_from(c: Case<'_>, i: int) -> Seq<EvidenceView>
    decreases c.history.jobs@.len() - i,
{
    if i < 0 || i >= c.history.jobs@.len() {
        Seq::empty()
    } else {
        optional(structural_evidence(c, c.history.jobs@[i])) + structural_from(c, i + 1)
    }
}

/// Why an integration cannot be inspected, from the `i`-th job on: its input
/// cannot be read.
pub open spec fn unreadable(c: Case<'_>, i: int) -> Option<Seq<char>>
    decreases c.history.jobs@.len() - i,
{
    if i < 0 || i >= c.history.jobs@.len() {
        None
    } else if integrates(c.history.jobs@[i]) && history::document(
        c.history.documents.inputs@,
        c.history.jobs@[i].input,
        0,
    ) is None {
        Some(c.history.documents.unreadable@)
    } else {
        unreadable(c, i + 1)
    }
}

/// Whether an integration was shown the structural difference of exactly the
/// candidate that it decided.
pub open spec fn structural_finding(c: Case<'_>) -> FindingView {
    found(
        ControlPlaneCapability::ExposeStructuralEvidenceToIntegration,
        shown_or(structural_from(c, 0).len() > 0, c.unrun()),
        structural_from(c, 0),
        "no integration result is bound to structural evidence for the exact candidate it evaluated"@,
    )
}

fn find_structural(c: &Case<'_>) -> (r: Result<CapabilityFinding, Error>)
    ensures
        crate::error::settles(r, unreadable(*c, 0)),
        r matches Ok(f) ==> f@ == structural_finding(*c),
{
    let mut out: Vec<CapabilityEvidence> = Vec::new();
    assert(views(out@) + structural_from(*c, 0) =~= structural_from(*c, 0));
    let mut i: usize = 0;
    while i < c.history.jobs.len()
        invariant
            i <= c.history.jobs@.len(),
            unreadable(*c, 0) == unreadable(*c, i as int),
            views(out@) + structural_from(*c, i as int) == structural_from(*c, 0),
        decreases c.history.jobs@.len() - i,
    {
        let ghost so_far = views(out@);
        let job: &RuntimeJob = &c.history.jobs[i];
        if job.role == AgentRole::Verifier && job.task_id.is_none() && job.state
            == RuntimeJobState::Succeeded && history::read(
            &c.history.documents.inputs,
            &job.input,
        ).is_none() {
            return invalid(c.history.documents.unreadable.as_str());
        }
        let shown: Option<CapabilityEvidence> = show_structural(c, job);
        let ghost one = structural_evidence(*c, *job);
        push_optional(&mut out, shown, Ghost(one));
        proof {
            let rest = structural_from(*c, i + 1);
            assert((so_far + optional(one)) + rest =~= so_far + (optional(one) + rest));
        }
        i += 1;
    }
    assert(views(out@) + structural_from(*c, i as int) =~= views(out@));
    assert(views(out@).len() == out@.len());
    Ok(
        finding(
            ControlPlaneCapability::ExposeStructuralEvidenceToIntegration,
            status_of(out.len() > 0, c.history.run.is_none()),
            out,
            "no integration result is bound to structural evidence for the exact candidate it evaluated",
        ),
    )
}

// ---------------------------------------------------------------------------
// Resumption
// ---------------------------------------------------------------------------

pub const RESUMED_PHASE: &'static str = "PLAN_RUNTIME_RESUMED";

pub const SUCCEEDED_PHASE: &'static str = "JOB_SUCCEEDED";

pub const COMPLETED_PHASE: &'static str = "PLAN_RUNTIME_COMPLETED";

pub const RESUMED_DETAIL: &'static str =
    "a finally accepted executor completed before the resume marker and the same plan completed afterward";

/// Whether a job is recorded to have succeeded before a time.
pub open spec fn succeeded_before(c: Case<'_>, job: Seq<char>, time: i64) -> bool {
    exists|i: int|
        0 <= i < c.history.phases@.len() && (#[trigger] c.history.phases@[i]).sequence < time
            && c.history.phases@[i].phase@ == SUCCEEDED_PHASE@ && validation::is_text(
            c.history.phases@[i].job,
            job,
        )
}

fn has_succeeded_before(c: &Case<'_>, job: &str, time: i64) -> (r: bool)
    ensures
        r == succeeded_before(*c, job@, time),
{
    let mut i: usize = 0;
    while i < c.history.phases.len()
        invariant
            i <= c.history.phases@.len(),
            forall|k: int|
                0 <= k < i ==> !((#[trigger] c.history.phases@[k]).sequence < time
                    && c.history.phases@[k].phase@ == SUCCEEDED_PHASE@ && validation::is_text(
                    c.history.phases@[k].job,
                    job@,
                )),
        decreases c.history.phases@.len() - i,
    {
        let phase = &c.history.phases[i];
        if phase.sequence < time && text::same(phase.phase.as_str(), SUCCEEDED_PHASE)
            && validation::holds_text(&phase.job, job) {
            return true;
        }
        i += 1;
    }
    false
}

/// Whether the plan is recorded to have completed after a time.
pub open spec fn completed_after(c: Case<'_>, time: i64) -> bool {
    exists|i: int|
        0 <= i < c.history.phases@.len() && (#[trigger] c.history.phases@[i]).sequence > time
            && c.history.phases@[i].phase@ == COMPLETED_PHASE@
}

fn has_completed_after(c: &Case<'_>, time: i64) -> (r: bool)
    ensures
        r == completed_after(*c, time),
{
    let mut i: usize = 0;
    while i < c.history.phases.len()
        invariant
            i <= c.history.phases@.len(),
            forall|k: int|
                0 <= k < i ==> !((#[trigger] c.history.phases@[k]).sequence > time
                    && c.history.phases@[k].phase@ == COMPLETED_PHASE@),
        decreases c.history.phases@.len() - i,
    {
        let phase = &c.history.phases[i];
        if phase.sequence > time && text::same(phase.phase.as_str(), COMPLETED_PHASE) {
            return true;
        }
        i += 1;
    }
    false
}

/// Whether the executor of an accepted task is a job of the plan that was issued
/// that task.
pub open spec fn executor_bound(c: Case<'_>, task: AcceptedTask) -> bool {
    match record::job_at(c.history.jobs@, task.executor@, 0) {
        Some(k) => own_job(c, c.history.jobs@[k], AgentRole::Executor, Some(task.task_id@))
            && match history::document(c.history.documents.inputs@, c.history.jobs@[k].input, 0) {
            Some(input) => issued_to(
                c,
                input,
                c.history.jobs@[k],
                AgentRole::Executor,
                Some(task.task_id@),
            ),
            None => false,
        },
        None => false,
    }
}

fn is_executor_bound(c: &Case<'_>, task: &AcceptedTask) -> (r: bool)
    ensures
        r == executor_bound(*c, *task),
{
    match record::find_job(&c.history.jobs, task.executor.as_str()) {
        Some(k) => {
            let job: &RuntimeJob = &c.history.jobs[k];
            is_own_job(c, job, AgentRole::Executor, Some(task.task_id.as_str())) && match history::read(
                &c.history.documents.inputs,
                &job.input,
            ) {
                Some(input) => is_issued_to(
                    c,
                    input,
                    job,
                    AgentRole::Executor,
                    Some(task.task_id.as_str()),
                ),
                None => false,
            }
        },
        None => false,
    }
}

/// Whether work that was finally accepted was done before a time.
pub open spec fn work_before(c: Case<'_>, run: RunRecord, time: i64) -> bool {
    exists|i: int|
        0 <= i < run.accepted@.len() && succeeded_before(
            c,
            (#[trigger] run.accepted@[i]).executor@,
            time,
        ) && executor_bound(c, run.accepted@[i])
}

fn has_work_before(c: &Case<'_>, run: &RunRecord, time: i64) -> (r: bool)
    ensures
        r == work_before(*c, *run, time),
{
    let mut i: usize = 0;
    while i < run.accepted.len()
        invariant
            i <= run.accepted@.len(),
            forall|k: int|
                0 <= k < i ==> !(succeeded_before(
                    *c,
                    (#[trigger] run.accepted@[k]).executor@,
                    time,
                ) && executor_bound(*c, run.accepted@[k])),
        decreases run.accepted@.len() - i,
    {
        if has_succeeded_before(c, run.accepted[i].executor.as_str(), time) && is_executor_bound(
            c,
            &run.accepted[i],
        ) {
            return true;
        }
        i += 1;
    }
    false
}

/// What the phases from the `i`-th on show of resumed work.
pub open spec fn resumptions_from(c: Case<'_>, run: RunRecord, i: int) -> Seq<EvidenceView>
    decreases c.history.phases@.len() - i,
{
    if i < 0 || i >= c.history.phases@.len() {
        Seq::empty()
    } else {
        let phase = c.history.phases@[i];
        if phase.phase@ == RESUMED_PHASE@ && work_before(c, run, phase.sequence) && completed_after(
            c,
            phase.sequence,
        ) {
            seq![
                EvidenceView {
                    sequence: Some(phase.sequence),
                    ..bare(CapabilityEvidenceKind::ResumeCheckpoint, RESUMED_DETAIL@)
                },
            ] + resumptions_from(c, run, i + 1)
        } else {
            resumptions_from(c, run, i + 1)
        }
    }
}

/// What a completed plan shows of resumed work.
pub open spec fn resumptions(c: Case<'_>) -> Seq<EvidenceView> {
    match c.history.run {
        Some(run) => if run.state == RunState::Complete && c.view.state == PlanState::Complete
            && run.accepted@.len() == c.view.plan.packet.tasks@.len() {
            resumptions_from(c, run, 0)
        } else {
            Seq::empty()
        },
        None => Seq::empty(),
    }
}

/// Whether durable work survived an interruption and led to completion.
pub open spec fn resumed_finding(c: Case<'_>) -> FindingView {
    found(
        ControlPlaneCapability::ResumeDurableWorkToCompletion,
        shown_or(resumptions(c).len() > 0, c.unrun()),
        resumptions(c),
        "no finally accepted work precedes a resume marker followed by coherent completion"@,
    )
}

fn resumed(c: &Case<'_>, run: &RunRecord) -> (r: Vec<CapabilityEvidence>)
    ensures
        views(r@) == resumptions_from(*c, *run, 0),
{
    let mut out: Vec<CapabilityEvidence> = Vec::new();
    assert(views(out@) + resumptions_from(*c, *run, 0) =~= resumptions_from(*c, *run, 0));
    let mut i: usize = 0;
    while i < c.history.phases.len()
        invariant
            i <= c.history.phases@.len(),
            views(out@) + resumptions_from(*c, *run, i as int) == resumptions_from(*c, *run, 0),
        decreases c.history.phases@.len() - i,
    {
        let ghost so_far = views(out@);
        let ghost rest = resumptions_from(*c, *run, i + 1);
        let phase = &c.history.phases[i];
        if text::same(phase.phase.as_str(), RESUMED_PHASE) && has_work_before(
            c,
            run,
            phase.sequence,
        ) && has_completed_after(c, phase.sequence) {
            let mut evidence: CapabilityEvidence = CapabilityEvidence::new(
                CapabilityEvidenceKind::ResumeCheckpoint,
                RESUMED_DETAIL,
            );
            evidence.sequence = Some(phase.sequence);
            proof {
                lemma_views_push(out@, evidence);
                assert(so_far.push(evidence@) + rest =~= so_far + (seq![evidence@] + rest));
            }
            out.push(evidence);
        }
        i += 1;
    }
    assert(views(out@) + resumptions_from(*c, *run, i as int) =~= views(out@));
    out
}

fn find_resumed(c: &Case<'_>) -> (r: CapabilityFinding)
    ensures
        r@ == resumed_finding(*c),
{
    let out: Vec<CapabilityEvidence> = match &c.history.run {
        Some(run) => if run.state == RunState::Complete && c.view.state == PlanState::Complete
            && run.accepted.len() == c.view.plan.packet.tasks.len() {
            resumed(c, run)
        } else {
            Vec::new()
        },
        None => Vec::new(),
    };
    assert(views(out@) =~= resumptions(*c));
    assert(views(out@).len() == out@.len());
    finding(
        ControlPlaneCapability::ResumeDurableWorkToCompletion,
        status_of(out.len() > 0, c.history.run.is_none()),
        out,
        "no finally accepted work precedes a resume marker followed by coherent completion",
    )
}

// ---------------------------------------------------------------------------
// Integration
// ---------------------------------------------------------------------------

/// Whether a generation was promoted by exactly the stored proof and final
/// source.
pub open spec fn promoted_exactly(c: Case<'_>, g: Generation) -> bool {
    &&& g.state == GenerationState::Accepted || g.state == GenerationState::Retired
    &&& observed(g, c.id())
    &&& promoted(c, g)
    &&& validation::is_text(g.acceptance->0.verification_hash, c.history.proof_hash@)
    &&& validation::is_text(g.acceptance->0.source_hash, c.history.source_hash@)
}

fn is_promoted_exactly(c: &Case<'_>, g: &Generation) -> (r: bool)
    ensures
        r == promoted_exactly(*c, *g),
{
    (g.state == GenerationState::Accepted || g.state == GenerationState::Retired) && is_observed(
        g,
        c.plan(),
    ) && is_decided_for(&g.acceptance, c.plan(), DecisionReason::IntegrationVerified)
        && match &g.acceptance {
        Some(d) => validation::holds_text(&d.verification_hash, c.history.proof_hash.as_str())
            && validation::holds_text(&d.source_hash, c.history.source_hash.as_str()),
        None => false,
    }
}

/// The generations that were so promoted, from the `i`-th on.
pub open spec fn promotions_from(c: Case<'_>, i: int) -> Seq<int>
    decreases c.history.generations@.len() - i,
{
    if i < 0 || i >= c.history.generations@.len() {
        Seq::empty()
    } else if promoted_exactly(c, c.history.generations@[i]) {
        seq![i] + promotions_from(c, i + 1)
    } else {
        promotions_from(c, i + 1)
    }
}

/// The one generation that was so promoted.
pub open spec fn sole_promotion(c: Case<'_>) -> Option<int> {
    if promotions_from(c, 0).len() == 1 {
        Some(promotions_from(c, 0)[0])
    } else {
        None
    }
}

fn find_sole_promotion(c: &Case<'_>) -> (r: Option<usize>)
    ensures
        match r {
            Some(i) => i < c.history.generations@.len() && sole_promotion(*c) == Some(i as int),
            None => sole_promotion(*c) is None,
        },
{
    let mut all: Vec<usize> = Vec::new();
    let ghost mut seen: Seq<int> = Seq::empty();
    assert(seen + promotions_from(*c, 0) =~= promotions_from(*c, 0));
    let mut i: usize = 0;
    while i < c.history.generations.len()
        invariant
            i <= c.history.generations@.len(),
            seen.len() == all@.len(),
            forall|k: int| 0 <= k < all@.len() ==> seen[k] == #[trigger] all@[k],
            forall|k: int| 0 <= k < all@.len() ==> #[trigger] all@[k] < c.history.generations@.len(),
            seen + promotions_from(*c, i as int) == promotions_from(*c, 0),
        decreases c.history.generations@.len() - i,
    {
        if is_promoted_exactly(c, &c.history.generations[i]) {
            proof {
                let rest = promotions_from(*c, i + 1);
                assert(seen.push(i as int) + rest =~= seen + (seq![i as int] + rest));
                seen = seen.push(i as int);
            }
            all.push(i);
        }
        i += 1;
    }
    assert(seen + promotions_from(*c, i as int) =~= seen);
    if all.len() == 1 {
        Some(all[0])
    } else {
        None
    }
}

/// Whether the stored final source is the one that the run expects.
pub open spec fn expected_final(c: Case<'_>, run: RunRecord, final_source: SourceStateRef) -> bool {
    match history::document(c.history.documents.sources@, run.expected, 0) {
        Some(snapshot) => match snapshot.source {
            Some(s) => model::same_source_ref(s, final_source),
            None => false,
        },
        None => false,
    }
}

/// Whether an integration job decided exactly this candidate and final source.
pub open spec fn integrated_by(
    c: Case<'_>,
    job: RuntimeJob,
    proof: VerificationPacket,
    final_source: SourceStateRef,
    g: Generation,
) -> bool {
    bound_verifier(c, None, job, proof) && match history::document(
        c.history.documents.inputs@,
        job.input,
        0,
    ) {
        Some(input) => match (input.footprint, input.target) {
            (Some(footprint), Some(target)) => model::same_source_ref(input.source, final_source)
                && integration_of(c, target) && reached_by(g, footprint),
            _ => false,
        },
        None => false,
    }
}

fn is_integrated_by(
    c: &Case<'_>,
    job: &RuntimeJob,
    proof: &VerificationPacket,
    final_source: &SourceStateRef,
    g: &Generation,
) -> (r: bool)
    ensures
        r == integrated_by(*c, *job, *proof, *final_source, *g),
{
    bound_verifier_job(c, None, job, proof) && match history::read(
        &c.history.documents.inputs,
        &job.input,
    ) {
        Some(input) => match (&input.footprint, &input.target) {
            (Some(footprint), Some(target)) => input.source.same(final_source) && is_integration_of(
                c,
                target,
            ) && is_reached_by(g, footprint),
            _ => false,
        },
        None => false,
    }
}

pub const INTEGRATED_DETAIL: &'static str =
    "the COMPLETE plan, PASS target, final source, integration job, and uniquely promoted plan candidate identify one transactional outcome";

/// What a completed plan shows of its integration.
pub open spec fn integration_evidence(c: Case<'_>) -> Option<EvidenceView> {
    match (c.view.integration_proof, c.view.final_source, c.history.run, sole_promotion(c)) {
        (Some(proof), Some(final_source), Some(run), Some(g)) => match record::job_at(
            c.history.jobs@,
            proof.verifier_job_id@,
            0,
        ) {
            Some(k) => if c.view.state == PlanState::Complete && proof.decision
                == VerificationDecision::Pass && integration_of(c, proof.target)
                && expected_final(c, run, final_source) && run.state == RunState::Complete
                && integrated_by(
                c,
                c.history.jobs@[k],
                proof,
                final_source,
                c.history.generations@[g],
            ) {
                Some(
                    EvidenceView {
                        verifier_job_id: Some(proof.verifier_job_id@),
                        generation_id: Some(c.history.generations@[g].generation_id@),
                        artifact_hash: Some(run.expected.hash@),
                        ..bare(CapabilityEvidenceKind::IntegrationAcceptance, INTEGRATED_DETAIL@)
                    },
                )
            } else {
                None
            },
            None => None,
        },
        _ => None,
    }
}

fn show_integration(c: &Case<'_>) -> (r: Option<CapabilityEvidence>)
    ensures
        match r {
            Some(e) => integration_evidence(*c) == Some(e@),
            None => integration_evidence(*c) is None,
        },
{
    if c.view.state != PlanState::Complete {
        return None;
    }
    match (
        &c.view.integration_proof,
        &c.view.final_source,
        &c.history.run,
        find_sole_promotion(c),
    ) {
        (Some(proof), Some(final_source), Some(run), Some(g)) => match record::find_job(
            &c.history.jobs,
            proof.verifier_job_id.as_str(),
        ) {
            Some(k) => {
                let expected: bool = match history::read(
                    &c.history.documents.sources,
                    &run.expected,
                ) {
                    Some(snapshot) => match &snapshot.source {
                        Some(s) => s.same(final_source),
                        None => false,
                    },
                    None => false,
                };
                let generation: &Generation = &c.history.generations[g];
                if expected && proof.decision == VerificationDecision::Pass && is_integration_of(
                    c,
                    &proof.target,
                ) && run.state == RunState::Complete && is_integrated_by(
                    c,
                    &c.history.jobs[k],
                    proof,
                    final_source,
                    generation,
                ) {
                    let mut evidence: CapabilityEvidence = CapabilityEvidence::new(
                        CapabilityEvidenceKind::IntegrationAcceptance,
                        INTEGRATED_DETAIL,
                    );
                    evidence.verifier_job_id = Some(proof.verifier_job_id.clone());
                    evidence.generation_id = Some(generation.generation_id.clone());
                    evidence.artifact_hash = Some(run.expected.hash.clone());
                    Some(evidence)
                } else {
                    None
                }
            },
            None => None,
        },
        _ => None,
    }
}

/// Whether the plan was integrated and its candidate accepted in one outcome.
pub open spec fn integration_finding(c: Case<'_>) -> FindingView {
    found(
        ControlPlaneCapability::AtomicallyIntegrateAndAcceptFinalTruth,
        shown_or(integration_evidence(c) is Some, c.unrun()),
        optional(integration_evidence(c)),
        "the plan lacks a uniquely bound COMPLETE/PASS/final-source/candidate acceptance outcome"@,
    )
}

fn find_integration(c: &Case<'_>) -> (r: CapabilityFinding)
    ensures
        r@ == integration_finding(*c),
{
    let mut out: Vec<CapabilityEvidence> = Vec::new();
    let shown: Option<CapabilityEvidence> = show_integration(c);
    push_optional(&mut out, shown, Ghost(integration_evidence(*c)));
    assert(views(out@) =~= optional(integration_evidence(*c)));
    assert(views(out@).len() == out@.len());
    finding(
        ControlPlaneCapability::AtomicallyIntegrateAndAcceptFinalTruth,
        status_of(out.len() > 0, c.history.run.is_none()),
        out,
        "the plan lacks a uniquely bound COMPLETE/PASS/final-source/candidate acceptance outcome",
    )
}

// ---------------------------------------------------------------------------
// The report
// ---------------------------------------------------------------------------

/// Everything that is found of a plan.
pub open spec fn findings(c: Case<'_>) -> Seq<FindingView> {
    seq![
        verified_finding(c),
        dependency_finding(c),
        candidate_finding(c),
        failure_finding(c),
        drift_finding(c),
        context_finding(c),
        structural_finding(c),
        resumed_finding(c),
        integration_finding(c),
    ]
}

/// What some findings say.
pub open spec fn finding_views(v: Seq<CapabilityFinding>) -> Seq<FindingView> {
    v.map_values(|f: CapabilityFinding| f@)
}

/// Whether two optional sources are the same.
pub open spec fn same_final(a: Option<SourceStateRef>, b: Option<SourceStateRef>) -> bool {
    match (a, b) {
        (Some(x), Some(y)) => model::same_source_ref(x, y),
        (None, None) => true,
        _ => false,
    }
}

/// Whether a report is the one of a plan.
pub open spec fn reports(report: ControlPlaneCapabilityReport, c: Case<'_>) -> bool {
    &&& report.version@ == "1"@
    &&& report.repository_id@ == c.repository_id@
    &&& report.workspace_id@ == c.workspace_id@
    &&& report.plan_id@ == c.id()
    &&& report.plan_state == c.view.state
    &&& report.accepted_generation_id == c.history.accepted_generation_id
    &&& same_final(report.final_source, c.view.final_source)
    &&& finding_views(report.capabilities@) == findings(c)
}

fn inspect(c: &Case<'_>) -> (r: Result<ControlPlaneCapabilityReport, Error>)
    ensures
        crate::error::settles(r, unreadable(*c, 0)),
        r matches Ok(report) ==> reports(report, *c),
{
    let structural: CapabilityFinding = match find_structural(c) {
        Ok(f) => f,
        Err(e) => return Err(e),
    };
    let verified: CapabilityFinding = find_verified(c);
    let dependency: CapabilityFinding = find_dependency(c, &verified.evidence);
    let candidate: CapabilityFinding = find_candidate(c);
    let failure: CapabilityFinding = find_failure(c);
    let drift: CapabilityFinding = find_drift(c);
    let context: CapabilityFinding = find_context(c);
    let resumed: CapabilityFinding = find_resumed(c);
    let integration: CapabilityFinding = find_integration(c);
    let mut capabilities: Vec<CapabilityFinding> = Vec::new();
    capabilities.push(verified);
    capabilities.push(dependency);
    capabilities.push(candidate);
    capabilities.push(failure);
    capabilities.push(drift);
    capabilities.push(context);
    capabilities.push(structural);
    capabilities.push(resumed);
    capabilities.push(integration);
    assert(finding_views(capabilities@) =~= findings(*c));
    let final_source: Option<SourceStateRef> = match &c.view.final_source {
        Some(s) => Some(
            SourceStateRef {
                head_commit: s.head_commit.clone(),
                worktree_diff_hash: s.worktree_diff_hash.clone(),
            },
        ),
        None => None,
    };
    Ok(
        ControlPlaneCapabilityReport {
            version: "1".to_owned(),
            repository_id: c.repository_id.to_owned(),
            workspace_id: c.workspace_id.to_owned(),
            plan_id: c.plan().to_owned(),
            plan_state: c.view.state,
            accepted_generation_id: c.history.accepted_generation_id.clone(),
            final_source,
            capabilities,
        },
    )
}

impl Store {
    /// What the durable history of a plan demonstrates.
    pub fn control_plane_capabilities(&self, info: &RepositoryInfo, id: &str, history: &History) -> (r:
        Result<ControlPlaneCapabilityReport, Error>)
        ensures
            match store::plan_at(self.plans@, info.workspace_id@, id@, 0) {
                Some(k) => exists|c: Case<'_>|
                    {
                        &&& c.repository_id@ == info.repository_id@
                        &&& c.workspace_id@ == info.workspace_id@
                        &&& *c.view == self.plans@[k].view
                        &&& *c.history == *history
                        &&& crate::error::settles(r, #[trigger] unreadable(c, 0))
                        &&& (r matches Ok(report) ==> reports(report, c))
                    },
                None => crate::error::refused(r, plan::PLAN_NOT_FOUND@),
            },
    {
        let view: &ExecutionPlanView = match self.execution_plan(&info.workspace_id, id) {
            Ok(view) => view,
            Err(e) => return Err(e),
        };
        let c: Case<'_> = Case {
            repository_id: info.repository_id.as_str(),
            workspace_id: info.workspace_id.as_str(),
            view,
            history,
        };
        inspect(&c)
    }
}

// ---------------------------------------------------------------------------
// Laws
// ---------------------------------------------------------------------------

proof fn lemma_unlocks_of(c: Case<'_>, task: TaskPacket, d: int)
    requires
        0 <= d <= task.dependencies@.len(),
        unlocked(c, task),
    ensures
        unlocks_of(c, task, d).len() == task.dependencies@.len() - d,
    decreases task.dependencies@.len() - d,
{
    if d < task.dependencies@.len() {
        let dependency = task.dependencies@[d];
        assert(unlock(c, task.task_id@, dependency@) is Some);
        lemma_unlocks_of(c, task, d + 1);
    }
}

proof fn lemma_unlocks_from(c: Case<'_>, t: int, k: int)
    requires
        0 <= t <= k < c.view.plan.packet.tasks@.len(),
        all_unlocked(c),
        c.view.plan.packet.tasks@[k].dependencies@.len() > 0,
    ensures
        unlocks_from(c, t).len() > 0,
    decreases k - t,
{
    let task = c.view.plan.packet.tasks@[t];
    assert(unlocked(c, task));
    lemma_unlocks_of(c, task, 0);
    if t < k {
        lemma_unlocks_from(c, t + 1, k);
    }
}

/// No capability is reported as supported without evidence of it.
pub proof fn law_support_is_evidenced(c: Case<'_>, i: int)
    requires
        0 <= i < findings(c).len(),
        findings(c)[i].status == CapabilityStatus::Supported,
    ensures
        findings(c)[i].evidence.len() > 0,
        findings(c)[i].limitations.len() == 0,
{
    if i == 1 {
        assert(has_dependency(c) && all_unlocked(c));
        let k = choose|t: int|
            0 <= t < c.view.plan.packet.tasks@.len() && (
            #[trigger] c.view.plan.packet.tasks@[t]).dependencies@.len() > 0;
        lemma_unlocks_from(c, 0, k);
    }
}

/// The report speaks of every capability, once.
pub proof fn law_every_capability_is_reported_once(c: Case<'_>, capability: ControlPlaneCapability)
    ensures
        exists|i: int|
            0 <= i < findings(c).len() && (#[trigger] findings(c)[i]).capability == capability,
        forall|i: int, j: int|
            0 <= i < j < findings(c).len() ==> (#[trigger] findings(c)[i]).capability != (
            #[trigger] findings(c)[j]).capability,
{
    let all = findings(c);
    assert(all[0].capability
        == ControlPlaneCapability::ExecuteAndIndependentlyVerifyBoundedTask);
    assert(all[1].capability == ControlPlaneCapability::PreserveDependencyLockUntilVerification);
    assert(all[2].capability == ControlPlaneCapability::KeepCandidateSeparateFromAcceptedTruth);
    assert(all[3].capability
        == ControlPlaneCapability::RejectFailureWithoutAdvancingAcceptedTruth);
    assert(all[4].capability == ControlPlaneCapability::RefuseStaleSource);
    assert(all[5].capability == ControlPlaneCapability::MediateContextEscalation);
    assert(all[6].capability == ControlPlaneCapability::ExposeStructuralEvidenceToIntegration);
    assert(all[7].capability == ControlPlaneCapability::ResumeDurableWorkToCompletion);
    assert(all[8].capability == ControlPlaneCapability::AtomicallyIntegrateAndAcceptFinalTruth);
}

/// A plan that is reported to have contained a failure, or to have refused stale
/// source, accepted nothing and did not complete.
pub proof fn law_contained_failures_accept_nothing(c: Case<'_>, i: int)
    requires
        0 <= i < c.history.generations@.len(),
        failure_finding(c).status == CapabilityStatus::Supported || drift_finding(c).status
            == CapabilityStatus::Supported,
    ensures
        !promoted(c, c.history.generations@[i]),
        c.view.state != PlanState::Complete,
{
}

proof fn lemma_verified_independent(c: Case<'_>, i: int, k: int)
    requires
        0 <= i,
        0 <= k < verified_from(c, i).len(),
    ensures
        verified_from(c, i)[k].executor_job_id is Some,
        verified_from(c, i)[k].verifier_job_id is Some,
        verified_from(c, i)[k].executor_job_id != verified_from(c, i)[k].verifier_job_id,
    decreases c.history.transitions@.len() - i,
{
    match verified_evidence(c, i) {
        Some(e) => {
            lemma_job_at(c.history.jobs@, e.executor_job_id->0, 0);
            lemma_job_at(c.history.jobs@, e.verifier_job_id->0, 0);
            if k > 0 {
                assert(verified_from(c, i)[k] == verified_from(c, i + 1)[k - 1]);
                lemma_verified_independent(c, i + 1, k - 1);
            }
        },
        None => {
            lemma_verified_independent(c, i + 1, k);
        },
    }
}

proof fn lemma_job_at(jobs: Seq<RuntimeJob>, id: Seq<char>, i: int)
    requires
        0 <= i,
    ensures
        record::job_at(jobs, id, i) matches Some(k) ==> i <= k < jobs.len() && jobs[k].job_id@
            == id,
    decreases jobs.len() - i,
{
    if i < jobs.len() && jobs[i].job_id@ != id {
        lemma_job_at(jobs, id, i + 1);
    }
}

/// Whoever verified a task is never the job that executed it.
pub proof fn law_verified_tasks_have_independent_verifiers(c: Case<'_>, k: int)
    requires
        0 <= k < verified_finding(c).evidence.len(),
    ensures
        verified_finding(c).evidence[k].executor_job_id is Some,
        verified_finding(c).evidence[k].verifier_job_id is Some,
        verified_finding(c).evidence[k].executor_job_id
            != verified_finding(c).evidence[k].verifier_job_id,
{
    lemma_verified_independent(c, 0, k);
}

} // verus!
