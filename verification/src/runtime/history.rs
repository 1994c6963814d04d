//! The durable history of a plan: what its jobs, its journal, its artifacts and
//! the ontology recorded of it.
use crate::graph::GraphGeneration;
use crate::planning::model::SourceStateRef;
use crate::protocol::{AgentRole, TaskState, VerificationPacket, VerificationTarget};
use crate::runtime::context::{ContextDecision, ContextDelta, ContextResolution};
use crate::runtime::record::{RunRecord, RuntimeJob};
use crate::source::ArtifactRef;
use crate::text;
use vstd::prelude::*;

verus! {

/// A change of a task's state, and the decision that justified it.
#[derive(Debug, PartialEq, Eq)]
pub struct TaskTransition {
    pub sequence: i64,
    pub task: String,
    pub to: TaskState,
    pub proof: Option<VerificationPacket>,
}

/// A phase that the runtime went through.
#[derive(Debug, PartialEq, Eq)]
pub struct Phase {
    pub sequence: i64,
    pub phase: String,
    pub job: Option<String>,
}

#[derive(Debug, Clone, Copy, PartialEq, Eq, Structural)]
pub enum GenerationState {
    Candidate,
    Accepted,
    Rejected,
    Retired,
}

/// The name of a generation's state as it appears in evidence.
pub open spec fn generation_state_name(state: GenerationState) -> Seq<char> {
    match state {
        GenerationState::Candidate => "Candidate"@,
        GenerationState::Accepted => "Accepted"@,
        GenerationState::Rejected => "Rejected"@,
        GenerationState::Retired => "Retired"@,
    }
}

impl GenerationState {
    pub fn name(self) -> (r: &'static str)
        ensures
            r@ == generation_state_name(self),
    {
        match self {
            GenerationState::Candidate => "Candidate",
            GenerationState::Accepted => "Accepted",
            GenerationState::Rejected => "Rejected",
            GenerationState::Retired => "Retired",
        }
    }
}

/// Why the life of a generation was decided.
#[derive(Debug, Clone, Copy, PartialEq, Eq, Structural)]
pub enum DecisionReason {
    IntegrationVerified,
    IntegrationRejected,
    VerificationRejected,
    Other,
}

#[derive(Debug, PartialEq, Eq)]
pub struct GenerationDecision {
    pub reason: DecisionReason,
    pub plan_id: Option<String>,
    pub verification_hash: Option<String>,
    pub source_hash: Option<String>,
}

/// Whose work a generation observed.
#[derive(Debug, PartialEq, Eq)]
pub enum GenerationOrigin {
    Runtime { plan_id: String, task_id: Option<String> },
    External,
}

/// One generation of the ontology.
#[derive(Debug, PartialEq, Eq)]
pub struct Generation {
    pub generation_id: String,
    pub state: GenerationState,
    pub base: Option<String>,
    pub origin: GenerationOrigin,
    pub generation: GraphGeneration,
    pub snapshot: String,
    pub acceptance: Option<GenerationDecision>,
    pub closure: Option<GenerationDecision>,
}

/// The structural difference that an integration verifier was shown.
#[derive(Debug, PartialEq, Eq)]
pub struct Footprint {
    pub workspace_id: String,
    pub plan_id: String,
    pub from_generation_id: String,
    pub to_generation_id: String,
    pub to_generation: GraphGeneration,
    pub to_snapshot: String,
}

/// What a job was issued.
#[derive(Debug, PartialEq, Eq)]
pub struct JobInput {
    pub repository_id: String,
    pub workspace_id: String,
    pub plan_id: Option<String>,
    pub task_id: Option<String>,
    pub job_id: String,
    pub role: AgentRole,
    pub source: SourceStateRef,
    pub target: Option<VerificationTarget>,
    pub footprint: Option<Footprint>,
    /// The canonical JSON of every context delta that the input carries.
    pub deltas: Vec<String>,
}

/// A captured source, by what identifies it.
#[derive(Debug, PartialEq, Eq)]
pub struct CapturedSource {
    pub repository_id: String,
    pub workspace_id: String,
    pub head: Option<String>,
    pub source: Option<SourceStateRef>,
}

/// Captured changes, by whose they are and what they lead to.
#[derive(Debug, PartialEq, Eq)]
pub struct CapturedChanges {
    pub plan_id: String,
    pub task_id: Option<String>,
    pub executor_job_id: Option<String>,
    pub after: ArtifactRef,
}

/// A request for context, by whose it is.
#[derive(Debug, PartialEq, Eq)]
pub struct RequestedContext {
    pub job_id: String,
    pub task_id: Option<String>,
}

/// A context delta and its canonical JSON.
#[derive(Debug, PartialEq, Eq)]
pub struct StoredDelta {
    pub delta: ContextDelta,
    pub content: String,
}

/// A readable document, under its hash.
#[derive(Debug, PartialEq, Eq)]
pub struct Document<T> {
    pub hash: String,
    pub value: T,
}

/// The documents of a plan that can be read, by what they are.
#[derive(Debug, PartialEq, Eq)]
pub struct Documents {
    pub inputs: Vec<Document<JobInput>>,
    pub proofs: Vec<Document<VerificationPacket>>,
    pub sources: Vec<Document<CapturedSource>>,
    pub changes: Vec<Document<CapturedChanges>>,
    pub requests: Vec<Document<RequestedContext>>,
    pub resolutions: Vec<Document<ContextResolution>>,
    pub decisions: Vec<Document<ContextDecision>>,
    pub deltas: Vec<Document<StoredDelta>>,
    /// What is said of a document that cannot be read.
    pub unreadable: String,
}

/// The document that a reference leads to, looked up from the `i`-th on.
pub open spec fn document<T>(list: Seq<Document<T>>, r: ArtifactRef, i: int) -> Option<T>
    decreases list.len() - i,
{
    if i < 0 || i >= list.len() {
        None
    } else if list[i].hash@ == r.hash@ {
        Some(list[i].value)
    } else {
        document(list, r, i + 1)
    }
}

pub fn read<'a, T>(list: &'a Vec<Document<T>>, reference: &ArtifactRef) -> (r: Option<&'a T>)
    ensures
        match r {
            Some(v) => document(list@, *reference, 0) == Some(*v),
            None => document(list@, *reference, 0) is None,
        },
{
    let mut i: usize = 0;
    while i < list.len()
        invariant
            i <= list@.len(),
            document(list@, *reference, 0) == document(list@, *reference, i as int),
        decreases list@.len() - i,
    {
        if text::same(list[i].hash.as_str(), reference.hash.as_str()) {
            return Some(&list[i].value);
        }
        i += 1;
    }
    None
}

/// The durable history of one plan. Jobs are listed once each; transitions and
/// phases are in journal order.
#[derive(Debug, PartialEq, Eq)]
pub struct History {
    pub run: Option<RunRecord>,
    pub jobs: Vec<RuntimeJob>,
    pub transitions: Vec<TaskTransition>,
    pub phases: Vec<Phase>,
    pub generations: Vec<Generation>,
    pub documents: Documents,
    /// The hashes of the stored integration proof and final source.
    pub proof_hash: String,
    pub source_hash: String,
    pub accepted_generation_id: Option<String>,
}

} // verus!
