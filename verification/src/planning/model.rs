//! Planning requests, the context prepared for them, and execution plans.
use crate::graph;
use crate::graph::{ContextPacket, Provenance};
use crate::ids;
use crate::planning::scope;
use crate::planning::scope::{ProtectedPath, ScopePath};
use crate::protocol::{
    CommandSpec, PlanPacket, ProtocolVersion, ProviderMetadata, TaskPacket, TaskState,
    VerificationPacket, VerificationRequirements,
};
use crate::repository;
use crate::repository::RepositorySourceState;
use crate::text;
use vstd::prelude::*;
use vstd::string::*;

verus! {

pub const REQUEST_PREFIX: &'static str = "request:";

pub const REQUEST_ID_RULE: &'static str = "planning request ID must start with request:";

/// The identity of a prepared planning request.
#[derive(Debug, PartialEq, Eq)]
pub struct PlanningRequestId(String);

impl View for PlanningRequestId {
    type V = Seq<char>;

    closed spec fn view(&self) -> Seq<char> {
        self.0@
    }
}

/// Why a text is not the identity of a planning request, if anything.
pub open spec fn request_id_refusal(s: Seq<char>) -> Option<Seq<char>> {
    if !ids::is_identifier(s) {
        Some(ids::IDENTIFIER_RULE@)
    } else if !text::begins(s, REQUEST_PREFIX@) {
        Some(REQUEST_ID_RULE@)
    } else {
        None
    }
}

impl PlanningRequestId {
    #[verifier::type_invariant]
    spec fn well_formed(self) -> bool {
        request_id_refusal(self.0@) is None
    }

    pub fn new(s: String) -> (r: Result<Self, String>)
        ensures
            match r {
                Ok(id) => request_id_refusal(s@) is None && id@ == s@,
                Err(m) => request_id_refusal(s@) == Some(m@),
            },
    {
        if !ids::identifier(s.as_str()) {
            return Err(ids::IDENTIFIER_RULE.to_owned());
        }
        if !text::starts_with(s.as_str(), REQUEST_PREFIX) {
            return Err(REQUEST_ID_RULE.to_owned());
        }
        Ok(PlanningRequestId(s))
    }

    pub fn as_str(&self) -> (r: &str)
        ensures
            r@ == self@,
            request_id_refusal(r@) is None,
    {
        proof {
            use_type_invariant(self);
        }
        self.0.as_str()
    }

    /// The text of an identity.
    pub fn into_string(self) -> (r: String)
        ensures
            r@ == self@,
    {
        self.0
    }
}

impl Clone for PlanningRequestId {
    fn clone(&self) -> (r: Self)
        ensures
            r@ == self@,
    {
        proof {
            use_type_invariant(self);
        }
        PlanningRequestId(self.0.clone())
    }
}

#[derive(Debug, PartialEq, Eq)]
pub struct PlanningProvenance {
    pub actor: String,
    pub source_refs: Vec<String>,
    pub provider: Option<ProviderMetadata>,
}

#[derive(Debug, Clone, Copy, PartialEq, Eq, Structural)]
pub enum SourceGuarantee {
    SequentialObservationNotExactDiff,
}

/// The source that a plan was prepared against.
#[derive(Debug, PartialEq, Eq)]
pub struct PlanningSource {
    pub observation: RepositorySourceState,
    pub policy_hash: String,
    pub graph_version: String,
    pub support: Vec<Provenance>,
    pub guarantee: SourceGuarantee,
}

/// Whether two source assumptions are the same.
pub open spec fn same_source(a: PlanningSource, b: PlanningSource) -> bool {
    &&& repository::same_observation(a.observation, b.observation)
    &&& a.policy_hash@ == b.policy_hash@
    &&& a.graph_version@ == b.graph_version@
    &&& graph::same_support(a.support@, b.support@)
    &&& a.guarantee == b.guarantee
}

impl PlanningSource {
    pub fn same(&self, other: &Self) -> (r: bool)
        ensures
            r == same_source(*self, *other),
    {
        self.observation.same(&other.observation) && text::same(
            self.policy_hash.as_str(),
            other.policy_hash.as_str(),
        ) && text::same(self.graph_version.as_str(), other.graph_version.as_str())
            && graph::support_same(&self.support, &other.support) && self.guarantee
            == other.guarantee
    }

    pub fn copy(&self) -> (r: Self)
        ensures
            same_source(r, *self),
    {
        PlanningSource {
            observation: self.observation.clone(),
            policy_hash: self.policy_hash.clone(),
            graph_version: self.graph_version.clone(),
            support: graph::copied_support(&self.support),
            guarantee: self.guarantee,
        }
    }
}

/// What a user asked to have planned.
#[derive(Debug, PartialEq, Eq)]
pub struct RequestDraft {
    pub objective: String,
    /// Optional narrower lexical query; never interpreted as a prompt.
    pub query: Option<String>,
    pub scope: Vec<ScopePath>,
    pub constraints: Vec<String>,
    pub definition_of_done: Vec<String>,
    pub verification: Option<VerificationRequirements>,
    pub invariant_refs: Vec<String>,
    pub provenance: PlanningProvenance,
}

/// Whether two optional checks ask for the same.
pub open spec fn same_checks(
    a: Option<VerificationRequirements>,
    b: Option<VerificationRequirements>,
) -> bool {
    match (a, b) {
        (Some(x), Some(y)) => text::texts(x.requirement_refs@) == text::texts(y.requirement_refs@)
            && x.evidence_required == y.evidence_required,
        (None, None) => true,
        _ => false,
    }
}

/// Whether something has the same provenance.
pub open spec fn same_provenance(a: PlanningProvenance, b: PlanningProvenance) -> bool {
    &&& a.actor@ == b.actor@
    &&& text::texts(a.source_refs@) == text::texts(b.source_refs@)
    &&& match (a.provider, b.provider) {
        (Some(x), Some(y)) => x.provider@ == y.provider@ && x.model@ == y.model@,
        (None, None) => true,
        _ => false,
    }
}

/// Whether two drafts ask for the same but for the invariants that they name.
pub open spec fn same_intent(a: RequestDraft, b: RequestDraft) -> bool {
    &&& a.objective@ == b.objective@
    &&& text::same_option(a.query, b.query)
    &&& scope::same_scopes(a.scope@, b.scope@)
    &&& text::texts(a.constraints@) == text::texts(b.constraints@)
    &&& text::texts(a.definition_of_done@) == text::texts(b.definition_of_done@)
    &&& same_checks(a.verification, b.verification)
    &&& same_provenance(a.provenance, b.provenance)
}

impl RequestDraft {
    /// Whether two drafts ask for the same but for the invariants that they name.
    pub fn same(&self, other: &Self) -> (r: bool)
        ensures
            r == same_intent(*self, *other),
    {
        let checked: bool = match (&self.verification, &other.verification) {
            (Some(x), Some(y)) => text::same_texts(&x.requirement_refs, &y.requirement_refs)
                && x.evidence_required == y.evidence_required,
            (None, None) => true,
            _ => false,
        };
        let provided: bool = match (&self.provenance.provider, &other.provenance.provider) {
            (Some(x), Some(y)) => text::same(x.provider.as_str(), y.provider.as_str())
                && text::same(x.model.as_str(), y.model.as_str()),
            (None, None) => true,
            _ => false,
        };
        checked && provided && text::same(self.objective.as_str(), other.objective.as_str())
            && text::same_optional(&self.query, &other.query) && scope::scopes_same(
            &self.scope,
            &other.scope,
        ) && text::same_texts(&self.constraints, &other.constraints) && text::same_texts(
            &self.definition_of_done,
            &other.definition_of_done,
        ) && text::same(self.provenance.actor.as_str(), other.provenance.actor.as_str())
            && text::same_texts(&self.provenance.source_refs, &other.provenance.source_refs)
    }
}

#[derive(Debug, PartialEq, Eq)]
pub struct PlanningRequest {
    pub version: ProtocolVersion,
    pub request_id: PlanningRequestId,
    pub intent: RequestDraft,
    pub source: PlanningSource,
    pub created_at_ms: u64,
}

/// Bounds on the ontology part of a planning packet.
#[derive(Debug, Clone, Copy, PartialEq, Eq, Structural)]
pub struct GraphLimits {
    pub primary: usize,
    pub depth: usize,
    pub neighbors: usize,
    pub tests: usize,
}

/// Bounds on the memory part of a planning packet.
#[derive(Debug, Clone, Copy, PartialEq, Eq, Structural)]
pub struct MemoryLimits {
    pub canonical: usize,
    pub facts: usize,
    pub notes: usize,
    pub bytes: usize,
}

#[derive(Debug, Clone, Copy, PartialEq, Eq, Structural)]
pub struct PlanningLimits {
    pub graph: GraphLimits,
    pub memory: MemoryLimits,
    pub files: usize,
    pub excerpt_bytes: usize,
    pub excerpt_lines: usize,
    pub bytes: usize,
}

pub const LIMITS_RULE: &'static str =
    "planning limits: 4–128 KiB total, 1–16 files, 0–4096 excerpt bytes, 0–80 lines";

/// Whether planning limits stay inside their bounds.
pub open spec fn limits_ok(l: PlanningLimits) -> bool {
    4096 <= l.bytes <= 131072 && 1 <= l.files <= 16 && l.excerpt_bytes <= 4096 && l.excerpt_lines
        <= 80
}

impl PlanningLimits {
    pub fn in_range(&self) -> (r: bool)
        ensures
            r == limits_ok(*self),
    {
        4096 <= self.bytes && self.bytes <= 131072 && 1 <= self.files && self.files <= 16
            && self.excerpt_bytes <= 4096 && self.excerpt_lines <= 80
    }
}

impl Default for PlanningLimits {
    fn default() -> (r: Self)
        ensures
            r == (PlanningLimits {
                graph: (GraphLimits { primary: 4, depth: 1, neighbors: 8, tests: 4 }),
                memory: (MemoryLimits { canonical: 4, facts: 3, notes: 0, bytes: 4096 }),
                files: 8,
                excerpt_bytes: 768,
                excerpt_lines: 20,
                bytes: 32768,
            }),
            limits_ok(r),
    {
        PlanningLimits {
            graph: GraphLimits { primary: 4, depth: 1, neighbors: 8, tests: 4 },
            memory: MemoryLimits { canonical: 4, facts: 3, notes: 0, bytes: 4096 },
            files: 8,
            excerpt_bytes: 768,
            excerpt_lines: 20,
            bytes: 32768,
        }
    }
}

/// An exact part of a source file.
#[derive(Debug, PartialEq, Eq)]
pub struct SourceExcerpt {
    pub entity: Option<String>,
    pub provenance: Provenance,
    pub start_byte: usize,
    pub end_byte: usize,
    pub start_line: usize,
    pub text: String,
    pub truncated: bool,
}

/// A memory entry that a planner is shown.
#[derive(Debug, PartialEq, Eq)]
pub struct MemoryItem {
    pub id: String,
    pub content: String,
}

#[derive(Debug, PartialEq, Eq)]
pub struct MemoryContext {
    pub items: Vec<MemoryItem>,
    pub truncated: bool,
}

/// A text that must stay true, under its key.
#[derive(Debug, PartialEq, Eq)]
pub struct Invariant {
    pub key: String,
    pub content: String,
}

/// A verification profile of project policy.
#[derive(Debug, PartialEq, Eq)]
pub struct VerificationProfile {
    pub name: String,
    pub description: String,
    pub command_refs: Vec<String>,
}

/// A command of project policy.
#[derive(Debug, PartialEq, Eq)]
pub struct NamedCommand {
    pub name: String,
    pub command: CommandSpec,
}

/// The project policy that plans and checks refer to.
#[derive(Debug, PartialEq, Eq)]
pub struct ProjectPolicy {
    pub protected: Vec<ProtectedPath>,
    pub verification: Vec<VerificationProfile>,
    pub commands: Vec<NamedCommand>,
    pub invariants: Vec<Invariant>,
    pub max_agents: Option<usize>,
    pub deny_network: bool,
}

#[derive(Debug, PartialEq, Eq)]
pub struct PlanningContext {
    pub graph: ContextPacket,
    pub memory: MemoryContext,
    /// Frozen, validated policy input; not a competing mutable policy store.
    pub policy: ProjectPolicy,
    pub invariants: Vec<Invariant>,
    pub excerpts: Vec<SourceExcerpt>,
    /// Paths outside the selection that editing it would affect.
    pub impact: Option<Vec<String>>,
    pub limits: PlanningLimits,
    pub truncated: bool,
}

#[derive(Debug, PartialEq, Eq)]
pub struct PlannerPacket {
    pub artifact: PlanningArtifactKind,
    pub request: PlanningRequest,
    pub context: PlanningContext,
    /// Compact UTF-8 JSON bytes of this entire envelope, including this field.
    pub serialized_bytes: usize,
}

#[derive(Debug, Clone, Copy, PartialEq, Eq, Structural)]
pub enum PlanningArtifactKind {
    FrozenPlanningInput,
}

#[derive(Debug, Clone, Copy, PartialEq, Eq, Structural)]
pub enum VerifierInput {
    PacketDiffAndEvidence,
}

#[derive(Debug, PartialEq, Eq)]
pub struct VerificationContract {
    pub task_id: String,
    /// Binds objective, scope, invariants, done criteria and checks without
    /// duplicating them.
    pub task_packet_hash: String,
    pub independent_verifier: bool,
    pub input: VerifierInput,
    pub memory_refs: Vec<String>,
    pub exclusions: Vec<ScopePath>,
    pub non_goals: Vec<String>,
}

/// Whether two contracts have the same contents.
pub open spec fn same_contract(a: VerificationContract, b: VerificationContract) -> bool {
    &&& a.task_id == b.task_id
    &&& a.task_packet_hash == b.task_packet_hash
    &&& a.independent_verifier == b.independent_verifier
    &&& a.input == b.input
    &&& a.memory_refs@ == b.memory_refs@
    &&& a.exclusions@ == b.exclusions@
    &&& a.non_goals@ == b.non_goals@
}

impl VerificationContract {
    pub fn copy(&self) -> (r: Self)
        ensures
            same_contract(r, *self),
    {
        VerificationContract {
            task_id: self.task_id.clone(),
            task_packet_hash: self.task_packet_hash.clone(),
            independent_verifier: self.independent_verifier,
            input: self.input,
            memory_refs: text::copied(&self.memory_refs),
            exclusions: crate::planning::scope::copied(&self.exclusions),
            non_goals: text::copied(&self.non_goals),
        }
    }
}

#[derive(Debug, PartialEq, Eq)]
pub struct IntegrationVerificationContract {
    pub plan_id: String,
    pub plan_packet_hash: String,
    pub independent_verifier: bool,
    pub require_all_task_verifications: bool,
    pub require_final_diff_and_evidence: bool,
    pub expectations: Vec<String>,
}

#[derive(Debug, PartialEq, Eq)]
pub struct ReplanReference {
    pub previous_plan_id: String,
    pub reason: String,
    /// Historical references only: never copies VERIFIED state into new tasks.
    pub previously_verified_tasks: Vec<String>,
    pub replaced_tasks: Vec<String>,
}

#[derive(Debug, PartialEq, Eq)]
pub struct PlanMetadata {
    pub version: ProtocolVersion,
    pub request_id: PlanningRequestId,
    pub source: PlanningSource,
    pub created_at_ms: u64,
    pub provenance: PlanningProvenance,
    pub contracts: Vec<VerificationContract>,
    pub integration: IntegrationVerificationContract,
    pub replan: Option<ReplanReference>,
}

/// A plan with what it was prepared against. Its packet is the only definition
/// of its tasks.
#[derive(Debug, PartialEq, Eq)]
pub struct ExecutionPlan {
    pub metadata: PlanMetadata,
    pub packet: PlanPacket,
}

#[derive(Debug, Clone, Copy, PartialEq, Eq, Structural)]
pub enum PlanState {
    Validated,
    Active,
    Complete,
    Superseded,
    Cancelled,
}

/// The name of a plan state as it appears in messages.
pub open spec fn plan_state_name(state: PlanState) -> Seq<char> {
    match state {
        PlanState::Validated => "Validated"@,
        PlanState::Active => "Active"@,
        PlanState::Complete => "Complete"@,
        PlanState::Superseded => "Superseded"@,
        PlanState::Cancelled => "Cancelled"@,
    }
}

impl PlanState {
    pub fn name(self) -> (r: &'static str)
        ensures
            r@ == plan_state_name(self),
    {
        match self {
            PlanState::Validated => "Validated",
            PlanState::Active => "Active",
            PlanState::Complete => "Complete",
            PlanState::Superseded => "Superseded",
            PlanState::Cancelled => "Cancelled",
        }
    }
}

/// The final source of a completed plan.
#[derive(Debug, PartialEq, Eq)]
pub struct SourceStateRef {
    pub head_commit: Option<String>,
    pub worktree_diff_hash: Option<String>,
}

/// Whether two final sources are the same.
pub open spec fn same_source_ref(a: SourceStateRef, b: SourceStateRef) -> bool {
    text::same_option(a.head_commit, b.head_commit) && text::same_option(
        a.worktree_diff_hash,
        b.worktree_diff_hash,
    )
}

impl SourceStateRef {
    pub fn copy(&self) -> (r: Self)
        ensures
            same_source_ref(r, *self),
    {
        SourceStateRef {
            head_commit: match &self.head_commit {
                Some(h) => Some(h.clone()),
                None => None,
            },
            worktree_diff_hash: match &self.worktree_diff_hash {
                Some(h) => Some(h.clone()),
                None => None,
            },
        }
    }

    pub fn same(&self, other: &Self) -> (r: bool)
        ensures
            r == same_source_ref(*self, *other),
    {
        text::same_optional(&self.head_commit, &other.head_commit) && text::same_optional(
            &self.worktree_diff_hash,
            &other.worktree_diff_hash,
        )
    }
}

/// A stored plan and its lifecycle.
#[derive(Debug, PartialEq, Eq)]
pub struct ExecutionPlanView {
    pub plan: ExecutionPlan,
    pub state: PlanState,
    pub updated_at_ms: u64,
    pub superseded_by: Option<String>,
    pub integration_proof: Option<VerificationPacket>,
    pub final_source: Option<SourceStateRef>,
}

/// A task as an operator inspects it.
#[derive(Debug, PartialEq, Eq)]
pub struct TaskInspection {
    pub planning_request_id: PlanningRequestId,
    pub source: PlanningSource,
    pub constraints: Vec<String>,
    pub invariants: Vec<Invariant>,
    pub packet: TaskPacket,
    pub contract: VerificationContract,
    pub state: TaskState,
    pub structurally_ready: bool,
    pub reasons: Vec<String>,
    pub packet_bytes: usize,
    pub contract_bytes: usize,
}

#[derive(Debug, PartialEq, Eq)]
pub struct PlanSummary {
    pub plan_id: String,
    pub state: PlanState,
    pub workspace_id: String,
    pub objective: String,
}

} // verus!
