//! Context that a planner mediates: what a worker is issued at first, what it
//! asks for later, and what becomes of what it asks.
use crate::error::{invalid, Error};
use crate::excerpt;
use crate::graph::{Edge, Entity, EntityKind, GraphGeneration};
use crate::manifest::Authority;
use crate::planning::scope;
use crate::planning::scope::ScopePath;
use crate::planning::validation;
use crate::planning::validation::Objection;
use crate::protocol::{AgentRole, CommandSpec};
use crate::runtime::diffview::utf8_text;
use crate::source::ArtifactRef;
use crate::text;
use vstd::prelude::*;
use vstd::string::*;
use vstd::utf8::*;

verus! {

pub const ISSUED_CONTEXT_VERSION: &'static str = "agentctl-issued-context-1";

pub const DELTA_VERSION: &'static str = "agentctl-context-delta-1";

pub const RESOLUTION_VERSION: &'static str = "agentctl-context-resolution-1";

pub const DECISION_VERSION: &'static str = "agentctl-context-decision-1";

/// Scope additions that one planner decision may approve.
pub const MAX_SCOPE_ADDITIONS: usize = 8;

pub const MEMORY_CHARS: usize = 4096;

/// How much of a signature is shown.
pub const SIGNATURE_CHARS: usize = 512;

// ---------------------------------------------------------------------------
// Issued material
// ---------------------------------------------------------------------------

/// Identity and structural facts of an ontology entity, without source text.
#[derive(Debug, PartialEq, Eq)]
pub struct EntityFacts {
    pub id: String,
    pub kind: EntityKind,
    pub name: String,
    pub qualified_name: String,
    pub path: String,
    pub signature: String,
    pub visibility: Option<String>,
    pub start_line: usize,
    pub end_line: usize,
    pub content_hash: String,
}

/// Whether facts are those of an entity.
pub open spec fn facts_of(f: EntityFacts, e: Entity) -> bool {
    &&& f.id == e.id
    &&& f.kind == e.kind
    &&& f.name == e.name
    &&& f.qualified_name == e.qualified_name
    &&& f.path == e.provenance.path
    &&& f.signature@ == text::clipped(e.signature@, SIGNATURE_CHARS as int)
    &&& f.visibility == e.visibility
    &&& f.start_line == e.range.start_line
    &&& f.end_line == e.range.end_line
    &&& f.content_hash == e.provenance.content_hash
}

impl EntityFacts {
    pub fn of(e: &Entity) -> (r: Self)
        ensures
            facts_of(r, *e),
    {
        EntityFacts {
            id: e.id.clone(),
            kind: e.kind,
            name: e.name.clone(),
            qualified_name: e.qualified_name.clone(),
            path: e.provenance.path.clone(),
            signature: text::clip(e.signature.as_str(), SIGNATURE_CHARS),
            visibility: e.visibility.clone(),
            start_line: e.range.start_line,
            end_line: e.range.end_line,
            content_hash: e.provenance.content_hash.clone(),
        }
    }
}

/// An exact, bounded slice of captured source.
#[derive(Debug, PartialEq, Eq)]
pub struct SourceText {
    pub start_line: usize,
    pub end_line: usize,
    pub text: String,
    pub truncated: bool,
}

/// A resolved structural neighbor, by identity only.
#[derive(Debug, PartialEq, Eq)]
pub struct RelatedEntity {
    pub id: String,
    pub kind: EntityKind,
    pub name: String,
    pub qualified_name: String,
    pub path: String,
    pub content_hash: String,
    pub relation: String,
    pub resolution: Option<String>,
}

/// The neighbor that a relation leads to.
pub open spec fn relates(e: Entity, edge: Edge) -> RelatedEntity {
    RelatedEntity {
        id: e.id,
        kind: e.kind,
        name: e.name,
        qualified_name: e.qualified_name,
        path: e.provenance.path,
        content_hash: e.provenance.content_hash,
        relation: edge.kind,
        resolution: edge.resolution,
    }
}

pub fn related(e: &Entity, edge: &Edge) -> (r: RelatedEntity)
    ensures
        r == relates(*e, *edge),
{
    RelatedEntity {
        id: e.id.clone(),
        kind: e.kind,
        name: e.name.clone(),
        qualified_name: e.qualified_name.clone(),
        path: e.provenance.path.clone(),
        content_hash: e.provenance.content_hash.clone(),
        relation: edge.kind.clone(),
        resolution: edge.resolution.clone(),
    }
}

/// A planner-selected entity: its facts, its bounded definition, and the
/// entities one resolved relation away. `withheld` counts related entities that
/// are not shown.
#[derive(Debug, PartialEq, Eq)]
pub struct IssuedSymbol {
    pub entity: EntityFacts,
    pub definition: Option<SourceText>,
    pub callers: Vec<RelatedEntity>,
    pub callees: Vec<RelatedEntity>,
    pub withheld: usize,
}

/// A planner-named file.
#[derive(Debug, PartialEq, Eq)]
pub struct IssuedFile {
    pub path: String,
    pub authority: Authority,
    /// False for a write target that does not exist yet or is not source.
    pub present: bool,
    pub content_hash: Option<String>,
    pub bytes: Option<u64>,
    pub text: Option<String>,
    pub binary: bool,
    pub truncated: bool,
}

#[derive(Debug, PartialEq, Eq)]
pub struct IssuedMemory {
    pub id: String,
    pub trust: String,
    pub kind: String,
    pub validity: String,
    pub content: String,
    pub content_truncated: bool,
}

/// A task verification requirement dereferenced to its canonical commands.
#[derive(Debug, PartialEq, Eq)]
pub struct IssuedCheck {
    pub requirement: String,
    pub description: String,
    pub commands: Vec<CommandSpec>,
}

/// An executor's base context: planner references, dereferenced.
#[derive(Debug, PartialEq, Eq)]
pub struct IssuedContext {
    pub version: String,
    pub graph_generation: Option<GraphGeneration>,
    pub source_hash: String,
    pub symbols: Vec<IssuedSymbol>,
    pub files: Vec<IssuedFile>,
    pub memory: Vec<IssuedMemory>,
    pub checks: Vec<IssuedCheck>,
    pub truncated: bool,
}

// ---------------------------------------------------------------------------
// Requests, deltas, resolutions and planner decisions
// ---------------------------------------------------------------------------

#[derive(Debug, Clone, Copy, PartialEq, Eq, Structural)]
pub enum RelationDirection {
    Callers,
    Callees,
}

/// One thing that a worker asks for.
#[derive(Debug, PartialEq, Eq)]
pub enum ContextRequestItem {
    SymbolDefinition { entity_id: String },
    SymbolByName { name: String },
    SymbolRelations { entity_id: String, relation: RelationDirection },
    RelatedTests { entity_id: String },
    Neighborhood { entity_id: String, depth: u8 },
    FileRange { path: String, start_line: u32, end_line: u32 },
    Memory { memory_id: String },
}

#[derive(Debug, PartialEq, Eq)]
pub struct TestItem {
    pub entity: EntityFacts,
    pub basis: String,
    pub definition: Option<SourceText>,
}

#[derive(Debug, PartialEq, Eq)]
pub struct RelationFact {
    pub source: String,
    pub target: String,
    pub kind: String,
    pub resolution: Option<String>,
}

/// One resolved answer; `request_index` is the position of the request item it
/// answers. Typed facts and exact source only: no prose.
#[derive(Debug, PartialEq, Eq)]
pub enum DeltaItem {
    Symbol { request_index: usize, entity: EntityFacts, definition: Option<SourceText> },
    Relations {
        request_index: usize,
        subject: String,
        relation: RelationDirection,
        entities: Vec<RelatedEntity>,
        truncated: bool,
    },
    Tests { request_index: usize, subject: String, tests: Vec<TestItem>, truncated: bool },
    Neighborhood {
        request_index: usize,
        subject: String,
        depth: u8,
        entities: Vec<EntityFacts>,
        relations: Vec<RelationFact>,
        truncated: bool,
    },
    FileRange {
        request_index: usize,
        path: String,
        content_hash: String,
        start_line: u32,
        end_line: u32,
        text: String,
    },
    Memory { request_index: usize, memory: IssuedMemory },
}

/// The entity, path or memory that an item is about.
pub open spec fn reference_of(item: DeltaItem) -> String {
    match item {
        DeltaItem::Symbol { entity, .. } => entity.id,
        DeltaItem::Relations { subject, .. } => subject,
        DeltaItem::Tests { subject, .. } => subject,
        DeltaItem::Neighborhood { subject, .. } => subject,
        DeltaItem::FileRange { path, .. } => path,
        DeltaItem::Memory { memory, .. } => memory.id,
    }
}

impl DeltaItem {
    /// The entity, path or memory that this item is about.
    pub fn reference(&self) -> (r: String)
        ensures
            r == reference_of(*self),
    {
        match self {
            DeltaItem::Symbol { entity, .. } => entity.id.clone(),
            DeltaItem::Relations { subject, .. } => subject.clone(),
            DeltaItem::Tests { subject, .. } => subject.clone(),
            DeltaItem::Neighborhood { subject, .. } => subject.clone(),
            DeltaItem::FileRange { path, .. } => path.clone(),
            DeltaItem::Memory { memory, .. } => memory.id.clone(),
        }
    }
}

#[derive(Debug, PartialEq, Eq)]
pub enum Grant {
    /// Resolved entirely inside the planner-authored envelope.
    Automatic,
    /// Released by an explicit planner decision, bound by its artifact hash.
    PlannerApproved { decision_hash: String, scope_additions: Vec<ScopePath> },
}

/// Approved additional context for one worker subject and round, bound to the
/// request, ontology generation and source state it was derived from.
#[derive(Debug, PartialEq, Eq)]
pub struct ContextDelta {
    pub version: String,
    pub delta_id: String,
    pub plan_id: String,
    pub task_id: Option<String>,
    pub role: AgentRole,
    /// The job whose request this delta answers.
    pub parent_job_id: String,
    pub request_hash: String,
    /// The round of the fresh job this delta is issued to, from one on.
    pub round: u32,
    pub graph_generation: Option<GraphGeneration>,
    pub source_hash: String,
    pub grant: Grant,
    pub items: Vec<DeltaItem>,
    /// Compact JSON bytes of the items.
    pub bytes: usize,
}

#[derive(Debug, Clone, Copy, PartialEq, Eq, Structural)]
pub enum ItemOutcome {
    Granted,
    OutsideEnvelope,
    NotFound,
    Ambiguous,
    Stale,
    NotSource,
    Binary,
    OutOfRange,
}

#[derive(Debug, PartialEq, Eq)]
pub struct ItemResolution {
    pub index: usize,
    pub outcome: ItemOutcome,
    pub bytes: usize,
    /// Paths the answer touches; outside the envelope, the paths outside it.
    pub paths: Vec<String>,
    /// Candidates of an ambiguous name inside the envelope, a few of them.
    pub candidates: Vec<String>,
    pub detail: Option<String>,
}

#[derive(Debug, Clone, Copy, PartialEq, Eq, Structural)]
pub enum Verdict {
    Granted,
    Escalate,
    Denied,
}

#[derive(Debug, Clone, Copy, PartialEq, Eq, Structural)]
pub struct Budget {
    pub request_max_bytes: usize,
    pub round_limit: usize,
    pub task_remaining: usize,
    pub rounds_used: u32,
    pub max_rounds: u32,
    pub escalations_used: u32,
    pub max_escalations: u32,
}

/// The outcome of resolving one request: what a planner reviews. The requesting
/// worker never sees it.
#[derive(Debug, PartialEq, Eq)]
pub struct ContextResolution {
    pub version: String,
    pub subject: String,
    pub request_hash: String,
    pub graph_generation: Option<GraphGeneration>,
    pub source_hash: String,
    pub envelope: Vec<ScopePath>,
    pub items: Vec<ItemResolution>,
    pub verdict: Verdict,
    pub code: Option<String>,
    pub bytes: usize,
    pub budget: Budget,
}

#[derive(Debug, Clone, Copy, PartialEq, Eq, Structural)]
pub enum LedgerState {
    Open,
    NeedsPlannerContextApproval,
    Denied,
    PlannerDenied,
}

#[derive(Debug, Clone, Copy, PartialEq, Eq, Structural)]
pub enum RoundOutcome {
    Granted,
    Escalated,
    Denied,
    Approved,
    PlannerDenied,
}

#[derive(Debug, PartialEq, Eq)]
pub struct DeltaRef {
    pub delta_id: String,
    pub artifact: ArtifactRef,
    pub bytes: usize,
}

#[derive(Debug, PartialEq, Eq)]
pub struct RoundRecord {
    /// Round of the requesting job; zero is the base issue.
    pub round: u32,
    pub job_id: String,
    pub request: ArtifactRef,
    pub resolution: ArtifactRef,
    pub outcome: RoundOutcome,
    pub delta: Option<DeltaRef>,
    pub decision: Option<ArtifactRef>,
}

#[derive(Debug, PartialEq, Eq)]
pub struct BaseRef {
    pub artifact: ArtifactRef,
    pub graph_generation: Option<GraphGeneration>,
    pub source_hash: String,
}

/// Relay state of one worker subject: an executor task, a packet verification,
/// or the integration verification.
#[derive(Debug, PartialEq, Eq)]
pub struct ContextLedger {
    pub role: AgentRole,
    pub task_id: Option<String>,
    pub state: LedgerState,
    pub base: Option<BaseRef>,
    /// Read-scope additions that a planner explicitly approved.
    pub approved_scope: Vec<ScopePath>,
    pub rounds: Vec<RoundRecord>,
    pub granted_bytes: usize,
    pub escalations: u32,
}

/// The deltas that some rounds were granted, in order.
pub open spec fn granted(rounds: Seq<RoundRecord>) -> Seq<DeltaRef>
    decreases rounds.len(),
{
    if rounds.len() == 0 {
        Seq::empty()
    } else {
        match rounds.last().delta {
            Some(d) => granted(rounds.drop_last()).push(d),
            None => granted(rounds.drop_last()),
        }
    }
}

impl ContextLedger {
    /// What every relay keeps: a round has a delta exactly where a request was
    /// granted or approved, so that one which is escalated or denied has none; and
    /// a relay that waits for a planner ends in the request that was escalated.
    pub open spec fn sound(self) -> bool {
        &&& forall|i: int|
            0 <= i < self.rounds@.len() ==> ((#[trigger] self.rounds@[i]).delta is Some <==> (
            self.rounds@[i].outcome == RoundOutcome::Granted || self.rounds@[i].outcome
                == RoundOutcome::Approved))
        &&& self.state == LedgerState::NeedsPlannerContextApproval ==> self.rounds@.len() > 0
            && self.rounds@.last().outcome == RoundOutcome::Escalated
    }

    pub fn new(role: AgentRole, task_id: Option<String>) -> (r: Self)
        ensures
            r.role == role,
            r.task_id == task_id,
            r.state == LedgerState::Open,
            r.base is None,
            r.approved_scope@.len() == 0,
            r.rounds@.len() == 0,
            r.granted_bytes == 0,
            r.escalations == 0,
            r.sound(),
    {
        ContextLedger {
            role,
            task_id,
            state: LedgerState::Open,
            base: None,
            approved_scope: Vec::new(),
            rounds: Vec::new(),
            granted_bytes: 0,
            escalations: 0,
        }
    }

    /// The deltas already granted, in round order.
    pub fn deltas(&self) -> (r: Vec<&DeltaRef>)
        ensures
            r@.map_values(|d: &DeltaRef| *d) == granted(self.rounds@),
    {
        let mut out: Vec<&DeltaRef> = Vec::new();
        let mut i: usize = 0;
        while i < self.rounds.len()
            invariant
                i <= self.rounds@.len(),
                out@.map_values(|d: &DeltaRef| *d) == granted(self.rounds@.take(i as int)),
            decreases self.rounds@.len() - i,
        {
            let ghost so_far = out@.map_values(|d: &DeltaRef| *d);
            proof {
                let next = self.rounds@.take(i + 1);
                assert(next.drop_last() =~= self.rounds@.take(i as int));
                assert(next.last() == self.rounds@[i as int]);
            }
            if let Some(d) = &self.rounds[i].delta {
                out.push(d);
                assert(out@.map_values(|d: &DeltaRef| *d) =~= so_far.push(*d));
            }
            i += 1;
        }
        assert(self.rounds@.take(i as int) =~= self.rounds@);
        out
    }

    /// Granted rounds, which is also the round number of the next fresh job.
    pub fn rounds_used(&self) -> (r: u32)
        requires
            self.rounds@.len() <= u32::MAX,
        ensures
            r == granted(self.rounds@).len(),
    {
        proof {
            lemma_granted_bounded(self.rounds@);
        }
        let deltas: Vec<&DeltaRef> = self.deltas();
        assert(deltas@.map_values(|d: &DeltaRef| *d).len() == deltas@.len());
        deltas.len() as u32
    }
}

proof fn lemma_granted_bounded(rounds: Seq<RoundRecord>)
    ensures
        granted(rounds).len() <= rounds.len(),
    decreases rounds.len(),
{
    if rounds.len() > 0 {
        lemma_granted_bounded(rounds.drop_last());
    }
}

/// The name of a role as it appears in ledger keys.
pub open spec fn role_name(role: AgentRole) -> Seq<char> {
    match role {
        AgentRole::Planner => "Planner"@,
        AgentRole::Executor => "Executor"@,
        AgentRole::Verifier => "Verifier"@,
    }
}

/// The ledger key of a worker subject.
pub open spec fn subject_of(role: AgentRole, task: Option<String>) -> Seq<char> {
    match (role, task) {
        (AgentRole::Executor, Some(t)) => "executor:"@ + t@,
        (AgentRole::Verifier, Some(t)) => "verifier:"@ + t@,
        (AgentRole::Verifier, None) => "integration"@,
        (_, Some(t)) => role_name(role) + ":"@ + t@,
        (_, None) => role_name(role) + ":"@ + "-"@,
    }
}

pub fn subject_key(role: AgentRole, task: &Option<String>) -> (r: String)
    ensures
        r@ == subject_of(role, *task),
{
    let name: &str = match role {
        AgentRole::Planner => "Planner",
        AgentRole::Executor => "Executor",
        AgentRole::Verifier => "Verifier",
    };
    match (role, task) {
        (AgentRole::Executor, Some(t)) => text::join2("executor:", t.as_str()),
        (AgentRole::Verifier, Some(t)) => text::join2("verifier:", t.as_str()),
        (AgentRole::Verifier, None) => "integration".to_owned(),
        (_, Some(t)) => text::join3(name, ":", t.as_str()),
        (_, None) => text::join3(name, ":", "-"),
    }
}

/// Executors and verifiers of different tasks never share a ledger.
pub proof fn law_subjects_are_distinct(a: AgentRole, s: Option<String>, b: AgentRole, t: Option<String>)
    requires
        a != AgentRole::Planner,
        b != AgentRole::Planner,
        s is None ==> a == AgentRole::Verifier,
        t is None ==> b == AgentRole::Verifier,
        subject_of(a, s) == subject_of(b, t),
    ensures
        a == b,
        text::same_option(s, t),
{
    reveal_strlit("executor:");
    reveal_strlit("verifier:");
    reveal_strlit("integration");
    assert("executor:"@.len() == 9);
    assert("verifier:"@.len() == 9);
    assert("integration"@.len() == 11);
    let (x, y) = (subject_of(a, s), subject_of(b, t));
    assert("executor:"@[0] == 'e');
    assert("verifier:"@[0] == 'v');
    assert("integration"@[0] == 'i');
    match (s, t) {
        (Some(u), Some(v)) => {
            assert(x[0] == y[0]);
            assert(x.subrange(9, x.len() as int) =~= u@);
            assert(y.subrange(9, y.len() as int) =~= v@);
        },
        (Some(u), None) => {
            assert(x[0] == y[0]);
        },
        (None, Some(v)) => {
            assert(x[0] == y[0]);
        },
        (None, None) => {},
    }
}

#[derive(Debug, Clone, Copy, PartialEq, Eq, Structural)]
pub enum DecisionKind {
    Approve,
    Deny,
}

/// A planner's explicit answer to an escalated executor request.
#[derive(Debug, PartialEq, Eq)]
pub struct ContextDecision {
    pub version: String,
    pub plan_id: String,
    pub task_id: String,
    /// Hash of the escalated request that is decided.
    pub request_hash: String,
    pub decision: DecisionKind,
    /// Of an approval: the read-scope paths added to the task's relay envelope.
    pub read_scope_additions: Vec<ScopePath>,
    pub reason: String,
    pub actor: String,
}

pub const DECISION_VERSION_RULE: &'static str =
    "context decision version must be agentctl-context-decision-1";

/// Why a decision is not acceptable, if anything. `paths` is what the path rule
/// has against the added scopes.
pub open spec fn decision_refusal(d: ContextDecision, paths: Seq<Objection>) -> Option<Seq<char>> {
    let added = d.read_scope_additions@.len();
    if d.version@ != DECISION_VERSION@ {
        Some(DECISION_VERSION_RULE@)
    } else {
        crate::error::either(
            validation::text_refusal(d.reason@, 1024, "decision reason"@),
            crate::error::either(
                validation::text_refusal(d.actor@, 128, "decision actor"@),
                if d.decision == DecisionKind::Approve && !(1 <= added <= MAX_SCOPE_ADDITIONS) {
                    Some("an approval adds 1–8 read-scope paths"@)
                } else if d.decision == DecisionKind::Deny && added != 0 {
                    Some("a denial cannot add read scope"@)
                } else {
                    validation::scope_paths_refusal(d.read_scope_additions@, paths, 0)
                },
            ),
        )
    }
}

impl ContextDecision {
    pub fn check(&self, paths: &Vec<Objection>) -> (r: Result<(), Error>)
        ensures
            crate::error::settles(r, decision_refusal(*self, paths@)),
    {
        if !text::same(self.version.as_str(), DECISION_VERSION) {
            return invalid(DECISION_VERSION_RULE);
        }
        match validation::validate_text(self.reason.as_str(), 1024, "decision reason") {
            Ok(()) => {},
            Err(e) => return Err(e),
        }
        match validation::validate_text(self.actor.as_str(), 128, "decision actor") {
            Ok(()) => {},
            Err(e) => return Err(e),
        }
        let added: usize = self.read_scope_additions.len();
        match self.decision {
            DecisionKind::Approve => {
                if !(1 <= added && added <= MAX_SCOPE_ADDITIONS) {
                    return invalid("an approval adds 1–8 read-scope paths");
                }
            },
            DecisionKind::Deny => {
                if added != 0 {
                    return invalid("a denial cannot add read scope");
                }
            },
        }
        validation::scope_paths(&self.read_scope_additions, paths)
    }
}

/// The paths that a subject may be issued context from, and the memory that the
/// planner already authorized for it.
#[derive(Debug, PartialEq, Eq)]
pub struct Envelope {
    pub scopes: Vec<ScopePath>,
    pub memory: Vec<String>,
}

impl Envelope {
    /// Whether a path lies inside the envelope.
    pub open spec fn reaches(&self, path: Seq<char>) -> bool {
        scope::any_allows(self.scopes@, path)
    }

    pub fn permits(&self, path: &str) -> (r: bool)
        ensures
            r == self.reaches(path@),
    {
        scope::any_permits(&self.scopes, path)
    }
}

// ---------------------------------------------------------------------------
// Captured source
// ---------------------------------------------------------------------------

/// A captured file.
#[derive(Debug, PartialEq, Eq)]
pub struct CapturedFile {
    pub path: String,
    pub hash: String,
    pub bytes: u64,
    pub content: Vec<u8>,
}

/// A captured source state: its files, and the paths that are ignored.
#[derive(Debug, PartialEq, Eq)]
pub struct Snapshot {
    pub files: Vec<CapturedFile>,
    pub ignored: Vec<String>,
    pub hash: String,
}

/// The position of a captured file, looked up from the `i`-th on.
pub open spec fn file_at(files: Seq<CapturedFile>, path: Seq<char>, i: int) -> Option<int>
    decreases files.len() - i,
{
    if i < 0 || i >= files.len() {
        None
    } else if files[i].path@ == path {
        Some(i)
    } else {
        file_at(files, path, i + 1)
    }
}

pub fn find_file(files: &Vec<CapturedFile>, path: &str) -> (r: Option<usize>)
    ensures
        match r {
            Some(i) => i < files@.len() && file_at(files@, path@, 0) == Some(i as int),
            None => file_at(files@, path@, 0) is None,
        },
{
    let mut i: usize = 0;
    while i < files.len()
        invariant
            i <= files@.len(),
            file_at(files@, path@, 0) == file_at(files@, path@, i as int),
        decreases files@.len() - i,
    {
        if text::same(files[i].path.as_str(), path) {
            return Some(i);
        }
        i += 1;
    }
    None
}

fn copy_bytes(v: &Vec<u8>) -> (r: Vec<u8>)
    ensures
        r@ == v@,
{
    let mut out: Vec<u8> = Vec::new();
    let mut i: usize = 0;
    while i < v.len()
        invariant
            i <= v@.len(),
            out@ == v@.take(i as int),
        decreases v@.len() - i,
    {
        out.push(v[i]);
        i += 1;
        assert(out@ =~= v@.take(i as int));
    }
    assert(out@ =~= v@);
    out
}

/// The text of captured content, where it is UTF-8.
pub fn content_text(content: &Vec<u8>) -> (r: Option<String>)
    ensures
        match r {
            Some(t) => encode_utf8(t@) == content@ && valid_utf8(content@),
            None => !valid_utf8(content@),
        },
{
    let r: Option<String> = utf8_text(copy_bytes(content));
    proof {
        if r is Some {
            encode_utf8_valid_utf8(r->0@);
        }
    }
    r
}

/// What a bounded slice of source holds.
#[verifier::ext_equal]
pub struct SliceView {
    pub start_line: int,
    pub end_line: int,
    pub bytes: Seq<u8>,
    pub truncated: bool,
}

/// Whether a slice of source holds exactly this.
pub open spec fn slice_is(x: SourceText, v: SliceView) -> bool {
    &&& x.start_line == v.start_line
    &&& x.end_line == v.end_line
    &&& encode_utf8(x.text@) == v.bytes
    &&& x.truncated == v.truncated
}

/// Whether a range of a text can be sliced.
pub open spec fn sliceable(bytes: Seq<u8>, start: int, end: int) -> bool {
    0 <= start <= end <= bytes.len() && is_char_boundary(bytes, start) && is_char_boundary(
        bytes,
        end,
    )
}

/// The slice of a text from a range, bounded by bytes and lines.
pub open spec fn slice(
    bytes: Seq<u8>,
    start: int,
    end: int,
    start_line: int,
    max_bytes: int,
    max_lines: int,
) -> SliceView {
    let cut = excerpt::bounded_end(bytes, start, end, max_bytes, max_lines);
    let shown = bytes.subrange(start, cut);
    let count = excerpt::lines(shown);
    SliceView {
        start_line,
        end_line: start_line + (if count < 1 {
            1
        } else {
            count
        }) - 1,
        bytes: shown,
        truncated: cut < end,
    }
}

pub const RANGE_RULE: &'static str = "invalid indexed source range";

/// An exact slice of a text, bounded by bytes and lines and never cut inside a
/// character.
pub fn sliced(
    content: &str,
    start: usize,
    end: usize,
    start_line: usize,
    max_bytes: usize,
    max_lines: usize,
) -> (r: Result<SourceText, Error>)
    requires
        start_line + content.spec_bytes().len() <= usize::MAX,
    ensures
        crate::error::settles(
            r,
            if sliceable(content.spec_bytes(), start as int, end as int) {
                None
            } else {
                Some(RANGE_RULE@)
            },
        ),
        r matches Ok(x) ==> slice_is(
            x,
            slice(
                content.spec_bytes(),
                start as int,
                end as int,
                start_line as int,
                max_bytes as int,
                max_lines as int,
            ),
        ),
{
    if !(start <= end && end <= text::byte_len(content) && content.is_char_boundary(start)
        && content.is_char_boundary(end)) {
        return invalid(RANGE_RULE);
    }
    let cut: usize = excerpt::find_bounded_end(content, start, end, max_bytes, max_lines);
    let shown: &str = excerpt::part(content, start, cut);
    let count: usize = excerpt::line_count(shown);
    let extra: usize = if count < 1 {
        0
    } else {
        count - 1
    };
    Ok(
        SourceText {
            start_line,
            end_line: start_line + extra,
            text: shown.to_owned(),
            truncated: cut < end,
        },
    )
}

/// The content that an entity was derived from, where it is still captured and
/// is text.
pub open spec fn entity_bytes(source: Snapshot, e: Entity) -> Option<Seq<u8>> {
    match file_at(source.files@, e.provenance.path@, 0) {
        None => None,
        Some(k) => if source.files@[k].hash@ == e.provenance.content_hash@ && valid_utf8(
            source.files@[k].content@,
        ) {
            Some(source.files@[k].content@)
        } else {
            None
        },
    }
}

/// Why a definition cannot be sliced, if anything.
pub open spec fn definition_refusal(source: Snapshot, e: Entity) -> Option<Seq<char>> {
    match entity_bytes(source, e) {
        None => None,
        Some(bytes) => if sliceable(bytes, e.range.start_byte as int, e.range.end_byte as int) {
            None
        } else {
            Some(RANGE_RULE@)
        },
    }
}

/// The bounded definition of an entity, where its content is still captured.
pub open spec fn definition_of(source: Snapshot, e: Entity, max_bytes: int, max_lines: int) -> Option<
    SliceView,
> {
    match entity_bytes(source, e) {
        None => None,
        Some(bytes) => Some(
            slice(
                bytes,
                e.range.start_byte as int,
                e.range.end_byte as int,
                e.range.start_line as int,
                max_bytes,
                max_lines,
            ),
        ),
    }
}

/// Whether an optional slice holds exactly this.
pub open spec fn optional_slice_is(x: Option<SourceText>, v: Option<SliceView>) -> bool {
    match (x, v) {
        (Some(t), Some(w)) => slice_is(t, w),
        (None, None) => true,
        _ => false,
    }
}

/// Whether line numbers into captured files fit the machine.
pub open spec fn lines_fit(e: Entity, source: Snapshot) -> bool {
    forall|k: int|
        0 <= k < source.files@.len() ==> e.range.start_line + (
        #[trigger] source.files@[k]).content@.len() <= usize::MAX
}

/// The bounded definition of an entity. Nothing where the captured content is
/// not what the entity was derived from.
pub fn definition(source: &Snapshot, e: &Entity, max_bytes: usize, max_lines: usize) -> (r: Result<
    Option<SourceText>,
    Error,
>)
    requires
        lines_fit(*e, *source),
    ensures
        crate::error::settles(r, definition_refusal(*source, *e)),
        r matches Ok(x) ==> optional_slice_is(
            x,
            definition_of(*source, *e, max_bytes as int, max_lines as int),
        ),
{
    match find_file(&source.files, e.provenance.path.as_str()) {
        None => Ok(None),
        Some(k) => {
            let file: &CapturedFile = &source.files[k];
            if !text::same(file.hash.as_str(), e.provenance.content_hash.as_str()) {
                return Ok(None);
            }
            match content_text(&file.content) {
                None => Ok(None),
                Some(t) => {
                    assert(source.files@[k as int].content@ == encode_utf8(t@));
                    match sliced(
                        t.as_str(),
                        e.range.start_byte,
                        e.range.end_byte,
                        e.range.start_line,
                        max_bytes,
                        max_lines,
                    ) {
                        Ok(x) => Ok(Some(x)),
                        Err(error) => Err(error),
                    }
                },
            }
        },
    }
}

// ---------------------------------------------------------------------------
// Memory
// ---------------------------------------------------------------------------

/// What a memory is linked to.
#[derive(Debug, PartialEq, Eq)]
pub enum MemoryLink {
    File { path: String },
    Graph { id: String },
    Other,
}

/// A stored memory.
#[derive(Debug, PartialEq, Eq)]
pub struct MemoryRecord {
    pub id: String,
    pub trust: String,
    pub kind: String,
    pub validity: String,
    pub content: String,
    /// Whether it is a note of an agent, which nobody vouches for.
    pub agent_note: bool,
    pub active: bool,
    pub stale: bool,
    pub links: Vec<MemoryLink>,
}

/// Whether an issued memory shows a stored one.
pub open spec fn issues(m: IssuedMemory, r: MemoryRecord) -> bool {
    &&& m.id == r.id
    &&& m.trust == r.trust
    &&& m.kind == r.kind
    &&& m.validity == r.validity
    &&& m.content@ == text::clipped(r.content@, MEMORY_CHARS as int)
    &&& m.content_truncated == (r.content@.len() > MEMORY_CHARS)
}

pub fn issued_memory(m: &MemoryRecord) -> (r: IssuedMemory)
    ensures
        issues(r, *m),
{
    IssuedMemory {
        id: m.id.clone(),
        trust: m.trust.clone(),
        kind: m.kind.clone(),
        validity: m.validity.clone(),
        content: text::clip(m.content.as_str(), MEMORY_CHARS),
        content_truncated: m.content.as_str().unicode_len() > MEMORY_CHARS,
    }
}

/// The position of a memory, looked up from the `i`-th on.
pub open spec fn memory_at(list: Seq<MemoryRecord>, id: Seq<char>, i: int) -> Option<int>
    decreases list.len() - i,
{
    if i < 0 || i >= list.len() {
        None
    } else if list[i].id@ == id {
        Some(i)
    } else {
        memory_at(list, id, i + 1)
    }
}

pub fn find_memory(list: &Vec<MemoryRecord>, id: &str) -> (r: Option<usize>)
    ensures
        match r {
            Some(i) => i < list@.len() && memory_at(list@, id@, 0) == Some(i as int),
            None => memory_at(list@, id@, 0) is None,
        },
{
    let mut i: usize = 0;
    while i < list.len()
        invariant
            i <= list@.len(),
            memory_at(list@, id@, 0) == memory_at(list@, id@, i as int),
        decreases list@.len() - i,
    {
        if text::same(list[i].id.as_str(), id) {
            return Some(i);
        }
        i += 1;
    }
    None
}

} // verus!
