//! What a run durably records: its jobs, its captured results and its context
//! relays.
use crate::manifest::DeltaManifest;
use crate::graph::GraphGeneration;
use crate::protocol::{AgentRole, VerificationDecision, VerificationPacket};
use crate::runtime::concurrency::CompatibilityDecision;
use crate::runtime::context::ContextLedger;
use crate::source::ArtifactRef;
use crate::text;
use vstd::prelude::*;

verus! {

#[derive(Debug, Clone, Copy, PartialEq, Eq, Structural)]
pub enum RunState {
    Running,
    Blocked,
    Complete,
    Cancelled,
}

#[derive(Debug, Clone, Copy, PartialEq, Eq, Structural)]
pub enum RuntimeJobState {
    Queued,
    Running,
    Succeeded,
    Failed,
    Cancelled,
    Interrupted,
}

/// How a failed exchange with a provider is to be read.
#[derive(Debug, Clone, Copy, PartialEq, Eq, Structural)]
pub enum OutcomeClass {
    RetryableProviderFailure,
    NonretryableProviderFailure,
    ValidationFailure,
    SemanticRejection,
}

/// What a job was issued, as its manifest names it.
#[derive(Debug, PartialEq, Eq)]
pub struct ContextManifest {
    pub context_round: Option<u32>,
    pub graph_generation: Option<GraphGeneration>,
    pub context_deltas: Vec<DeltaManifest>,
}

/// One invocation of a provider.
#[derive(Debug, PartialEq, Eq)]
pub struct RuntimeJob {
    pub job_id: String,
    pub session_id: String,
    pub role: AgentRole,
    pub plan_id: Option<String>,
    pub task_id: Option<String>,
    pub workspace_id: String,
    pub state: RuntimeJobState,
    pub input: ArtifactRef,
    pub output: Option<ArtifactRef>,
    pub reported_verification: Option<VerificationDecision>,
    pub context_request: Option<ArtifactRef>,
    pub context_manifest: Option<ContextManifest>,
    pub created_at_ms: u64,
    pub failure: Option<String>,
    pub failure_class: Option<OutcomeClass>,
}

/// A captured result that no verifier has accepted yet.
#[derive(Debug, PartialEq, Eq)]
pub struct PendingTask {
    pub task_id: String,
    pub executor: String,
    pub before: ArtifactRef,
    pub after: ArtifactRef,
    pub diff: ArtifactRef,
    pub evidence: Vec<String>,
    pub verifier: Option<String>,
    pub proof: Option<VerificationPacket>,
    pub execution_workspace: Option<String>,
    pub compatibility: Vec<CompatibilityDecision>,
    pub ontology_generation: Option<String>,
    pub reconciled_from: Option<ArtifactRef>,
}

/// A task whose result a verifier accepted.
#[derive(Debug, PartialEq, Eq)]
pub struct AcceptedTask {
    pub task_id: String,
    pub executor: String,
    pub verifier: String,
    pub diff: ArtifactRef,
    pub evidence: Vec<String>,
}

/// The relay of one worker subject, under its key.
#[derive(Debug, PartialEq, Eq)]
pub struct LedgerEntry {
    pub key: String,
    pub ledger: ContextLedger,
}

/// How often a task was launched again.
#[derive(Debug, PartialEq, Eq)]
pub struct Relaunches {
    pub task_id: String,
    pub spent: u32,
}

/// Under what a set of tasks was launched together.
#[derive(Debug, PartialEq, Eq)]
pub struct BatchLaunchAuthority {
    pub source: ArtifactRef,
    pub ontology_generation: String,
    pub tasks: Vec<String>,
    pub compatibility: Vec<CompatibilityDecision>,
}

/// A publication that was begun, and what it publishes.
#[derive(Debug, PartialEq, Eq)]
pub struct ReconciliationIntent {
    pub task_id: String,
    pub executor: String,
    pub diff: ArtifactRef,
    pub expected_source: ArtifactRef,
    pub intended_source: ArtifactRef,
}

/// The sole resumable checkpoint of a plan. Tasks, branches and ledgers are in
/// the order of their keys.
#[derive(Debug, PartialEq, Eq)]
pub struct RunRecord {
    pub engineering_session: Option<String>,
    pub plan_id: String,
    pub workspace_id: String,
    pub state: RunState,
    pub baseline: ArtifactRef,
    pub expected: ArtifactRef,
    /// The newest source that a verifier accepted.
    pub verified: Option<ArtifactRef>,
    pub policy_hash: String,
    pub accepted: Vec<AcceptedTask>,
    pub pending: Option<PendingTask>,
    pub branches: Vec<PendingTask>,
    pub batch_authority: Option<BatchLaunchAuthority>,
    pub reconciliation: Option<ReconciliationIntent>,
    pub reason: Option<String>,
    pub correction_round: u32,
    pub context: Vec<LedgerEntry>,
    pub executor_relaunches: Vec<Relaunches>,
    pub refused: Option<ArtifactRef>,
}

/// The position of a job, looked up from the `i`-th on.
pub open spec fn job_at(jobs: Seq<RuntimeJob>, id: Seq<char>, i: int) -> Option<int>
    decreases jobs.len() - i,
{
    if i < 0 || i >= jobs.len() {
        None
    } else if jobs[i].job_id@ == id {
        Some(i)
    } else {
        job_at(jobs, id, i + 1)
    }
}

pub fn find_job(jobs: &Vec<RuntimeJob>, id: &str) -> (r: Option<usize>)
    ensures
        match r {
            Some(i) => i < jobs@.len() && job_at(jobs@, id@, 0) == Some(i as int)
                && jobs@[i as int].job_id@ == id@,
            None => job_at(jobs@, id@, 0) is None,
        },
{
    let mut i: usize = 0;
    while i < jobs.len()
        invariant
            i <= jobs@.len(),
            job_at(jobs@, id@, 0) == job_at(jobs@, id@, i as int),
        decreases jobs@.len() - i,
    {
        if text::same(jobs[i].job_id.as_str(), id) {
            return Some(i);
        }
        i += 1;
    }
    None
}

/// The position of an accepted task, looked up from the `i`-th on.
pub open spec fn accepted_at(tasks: Seq<AcceptedTask>, id: Seq<char>, i: int) -> Option<int>
    decreases tasks.len() - i,
{
    if i < 0 || i >= tasks.len() {
        None
    } else if tasks[i].task_id@ == id {
        Some(i)
    } else {
        accepted_at(tasks, id, i + 1)
    }
}

pub fn find_accepted(tasks: &Vec<AcceptedTask>, id: &str) -> (r: Option<usize>)
    ensures
        match r {
            Some(i) => i < tasks@.len() && accepted_at(tasks@, id@, 0) == Some(i as int),
            None => accepted_at(tasks@, id@, 0) is None,
        },
{
    let mut i: usize = 0;
    while i < tasks.len()
        invariant
            i <= tasks@.len(),
            accepted_at(tasks@, id@, 0) == accepted_at(tasks@, id@, i as int),
        decreases tasks@.len() - i,
    {
        if text::same(tasks[i].task_id.as_str(), id) {
            return Some(i);
        }
        i += 1;
    }
    None
}

/// The position of a ledger, looked up from the `i`-th on.
pub open spec fn ledger_at(ledgers: Seq<LedgerEntry>, key: Seq<char>, i: int) -> Option<int>
    decreases ledgers.len() - i,
{
    if i < 0 || i >= ledgers.len() {
        None
    } else if ledgers[i].key@ == key {
        Some(i)
    } else {
        ledger_at(ledgers, key, i + 1)
    }
}

pub fn find_ledger(ledgers: &Vec<LedgerEntry>, key: &str) -> (r: Option<usize>)
    ensures
        match r {
            Some(i) => i < ledgers@.len() && ledger_at(ledgers@, key@, 0) == Some(i as int),
            None => ledger_at(ledgers@, key@, 0) is None,
        },
{
    let mut i: usize = 0;
    while i < ledgers.len()
        invariant
            i <= ledgers@.len(),
            ledger_at(ledgers@, key@, 0) == ledger_at(ledgers@, key@, i as int),
        decreases ledgers@.len() - i,
    {
        if text::same(ledgers[i].key.as_str(), key) {
            return Some(i);
        }
        i += 1;
    }
    None
}

/// The identifiers of accepted tasks, in order.
pub open spec fn accepted_ids(tasks: Seq<AcceptedTask>) -> Seq<Seq<char>> {
    tasks.map_values(|t: AcceptedTask| t.task_id@)
}

/// The executors of accepted tasks, in order.
pub open spec fn executors(tasks: Seq<AcceptedTask>) -> Seq<Seq<char>> {
    tasks.map_values(|t: AcceptedTask| t.executor@)
}

pub fn list_executors(tasks: &Vec<AcceptedTask>) -> (r: Vec<String>)
    ensures
        text::texts(r@) == executors(tasks@),
{
    let mut out: Vec<String> = Vec::new();
    let mut i: usize = 0;
    while i < tasks.len()
        invariant
            i <= tasks@.len(),
            text::texts(out@) == executors(tasks@).take(i as int),
        decreases tasks@.len() - i,
    {
        let ghost so_far = out@;
        out.push(tasks[i].executor.clone());
        assert(text::texts(out@) =~= text::texts(so_far).push(tasks@[i as int].executor@));
        assert(executors(tasks@).take(i + 1) =~= executors(tasks@).take(i as int).push(
            tasks@[i as int].executor@,
        ));
        i += 1;
    }
    assert(executors(tasks@).take(i as int) =~= executors(tasks@));
    out
}

/// Whether a run stays one of the same plan, and in its state unless it completes.
pub open spec fn driven(before: RunRecord, after: RunRecord) -> bool {
    &&& after.plan_id == before.plan_id
    &&& after.state == before.state || after.state == RunState::Complete
}

} // verus!
