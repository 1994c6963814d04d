//! The relay of context between a worker and its planner: what a worker may
//! still ask for, what is recorded of each request, and what a planner's
//! decision changes.
use crate::error::{invalid, Error};
use crate::graph;
use crate::graph::GraphGeneration;
use crate::planning::model::{ProjectPolicy, TaskInspection};
use crate::planning::scope;
use crate::planning::scope::ScopePath;
use crate::planning::validation;
use crate::protocol::{AgentRole, TaskState};
use crate::runtime::config::ContextConfig;
use crate::runtime::context;
use crate::runtime::context::{
    BaseRef, Budget, ContextDecision, ContextDelta, ContextLedger, ContextResolution, DecisionKind,
    DeltaRef, Envelope, ItemOutcome, ItemResolution, LedgerState, RoundOutcome, RoundRecord, Verdict,
};
use crate::runtime::record;
use crate::runtime::record::{LedgerEntry, RunRecord, RunState};
use crate::runtime::resolve;
use crate::source::ArtifactRef;
use crate::text;
use vstd::prelude::*;

verus! {

// ---------------------------------------------------------------------------
// Budgets
// ---------------------------------------------------------------------------

/// What is left of the bytes of a task.
pub open spec fn remaining(limits: ContextConfig, ledger: ContextLedger) -> int {
    if ledger.granted_bytes <= limits.max_task_bytes {
        limits.max_task_bytes - ledger.granted_bytes
    } else {
        0
    }
}

fn bytes_remaining(limits: &ContextConfig, ledger: &ContextLedger) -> (r: usize)
    ensures
        r == remaining(*limits, *ledger),
{
    let all: usize = limits.max_task_bytes as usize;
    if ledger.granted_bytes <= all {
        all - ledger.granted_bytes
    } else {
        0
    }
}

/// How many rounds and escalations a worker has. Only an executor may ask for
/// more than its envelope holds.
pub open spec fn allowance_of(role: AgentRole, limits: ContextConfig) -> (u32, u32) {
    if role is Executor {
        (limits.max_rounds, limits.max_escalations)
    } else {
        (limits.verifier_max_rounds, 0)
    }
}

pub fn allowance(role: AgentRole, limits: &ContextConfig) -> (r: (u32, u32))
    ensures
        r == allowance_of(role, *limits),
{
    match role {
        AgentRole::Executor => (limits.max_rounds, limits.max_escalations),
        _ => (limits.verifier_max_rounds, 0),
    }
}

/// The budget of one request: never more than it asks for, than a round may
/// carry, and than is left of the task.
pub open spec fn budget_of(
    request_max_bytes: u32,
    limits: ContextConfig,
    ledger: ContextLedger,
    max_rounds: u32,
    escalations_used: u32,
    max_escalations: u32,
) -> Budget {
    Budget {
        request_max_bytes: request_max_bytes as usize,
        round_limit: if request_max_bytes <= limits.max_round_bytes {
            request_max_bytes as usize
        } else {
            limits.max_round_bytes as usize
        },
        task_remaining: remaining(limits, ledger) as usize,
        rounds_used: context::granted(ledger.rounds@).len() as u32,
        max_rounds,
        escalations_used,
        max_escalations,
    }
}

/// The budget of a request that a worker makes.
pub fn budget(
    request_max_bytes: u32,
    limits: &ContextConfig,
    ledger: &ContextLedger,
    max_rounds: u32,
    max_escalations: u32,
) -> (r: Budget)
    requires
        ledger.rounds@.len() <= u32::MAX,
    ensures
        r == budget_of(
            request_max_bytes,
            *limits,
            *ledger,
            max_rounds,
            ledger.escalations,
            max_escalations,
        ),
{
    Budget {
        request_max_bytes: request_max_bytes as usize,
        round_limit: if request_max_bytes <= limits.max_round_bytes {
            request_max_bytes as usize
        } else {
            limits.max_round_bytes as usize
        },
        task_remaining: bytes_remaining(limits, ledger),
        rounds_used: ledger.rounds_used(),
        max_rounds,
        escalations_used: ledger.escalations,
        max_escalations,
    }
}

/// The budget of a request that a planner approved: it cannot be escalated
/// again.
pub fn approved_budget(request_max_bytes: u32, limits: &ContextConfig, ledger: &ContextLedger) -> (r:
    Budget)
    requires
        ledger.rounds@.len() <= u32::MAX,
    ensures
        r == budget_of(request_max_bytes, *limits, *ledger, limits.max_rounds, 0, 0),
{
    Budget {
        request_max_bytes: request_max_bytes as usize,
        round_limit: if request_max_bytes <= limits.max_round_bytes {
            request_max_bytes as usize
        } else {
            limits.max_round_bytes as usize
        },
        task_remaining: bytes_remaining(limits, ledger),
        rounds_used: ledger.rounds_used(),
        max_rounds: limits.max_rounds,
        escalations_used: 0,
        max_escalations: 0,
    }
}

/// What a worker is told of how its requests are answered.
pub const RELAY_POLICY: &'static str =
    "agentctl resolves a request deterministically inside your read scope; anything outside it is not granted automatically and blocks the task for a planner decision.";

/// The kinds of item that a request may ask for.
pub fn item_kinds() -> (r: Vec<&'static str>)
    ensures
        r@ == seq![
            "SYMBOL_DEFINITION",
            "SYMBOL_BY_NAME",
            "SYMBOL_RELATIONS",
            "RELATED_TESTS",
            "NEIGHBORHOOD",
            "FILE_RANGE",
            "MEMORY",
        ],
{
    vec![
        "SYMBOL_DEFINITION",
        "SYMBOL_BY_NAME",
        "SYMBOL_RELATIONS",
        "RELATED_TESTS",
        "NEIGHBORHOOD",
        "FILE_RANGE",
        "MEMORY",
    ]
}

/// What a worker is told of its remaining budget. These are machine-owned
/// numbers; asking does not raise them.
#[derive(Debug, Clone, Copy, PartialEq, Eq)]
pub struct RelayState {
    pub round: u32,
    pub max_rounds: u32,
    pub rounds_remaining: u32,
    pub max_request_bytes: u32,
    pub granted_bytes: usize,
    pub task_bytes_remaining: usize,
    pub escalations_used: u32,
    pub policy: &'static str,
}

pub fn relay_state(limits: &ContextConfig, ledger: &ContextLedger, max_rounds: u32) -> (r: RelayState)
    requires
        ledger.rounds@.len() <= u32::MAX,
    ensures
        ({
            let used = context::granted(ledger.rounds@).len();
            r == (RelayState {
                round: used as u32,
                max_rounds,
                rounds_remaining: if used <= max_rounds {
                    (max_rounds - used) as u32
                } else {
                    0
                },
                max_request_bytes: limits.max_round_bytes,
                granted_bytes: ledger.granted_bytes,
                task_bytes_remaining: remaining(*limits, *ledger) as usize,
                escalations_used: ledger.escalations,
                policy: RELAY_POLICY,
            })
        }),
{
    let used: u32 = ledger.rounds_used();
    RelayState {
        round: used,
        max_rounds,
        rounds_remaining: if used <= max_rounds {
            max_rounds - used
        } else {
            0
        },
        max_request_bytes: limits.max_round_bytes,
        granted_bytes: ledger.granted_bytes,
        task_bytes_remaining: bytes_remaining(limits, ledger),
        escalations_used: ledger.escalations,
        policy: RELAY_POLICY,
    }
}

// ---------------------------------------------------------------------------
// The base
// ---------------------------------------------------------------------------

/// The name of a ledger's state as it appears in messages.
pub open spec fn ledger_state_name(state: LedgerState) -> Seq<char> {
    match state {
        LedgerState::Open => "Open"@,
        LedgerState::NeedsPlannerContextApproval => "NeedsPlannerContextApproval"@,
        LedgerState::Denied => "Denied"@,
        LedgerState::PlannerDenied => "PlannerDenied"@,
    }
}

fn name_ledger_state(state: LedgerState) -> (r: &'static str)
    ensures
        r@ == ledger_state_name(state),
{
    match state {
        LedgerState::Open => "Open",
        LedgerState::NeedsPlannerContextApproval => "NeedsPlannerContextApproval",
        LedgerState::Denied => "Denied",
        LedgerState::PlannerDenied => "PlannerDenied",
    }
}

/// Why a worker cannot be issued anything on a ledger, if it cannot.
pub open spec fn closed_refusal(ledger: ContextLedger, verifying: bool) -> Option<Seq<char>> {
    if ledger.state == LedgerState::Open {
        None
    } else if verifying {
        Some(
            "verification context relay is "@ + ledger_state_name(ledger.state)
                + "; explicit planner decision required"@,
        )
    } else {
        Some(
            "task context relay is "@ + ledger_state_name(ledger.state)
                + "; an explicit planner decision is required (agentctl run context)"@,
        )
    }
}

/// Checks that the relay of a worker is open.
pub fn check_open(ledger: &ContextLedger, verifying: bool) -> (r: Result<(), Error>)
    ensures
        crate::error::settles(r, closed_refusal(*ledger, verifying)),
{
    if ledger.state == LedgerState::Open {
        return Ok(());
    }
    let said: String = if verifying {
        text::join3(
            "verification context relay is ",
            name_ledger_state(ledger.state),
            "; explicit planner decision required",
        )
    } else {
        text::join3(
            "task context relay is ",
            name_ledger_state(ledger.state),
            "; an explicit planner decision is required (agentctl run context)",
        )
    };
    invalid(said.as_str())
}

pub const ROUND_ONTOLOGY_DRIFT: &'static str =
    "SOURCE_DRIFT: ontology generation changed between context rounds; replan required";

pub const ROUND_SOURCE_DRIFT: &'static str =
    "SOURCE_DRIFT: workspace changed between context rounds; replan required";

/// Why a base does not hold any more, if it does not.
pub open spec fn base_drift(
    base: BaseRef,
    generation: Option<GraphGeneration>,
    source_hash: Seq<char>,
) -> Option<Seq<char>> {
    if !graph::same_generation(generation, base.graph_generation) {
        Some(ROUND_ONTOLOGY_DRIFT@)
    } else if source_hash != base.source_hash@ {
        Some(ROUND_SOURCE_DRIFT@)
    } else {
        None
    }
}

/// Checks that the ontology and source that a base was derived from still hold.
pub fn revalidate(base: &BaseRef, generation: &Option<GraphGeneration>, source_hash: &str) -> (r: Result<
    (),
    Error,
>)
    ensures
        crate::error::settles(r, base_drift(*base, *generation, source_hash@)),
{
    if !graph::generation_same(generation, &base.graph_generation) {
        return invalid(ROUND_ONTOLOGY_DRIFT);
    }
    if !text::same(source_hash, base.source_hash.as_str()) {
        return invalid(ROUND_SOURCE_DRIFT);
    }
    Ok(())
}

pub const DELTA_DRIFT: &'static str =
    "SOURCE_DRIFT: an approved context delta was derived from other source/ontology state; replan required";

/// Whether a delta was derived from what a base was.
pub open spec fn extends(delta: ContextDelta, base: BaseRef) -> bool {
    graph::same_generation(delta.graph_generation, base.graph_generation) && delta.source_hash@
        == base.source_hash@
}

/// Why approved deltas cannot be issued, if they cannot.
pub open spec fn issue_refusal(ledger: ContextLedger, deltas: Seq<ContextDelta>) -> Option<
    Seq<char>,
> {
    match ledger.base {
        None => Some("context ledger has no issued base"@),
        Some(base) => if forall|i: int|
            0 <= i < deltas.len() ==> extends(#[trigger] deltas[i], base) {
            None
        } else {
            Some(DELTA_DRIFT@)
        },
    }
}

/// Checks the approved deltas of a subject against the base that they extend.
pub fn check_deltas(ledger: &ContextLedger, deltas: &Vec<ContextDelta>) -> (r: Result<(), Error>)
    ensures
        crate::error::settles(r, issue_refusal(*ledger, deltas@)),
{
    let base: &BaseRef = match &ledger.base {
        Some(base) => base,
        None => return invalid("context ledger has no issued base"),
    };
    let mut i: usize = 0;
    while i < deltas.len()
        invariant
            i <= deltas@.len(),
            ledger.base == Some(*base),
            forall|k: int| 0 <= k < i ==> extends(#[trigger] deltas@[k], *base),
        decreases deltas@.len() - i,
    {
        if !(graph::generation_same(&deltas[i].graph_generation, &base.graph_generation)
            && text::same(deltas[i].source_hash.as_str(), base.source_hash.as_str())) {
            assert(!extends(deltas@[i as int], *base));
            return invalid(DELTA_DRIFT);
        }
        i += 1;
    }
    Ok(())
}

// ---------------------------------------------------------------------------
// Requests
// ---------------------------------------------------------------------------

pub const FOREIGN_REQUEST: &'static str = "context request does not match its issued job and task";

/// Checks that a request is of the job and the task that it came from.
pub fn check_request(
    request_job: &str,
    request_task: &Option<String>,
    job: &str,
    ledger: &ContextLedger,
) -> (r: Result<(), Error>)
    ensures
        crate::error::settles(
            r,
            if request_job@ == job@ && text::same_option(*request_task, ledger.task_id) {
                None
            } else {
                Some(FOREIGN_REQUEST@)
            },
        ),
{
    if text::same(request_job, job) && text::same_optional(request_task, &ledger.task_id) {
        Ok(())
    } else {
        invalid(FOREIGN_REQUEST)
    }
}

/// What became of a request.
#[derive(Debug, PartialEq, Eq)]
pub enum Relay {
    /// A delta was approved; the work is issued again as a fresh job.
    Granted,
    /// Something outside the envelope is needed; a planner has to decide.
    Escalated,
    Denied(String),
}

/// The name of an outcome as it appears in messages.
pub open spec fn item_outcome_name(outcome: ItemOutcome) -> Seq<char> {
    match outcome {
        ItemOutcome::Granted => "Granted"@,
        ItemOutcome::OutsideEnvelope => "OutsideEnvelope"@,
        ItemOutcome::NotFound => "NotFound"@,
        ItemOutcome::Ambiguous => "Ambiguous"@,
        ItemOutcome::Stale => "Stale"@,
        ItemOutcome::NotSource => "NotSource"@,
        ItemOutcome::Binary => "Binary"@,
        ItemOutcome::OutOfRange => "OutOfRange"@,
    }
}

fn name_item_outcome(outcome: ItemOutcome) -> (r: &'static str)
    ensures
        r@ == item_outcome_name(outcome),
{
    match outcome {
        ItemOutcome::Granted => "Granted",
        ItemOutcome::OutsideEnvelope => "OutsideEnvelope",
        ItemOutcome::NotFound => "NotFound",
        ItemOutcome::Ambiguous => "Ambiguous",
        ItemOutcome::Stale => "Stale",
        ItemOutcome::NotSource => "NotSource",
        ItemOutcome::Binary => "Binary",
        ItemOutcome::OutOfRange => "OutOfRange",
    }
}

/// The first item that could not be issued, from the `i`-th on, as it is named.
pub open spec fn offender(items: Seq<ItemResolution>, i: int) -> Seq<char>
    decreases items.len() - i,
{
    if i < 0 || i >= items.len() {
        Seq::empty()
    } else if items[i].outcome != ItemOutcome::Granted {
        " (item "@ + text::digits(items[i].index as nat) + " "@ + item_outcome_name(
            items[i].outcome,
        ) + (match items[i].detail {
            Some(d) => ": "@ + d@,
            None => Seq::empty(),
        }) + ")"@
    } else {
        offender(items, i + 1)
    }
}

fn name_offender(items: &Vec<ItemResolution>) -> (r: String)
    ensures
        r@ == offender(items@, 0),
{
    let mut i: usize = 0;
    while i < items.len()
        invariant
            i <= items@.len(),
            offender(items@, 0) == offender(items@, i as int),
        decreases items@.len() - i,
    {
        if items[i].outcome != ItemOutcome::Granted {
            let index: String = text::decimal(items[i].index as u64);
            let head: String = text::join3(" (item ", index.as_str(), " ");
            let named: String = text::join2(head.as_str(), name_item_outcome(items[i].outcome));
            let tail: String = match &items[i].detail {
                Some(d) => text::join2(": ", d.as_str()),
                None => String::new(),
            };
            let r: String = text::join3(named.as_str(), tail.as_str(), ")");
            proof {
                let shown = match items@[i as int].detail {
                    Some(d) => ": "@ + d@,
                    None => Seq::empty(),
                };
                assert(tail@ =~= shown);
            }
            return r;
        }
        i += 1;
    }
    let r: String = String::new();
    assert(r@ =~= Seq::<char>::empty());
    r
}

/// Why a request was denied: the code, and the first item that could not be
/// issued.
pub open spec fn denial(resolution: ContextResolution) -> Seq<char> {
    (match resolution.code {
        Some(code) => code@,
        None => "DENIED"@,
    }) + offender(resolution.items@, 0)
}

/// The phase that records what became of a request.
pub open spec fn relay_phase(verdict: Verdict) -> Seq<char> {
    match verdict {
        Verdict::Granted => "CONTEXT_DELTA_GRANTED"@,
        Verdict::Escalate => "NEEDS_PLANNER_CONTEXT_APPROVAL"@,
        Verdict::Denied => "CONTEXT_REQUEST_DENIED"@,
    }
}

/// The round that a resolved request becomes.
pub open spec fn round_of(
    round: u32,
    job_id: String,
    request: ArtifactRef,
    resolution: ArtifactRef,
    verdict: Verdict,
    delta: Option<DeltaRef>,
) -> RoundRecord {
    RoundRecord {
        round,
        job_id,
        request,
        resolution,
        outcome: match verdict {
            Verdict::Granted => RoundOutcome::Granted,
            Verdict::Escalate => RoundOutcome::Escalated,
            Verdict::Denied => RoundOutcome::Denied,
        },
        delta,
        decision: None,
    }
}

/// Whether a ledger took in a resolved request: a round was added, granted bytes
/// and escalations were counted, and only a grant leaves the relay open.
pub open spec fn took_in(
    before: ContextLedger,
    after: ContextLedger,
    round: RoundRecord,
    verdict: Verdict,
) -> bool {
    &&& after.rounds@ == before.rounds@.push(round)
    &&& after.role == before.role
    &&& after.task_id == before.task_id
    &&& after.base == before.base
    &&& after.approved_scope == before.approved_scope
    &&& after.granted_bytes == before.granted_bytes + match round.delta {
        Some(d) => d.bytes,
        None => 0,
    }
    &&& after.escalations == before.escalations + if verdict == Verdict::Escalate {
        1int
    } else {
        0int
    }
    &&& after.state == match verdict {
        Verdict::Granted => before.state,
        Verdict::Escalate => LedgerState::NeedsPlannerContextApproval,
        Verdict::Denied => LedgerState::Denied,
    }
}

/// Records a resolved request, and says what became of it. A delta is there
/// exactly where the request was granted.
pub fn record_round(
    ledger: &mut ContextLedger,
    job_id: String,
    request: ArtifactRef,
    resolution_ref: ArtifactRef,
    resolution: &ContextResolution,
    delta: Option<DeltaRef>,
) -> (r: Relay)
    requires
        old(ledger).rounds@.len() <= u32::MAX,
        delta is Some <==> resolution.verdict == Verdict::Granted,
        delta matches Some(d) ==> old(ledger).granted_bytes + d.bytes <= usize::MAX,
        resolution.verdict == Verdict::Escalate ==> old(ledger).escalations < u32::MAX,
    ensures
        took_in(
            *old(ledger),
            *final(ledger),
            round_of(
                context::granted(old(ledger).rounds@).len() as u32,
                job_id,
                request,
                resolution_ref,
                resolution.verdict,
                delta,
            ),
            resolution.verdict,
        ),
        match resolution.verdict {
            Verdict::Granted => r is Granted,
            Verdict::Escalate => r is Escalated,
            Verdict::Denied => r matches Relay::Denied(m) && m@ == denial(*resolution),
        },
        old(ledger).sound() && old(ledger).state == LedgerState::Open ==> final(ledger).sound(),
{
    let round: u32 = ledger.rounds_used();
    if let Some(d) = &delta {
        ledger.granted_bytes = ledger.granted_bytes + d.bytes;
    }
    let (outcome, relay): (RoundOutcome, Relay) = match resolution.verdict {
        Verdict::Granted => (RoundOutcome::Granted, Relay::Granted),
        Verdict::Escalate => {
            ledger.state = LedgerState::NeedsPlannerContextApproval;
            ledger.escalations = ledger.escalations + 1;
            (RoundOutcome::Escalated, Relay::Escalated)
        },
        Verdict::Denied => {
            ledger.state = LedgerState::Denied;
            let code: &str = match &resolution.code {
                Some(code) => code.as_str(),
                None => "DENIED",
            };
            let named: String = name_offender(&resolution.items);
            (RoundOutcome::Denied, Relay::Denied(text::join2(code, named.as_str())))
        },
    };
    ledger.rounds.push(
        RoundRecord {
            round,
            job_id,
            request,
            resolution: resolution_ref,
            outcome,
            delta,
            decision: None,
        },
    );
    relay
}

/// The phase that records what became of a request.
pub fn phase_of(verdict: Verdict) -> (r: &'static str)
    ensures
        r@ == relay_phase(verdict),
{
    match verdict {
        Verdict::Granted => "CONTEXT_DELTA_GRANTED",
        Verdict::Escalate => "NEEDS_PLANNER_CONTEXT_APPROVAL",
        Verdict::Denied => "CONTEXT_REQUEST_DENIED",
    }
}

/// What a worker's failure is where its request was not granted.
pub open spec fn unrelayed(relay: Relay, task: Seq<char>, verifying: bool) -> Option<Seq<char>> {
    match relay {
        Relay::Granted => None,
        Relay::Escalated => Some(
            if verifying {
                "VERIFIER_CONTEXT_REQUEST_DENIED: "@ + "ESCALATION_NOT_PERMITTED"@
                    + "; verification reached no decision"@
            } else {
                "NEEDS_PLANNER_CONTEXT_APPROVAL: task "@ + task
                    + " requested context outside its read scope; decide it with agentctl run context"@
            },
        ),
        Relay::Denied(code) => Some(
            if verifying {
                "VERIFIER_CONTEXT_REQUEST_DENIED: "@ + code@ + "; verification reached no decision"@
            } else {
                "CONTEXT_REQUEST_DENIED: "@ + code@ + "; task "@ + task + " remains blocked"@
            },
        ),
    }
}

/// Lets a worker go on only where its request was granted. A verifier cannot
/// escalate to the planner, so anything outside its envelope is denied.
pub fn go_on(relay: &Relay, task: &str, verifying: bool) -> (r: Result<(), Error>)
    ensures
        crate::error::settles(r, unrelayed(*relay, task@, verifying)),
{
    let said: String = match relay {
        Relay::Granted => return Ok(()),
        Relay::Escalated => if verifying {
            text::join3(
                "VERIFIER_CONTEXT_REQUEST_DENIED: ",
                "ESCALATION_NOT_PERMITTED",
                "; verification reached no decision",
            )
        } else {
            text::join3(
                "NEEDS_PLANNER_CONTEXT_APPROVAL: task ",
                task,
                " requested context outside its read scope; decide it with agentctl run context",
            )
        },
        Relay::Denied(code) => if verifying {
            text::join3(
                "VERIFIER_CONTEXT_REQUEST_DENIED: ",
                code.as_str(),
                "; verification reached no decision",
            )
        } else {
            let head: String = text::join3("CONTEXT_REQUEST_DENIED: ", code.as_str(), "; task ");
            text::join3(head.as_str(), task, " remains blocked")
        },
    };
    invalid(said.as_str())
}

// ---------------------------------------------------------------------------
// Planner decisions
// ---------------------------------------------------------------------------

/// The relay of the executor of a task, as a run records it.
pub open spec fn executor_ledger(run: RunRecord, task: Seq<char>) -> Option<int> {
    record::ledger_at(run.context@, "executor:"@ + task, 0)
}

fn find_executor_ledger(run: &RunRecord, task: &str) -> (r: Option<usize>)
    ensures
        match r {
            Some(k) => k < run.context@.len() && executor_ledger(*run, task@) == Some(k as int),
            None => executor_ledger(*run, task@) is None,
        },
{
    let key: String = text::join2("executor:", task);
    record::find_ledger(&run.context, key.as_str())
}

/// Why a decision does not answer the request that a relay waits with, if it does
/// not.
pub open spec fn unawaited(l: ContextLedger, decision: ContextDecision) -> Option<Seq<char>> {
    if l.state != LedgerState::NeedsPlannerContextApproval {
        Some("no escalated context request awaits a decision for the task"@)
    } else if l.rounds@.len() == 0 {
        Some("escalated ledger has no round"@)
    } else if !(l.rounds@.last().outcome == RoundOutcome::Escalated
        && l.rounds@.last().request.hash@ == decision.request_hash@) {
        Some("decision names another context request"@)
    } else {
        None
    }
}

/// Why a decision cannot be applied to a run, if it cannot.
pub open spec fn undecidable(run: RunRecord, decision: ContextDecision) -> Option<Seq<char>> {
    match executor_ledger(run, decision.task_id@) {
        None => Some("task has no context relay ledger"@),
        Some(k) => unawaited(run.context@[k].ledger, decision),
    }
}

/// Checks that a decision answers the request that awaits one, and finds the
/// relay that waits with it.
pub fn check_decidable(run: &RunRecord, decision: &ContextDecision) -> (r: Result<usize, Error>)
    ensures
        crate::error::settles(r, undecidable(*run, *decision)),
        r matches Ok(k) ==> k < run.context@.len() && executor_ledger(*run, decision.task_id@)
            == Some(k as int),
{
    let k: usize = match find_executor_ledger(run, decision.task_id.as_str()) {
        Some(k) => k,
        None => return invalid("task has no context relay ledger"),
    };
    let l: &ContextLedger = &run.context[k].ledger;
    if l.state != LedgerState::NeedsPlannerContextApproval {
        return invalid("no escalated context request awaits a decision for the task");
    }
    if l.rounds.len() == 0 {
        return invalid("escalated ledger has no round");
    }
    let last: &RoundRecord = &l.rounds[l.rounds.len() - 1];
    if !(last.outcome == RoundOutcome::Escalated && text::same(
        last.request.hash.as_str(),
        decision.request_hash.as_str(),
    )) {
        return invalid("decision names another context request");
    }
    Ok(k)
}

/// How much of a planner's reason is kept.
pub const DENIAL_CHARS: usize = 512;

/// Why a run stands blocked after a denial.
pub open spec fn denied_reason(decision: ContextDecision) -> Seq<char> {
    "CONTEXT_ESCALATION_DENIED: "@ + text::clipped(decision.reason@, DENIAL_CHARS as int)
}

/// Whether a relay was denied for good: its last round is, and nothing else of
/// what it holds changes.
pub open spec fn was_denied(
    before: ContextLedger,
    after: ContextLedger,
    decision_ref: ArtifactRef,
) -> bool {
    &&& after.state == LedgerState::PlannerDenied
    &&& after.rounds@ == before.rounds@.update(
        before.rounds@.len() - 1,
        RoundRecord {
            outcome: RoundOutcome::PlannerDenied,
            decision: Some(decision_ref),
            ..before.rounds@.last()
        },
    )
    &&& after.granted_bytes == before.granted_bytes
    &&& after.approved_scope == before.approved_scope
    &&& after.escalations == before.escalations
    &&& after.base == before.base
    &&& after.role == before.role
    &&& after.task_id == before.task_id
}

/// Whether one relay of a run was changed, and no other.
pub open spec fn only_ledger_changed(
    before: Seq<LedgerEntry>,
    after: Seq<LedgerEntry>,
    k: int,
) -> bool {
    &&& after.len() == before.len()
    &&& after[k].key == before[k].key
    &&& forall|i: int| 0 <= i < before.len() && i != k ==> (#[trigger] after[i]) == before[i]
}

fn deny_ledger(ledger: &mut ContextLedger, decision_ref: ArtifactRef)
    requires
        old(ledger).rounds@.len() > 0,
    ensures
        was_denied(*old(ledger), *final(ledger), decision_ref),
{
    ledger.state = LedgerState::PlannerDenied;
    let ghost rounds = ledger.rounds@;
    match ledger.rounds.pop() {
        Some(mut last) => {
            last.outcome = RoundOutcome::PlannerDenied;
            last.decision = Some(decision_ref);
            ledger.rounds.push(last);
            assert(ledger.rounds@ =~= rounds.update(rounds.len() - 1, last));
        },
        None => {},
    }
}

/// Applies a denial: the last round and the relay are denied for good, and the run
/// stands blocked for that reason.
pub fn deny(run: &mut RunRecord, decision: &ContextDecision, decision_ref: ArtifactRef)
    requires
        undecidable(*old(run), *decision) is None,
    ensures
        *final(run) == (RunRecord {
            state: RunState::Blocked,
            reason: final(run).reason,
            context: final(run).context,
            ..*old(run)
        }),
        validation::is_text(final(run).reason, denied_reason(*decision)),
        executor_ledger(*old(run), decision.task_id@) matches Some(k) && only_ledger_changed(
            old(run).context@,
            final(run).context@,
            k,
        ) && was_denied(
            old(run).context@[k].ledger,
            final(run).context@[k].ledger,
            decision_ref,
        ),
{
    let ghost before = run.context@;
    if let Some(k) = find_executor_ledger(run, decision.task_id.as_str()) {
        let mut entry: LedgerEntry = run.context.remove(k);
        deny_ledger(&mut entry.ledger, decision_ref);
        run.context.insert(k, entry);
        assert(run.context@ =~= before.update(k as int, entry));
    }
    let reason: String = text::clip(decision.reason.as_str(), DENIAL_CHARS);
    run.state = RunState::Blocked;
    run.reason = Some(text::join2("CONTEXT_ESCALATION_DENIED: ", reason.as_str()));
}

pub const APPROVAL_POLICY_DRIFT: &'static str =
    "SOURCE_DRIFT: canonical policy changed; replan required";

pub const BEYOND_REQUEST: &'static str = "approved scope exceeds the planning request's own scope";

pub const AGAINST_EXCLUSION: &'static str =
    "approved scope contradicts a verification contract exclusion";

/// The first task with an identifier, from the `i`-th on.
pub open spec fn inspected_at(tasks: Seq<TaskInspection>, id: Seq<char>, i: int) -> Option<int>
    decreases tasks.len() - i,
{
    if i < 0 || i >= tasks.len() {
        None
    } else if tasks[i].packet.task_id@ == id {
        Some(i)
    } else {
        inspected_at(tasks, id, i + 1)
    }
}

/// Finds the task that a decision is about.
pub fn decided_task(tasks: &Vec<TaskInspection>, decision: &ContextDecision) -> (r: Result<
    usize,
    Error,
>)
    ensures
        match inspected_at(tasks@, decision.task_id@, 0) {
            Some(k) => r matches Ok(n) && n as int == k,
            None => crate::error::refused(r, "decision names an unknown task"@),
        },
{
    let mut i: usize = 0;
    while i < tasks.len()
        invariant
            i <= tasks@.len(),
            inspected_at(tasks@, decision.task_id@, 0) == inspected_at(
                tasks@,
                decision.task_id@,
                i as int,
            ),
        decreases tasks@.len() - i,
    {
        if text::same(tasks[i].packet.task_id.as_str(), decision.task_id.as_str()) {
            return Ok(i);
        }
        i += 1;
    }
    invalid("decision names an unknown task")
}

/// Whether a scope contradicts an exclusion.
pub open spec fn excluded(exclusions: Seq<ScopePath>, s: ScopePath) -> bool {
    exists|i: int|
        0 <= i < exclusions.len() && (scope::allows(#[trigger] exclusions[i], s.at())
            || scope::allows(s, exclusions[i].at()))
}

fn is_excluded(exclusions: &Vec<ScopePath>, s: &ScopePath) -> (r: bool)
    ensures
        r == excluded(exclusions@, *s),
{
    let mut i: usize = 0;
    while i < exclusions.len()
        invariant
            i <= exclusions@.len(),
            forall|k: int|
                0 <= k < i ==> !(scope::allows(#[trigger] exclusions@[k], s.at()) || scope::allows(
                    *s,
                    exclusions@[k].at(),
                )),
        decreases exclusions@.len() - i,
    {
        if scope::permits(&exclusions[i], s.path()) || scope::permits(s, exclusions[i].path()) {
            return true;
        }
        i += 1;
    }
    false
}

/// What the repository says of the path of an added scope.
#[derive(Debug, PartialEq, Eq)]
pub struct AdditionFacts {
    pub path_refusal: Option<String>,
    pub symlinked: bool,
}

/// Why the added scopes from the `i`-th on cannot be approved, if they cannot.
pub open spec fn additions_refusal(
    additions: Seq<ScopePath>,
    facts: Seq<AdditionFacts>,
    policy: ProjectPolicy,
    requested: Seq<ScopePath>,
    exclusions: Seq<ScopePath>,
    i: int,
) -> Option<Seq<char>>
    decreases additions.len() - i,
{
    if i < 0 || i >= additions.len() {
        None
    } else {
        crate::error::either(
            scope::scope_refusal(
                facts[i].path_refusal,
                policy.protected@,
                additions[i],
                false,
                facts[i].symlinked,
            ),
            if requested.len() > 0 && !scope::any_allows(requested, additions[i].at()) {
                Some(BEYOND_REQUEST@)
            } else if excluded(exclusions, additions[i]) {
                Some(AGAINST_EXCLUSION@)
            } else {
                additions_refusal(additions, facts, policy, requested, exclusions, i + 1)
            },
        )
    }
}

fn check_additions(
    additions: &Vec<ScopePath>,
    facts: &Vec<AdditionFacts>,
    policy: &ProjectPolicy,
    requested: &Vec<ScopePath>,
    exclusions: &Vec<ScopePath>,
) -> (r: Result<(), Error>)
    requires
        facts@.len() == additions@.len(),
    ensures
        crate::error::settles(
            r,
            additions_refusal(additions@, facts@, *policy, requested@, exclusions@, 0),
        ),
{
    let mut i: usize = 0;
    while i < additions.len()
        invariant
            i <= additions@.len(),
            facts@.len() == additions@.len(),
            additions_refusal(additions@, facts@, *policy, requested@, exclusions@, 0)
                == additions_refusal(
                additions@,
                facts@,
                *policy,
                requested@,
                exclusions@,
                i as int,
            ),
        decreases additions@.len() - i,
    {
        match scope::safe_scope(
            &facts[i].path_refusal,
            &policy.protected,
            &additions[i],
            false,
            facts[i].symlinked,
        ) {
            Ok(()) => {},
            Err(e) => return Err(e),
        }
        if requested.len() > 0 && !scope::any_permits(requested, additions[i].path()) {
            return invalid(BEYOND_REQUEST);
        }
        if is_excluded(exclusions, &additions[i]) {
            return invalid(AGAINST_EXCLUSION);
        }
        i += 1;
    }
    Ok(())
}

/// What is known where an approval is applied.
#[derive(Debug, PartialEq, Eq)]
pub struct ApprovalFacts {
    /// The hash of the project policy as it is now.
    pub policy_hash: String,
    /// Whether the workspace is what the run expects.
    pub unchanged: bool,
    pub generation: Option<GraphGeneration>,
    pub source_hash: String,
    pub additions: Vec<AdditionFacts>,
}

/// Why an approval cannot be applied, if it cannot: policy, source, ontology,
/// the planning request's own scope and the exclusions have to allow it still.
pub open spec fn approval_refusal(
    run: RunRecord,
    ledger: ContextLedger,
    decision: ContextDecision,
    policy: ProjectPolicy,
    requested: Seq<ScopePath>,
    exclusions: Seq<ScopePath>,
    facts: ApprovalFacts,
) -> Option<Seq<char>> {
    if facts.policy_hash@ != run.policy_hash@ {
        Some(APPROVAL_POLICY_DRIFT@)
    } else if !facts.unchanged {
        Some(crate::runtime::schedule::SOURCE_CHANGED@)
    } else {
        match ledger.base {
            None => Some("escalated ledger has no issued base"@),
            Some(base) => crate::error::either(
                base_drift(base, facts.generation, facts.source_hash@),
                additions_refusal(
                    decision.read_scope_additions@,
                    facts.additions@,
                    policy,
                    requested,
                    exclusions,
                    0,
                ),
            ),
        }
    }
}

/// Checks that an approval can be applied.
pub fn check_approval(
    run: &RunRecord,
    ledger: &ContextLedger,
    decision: &ContextDecision,
    policy: &ProjectPolicy,
    requested: &Vec<ScopePath>,
    exclusions: &Vec<ScopePath>,
    facts: &ApprovalFacts,
) -> (r: Result<(), Error>)
    requires
        facts.additions@.len() == decision.read_scope_additions@.len(),
    ensures
        crate::error::settles(
            r,
            approval_refusal(
                *run,
                *ledger,
                *decision,
                *policy,
                requested@,
                exclusions@,
                *facts,
            ),
        ),
{
    if !text::same(facts.policy_hash.as_str(), run.policy_hash.as_str()) {
        return invalid(APPROVAL_POLICY_DRIFT);
    }
    if !facts.unchanged {
        return invalid(crate::runtime::schedule::SOURCE_CHANGED);
    }
    match &ledger.base {
        None => invalid("escalated ledger has no issued base"),
        Some(base) => {
            match revalidate(base, &facts.generation, facts.source_hash.as_str()) {
                Ok(()) => {},
                Err(e) => return Err(e),
            }
            check_additions(
                &decision.read_scope_additions,
                &facts.additions,
                policy,
                requested,
                exclusions,
            )
        },
    }
}

/// The envelope of an executor: what its task may read, what planners approved
/// before, and what is being approved.
pub fn widened(
    read_scope: &Vec<ScopePath>,
    approved: &Vec<ScopePath>,
    additions: &Vec<ScopePath>,
    memory: &Vec<String>,
) -> (r: Envelope)
    ensures
        r.scopes@ == read_scope@ + approved@ + additions@,
        r.memory@ == memory@,
{
    let mut scopes: Vec<ScopePath> = scope::copied(read_scope);
    let mut more: Vec<ScopePath> = scope::copied(approved);
    scopes.append(&mut more);
    let mut last: Vec<ScopePath> = scope::copied(additions);
    scopes.append(&mut last);
    assert(scopes@ =~= read_scope@ + approved@ + additions@);
    Envelope { scopes, memory: text::copied(memory) }
}

/// A code as it appears in messages.
pub open spec fn code_name(code: Option<String>) -> Seq<char> {
    match code {
        Some(c) => "Some(\""@ + c@ + "\")"@,
        None => "None"@,
    }
}

/// Checks that the approved scope resolves the request within its budget.
pub fn check_resolved(resolution: &ContextResolution) -> (r: Result<(), Error>)
    ensures
        crate::error::settles(
            r,
            if resolution.verdict == Verdict::Granted {
                None
            } else {
                Some(
                    "the approved scope still does not resolve this request within budget ("@
                        + code_name(resolution.code) + "); deny it or replan"@,
                )
            },
        ),
{
    if resolution.verdict == Verdict::Granted {
        return Ok(());
    }
    let code: String = match &resolution.code {
        Some(c) => text::join3("Some(\"", c.as_str(), "\")"),
        None => "None".to_owned(),
    };
    let said: String = text::join3(
        "the approved scope still does not resolve this request within budget (",
        code.as_str(),
        "); deny it or replan",
    );
    invalid(said.as_str())
}

/// Whether a relay was opened again by an approval, with the added scope and the
/// delta that it released.
pub open spec fn was_approved(
    before: ContextLedger,
    after: ContextLedger,
    decision: ContextDecision,
    decision_ref: ArtifactRef,
    resolution_ref: ArtifactRef,
    delta: DeltaRef,
) -> bool {
    &&& after.state == LedgerState::Open
    &&& after.approved_scope@ == before.approved_scope@ + decision.read_scope_additions@
    &&& after.granted_bytes == before.granted_bytes + delta.bytes
    &&& after.rounds@ == before.rounds@.update(
        before.rounds@.len() - 1,
        RoundRecord {
            outcome: RoundOutcome::Approved,
            decision: Some(decision_ref),
            resolution: resolution_ref,
            delta: Some(delta),
            ..before.rounds@.last()
        },
    )
    &&& after.escalations == before.escalations
    &&& after.base == before.base
    &&& after.role == before.role
    &&& after.task_id == before.task_id
}

fn approve_ledger(
    ledger: &mut ContextLedger,
    decision: &ContextDecision,
    decision_ref: ArtifactRef,
    resolution_ref: ArtifactRef,
    delta: DeltaRef,
)
    requires
        old(ledger).rounds@.len() > 0,
        old(ledger).granted_bytes + delta.bytes <= usize::MAX,
    ensures
        was_approved(
            *old(ledger),
            *final(ledger),
            *decision,
            decision_ref,
            resolution_ref,
            delta,
        ),
{
    ledger.state = LedgerState::Open;
    let ghost (approved, rounds) = (ledger.approved_scope@, ledger.rounds@);
    let mut more: Vec<ScopePath> = scope::copied(&decision.read_scope_additions);
    ledger.approved_scope.append(&mut more);
    assert(ledger.approved_scope@ =~= approved + decision.read_scope_additions@);
    ledger.granted_bytes = ledger.granted_bytes + delta.bytes;
    match ledger.rounds.pop() {
        Some(mut last) => {
            last.outcome = RoundOutcome::Approved;
            last.decision = Some(decision_ref);
            last.resolution = resolution_ref;
            last.delta = Some(delta);
            ledger.rounds.push(last);
            assert(ledger.rounds@ =~= rounds.update(rounds.len() - 1, last));
        },
        None => {},
    }
}

/// Applies an approval: the relay is open again, with the added scope and the
/// delta that it released, and the run goes on.
pub fn approve(
    run: &mut RunRecord,
    decision: &ContextDecision,
    decision_ref: ArtifactRef,
    resolution_ref: ArtifactRef,
    delta: DeltaRef,
)
    requires
        undecidable(*old(run), *decision) is None,
        executor_ledger(*old(run), decision.task_id@) matches Some(k) && old(
            run,
        ).context@[k].ledger.granted_bytes + delta.bytes <= usize::MAX,
    ensures
        *final(run) == (RunRecord {
            state: RunState::Running,
            reason: None,
            context: final(run).context,
            ..*old(run)
        }),
        executor_ledger(*old(run), decision.task_id@) matches Some(k) && only_ledger_changed(
            old(run).context@,
            final(run).context@,
            k,
        ) && was_approved(
            old(run).context@[k].ledger,
            final(run).context@[k].ledger,
            *decision,
            decision_ref,
            resolution_ref,
            delta,
        ),
{
    let ghost before = run.context@;
    if let Some(k) = find_executor_ledger(run, decision.task_id.as_str()) {
        let mut entry: LedgerEntry = run.context.remove(k);
        approve_ledger(&mut entry.ledger, decision, decision_ref, resolution_ref, delta);
        run.context.insert(k, entry);
        assert(run.context@ =~= before.update(k as int, entry));
    }
    run.state = RunState::Running;
    run.reason = None;
}

/// Whether a task is planned again after an approval.
pub fn replans(state: Option<TaskState>) -> (r: bool)
    ensures
        r == (state == Some(TaskState::Blocked)),
{
    match state {
        Some(TaskState::Blocked) => true,
        _ => false,
    }
}

// ---------------------------------------------------------------------------
// Inspection
// ---------------------------------------------------------------------------

/// The last of the first `n` rounds that was escalated.
pub open spec fn last_escalated(rounds: Seq<RoundRecord>, n: int) -> Option<int>
    decreases n,
{
    if n <= 0 {
        None
    } else if rounds[n - 1].outcome is Escalated {
        Some(n - 1)
    } else {
        last_escalated(rounds, n - 1)
    }
}

/// The paths outside the envelope that the first `n` items ask for.
pub open spec fn outside_paths(items: Seq<ItemResolution>, n: int) -> Seq<Seq<char>>
    decreases n,
{
    if n <= 0 {
        Seq::empty()
    } else if items[n - 1].outcome is OutsideEnvelope {
        outside_paths(items, n - 1) + text::texts(items[n - 1].paths@)
    } else {
        outside_paths(items, n - 1)
    }
}

/// What stands for the reason in a decision that is yet to be filled in.
pub const REASON_PLACEHOLDER: &'static str = "<why this expansion is the planner's intent>";

/// What stands for the actor in a decision that is yet to be filled in.
pub const ACTOR_PLACEHOLDER: &'static str = "<planner or operator>";

/// How a decision is handed in.
pub const DECIDE_HINT: &'static str = "agentctl run context decide <plan-id> <decision.json>";

/// A request that waits for a decision: its hash, the paths outside the envelope
/// that it asks for, in order, and a decision that would approve exactly those,
/// for the planner to complete.
#[derive(Debug, PartialEq, Eq)]
pub struct AwaitedDecision {
    pub request_hash: String,
    pub outside_paths: Vec<String>,
    pub template: ContextDecision,
}

/// Whether some additions are the paths, each as a file, in order.
pub open spec fn adds_files(additions: Seq<ScopePath>, paths: Seq<Seq<char>>) -> bool {
    &&& additions.len() == paths.len()
    &&& forall|i: int|
        0 <= i < paths.len() ==> match #[trigger] additions[i] {
            ScopePath::File { path } => path@ == paths[i],
            ScopePath::Directory { .. } => false,
        }
}

/// Whether a decision approves exactly the paths that a request asks for, with
/// its reason and its actor still to be filled in.
pub open spec fn is_template(
    d: ContextDecision,
    plan: Seq<char>,
    task: Seq<char>,
    request_hash: Seq<char>,
    paths: Seq<Seq<char>>,
) -> bool {
    &&& d.version@ == context::DECISION_VERSION@
    &&& d.plan_id@ == plan
    &&& d.task_id@ == task
    &&& d.request_hash@ == request_hash
    &&& d.decision is Approve
    &&& adds_files(d.read_scope_additions@, paths)
    &&& d.reason@ == REASON_PLACEHOLDER@
    &&& d.actor@ == ACTOR_PLACEHOLDER@
}

/// The task of a subject, or nothing where it has none.
pub open spec fn subject_task(ledger: ContextLedger) -> Seq<char> {
    match ledger.task_id {
        Some(task) => task@,
        None => ""@,
    }
}

/// A decision that approves what a request asks for, for the planner to complete.
pub fn decision_template(
    plan: &str,
    ledger: &ContextLedger,
    request_hash: &String,
    paths: &Vec<String>,
) -> (r: ContextDecision)
    ensures
        is_template(r, plan@, subject_task(*ledger), request_hash@, text::texts(paths@)),
{
    let mut additions: Vec<ScopePath> = Vec::new();
    let mut i: usize = 0;
    while i < paths.len()
        invariant
            i <= paths@.len(),
            additions@.len() == i,
            forall|k: int|
                0 <= k < i ==> match #[trigger] additions@[k] {
                    ScopePath::File { path } => path@ == text::texts(paths@)[k],
                    ScopePath::Directory { .. } => false,
                },
        decreases paths@.len() - i,
    {
        additions.push(ScopePath::File { path: paths[i].clone() });
        i += 1;
    }
    ContextDecision {
        version: context::DECISION_VERSION.to_string(),
        plan_id: plan.to_string(),
        task_id: match &ledger.task_id {
            Some(task) => task.clone(),
            None => "".to_string(),
        },
        request_hash: request_hash.clone(),
        decision: DecisionKind::Approve,
        read_scope_additions: additions,
        reason: REASON_PLACEHOLDER.to_string(),
        actor: ACTOR_PLACEHOLDER.to_string(),
    }
}

/// Whether a decision is awaited on the `k`-th round of a subject, as it should be
/// reported.
pub open spec fn awaits(
    d: AwaitedDecision,
    plan: Seq<char>,
    ledger: ContextLedger,
    resolutions: Seq<ContextResolution>,
    k: int,
) -> bool {
    &&& d.request_hash == ledger.rounds@[k].request.hash
    &&& text::texts(d.outside_paths@) == text::in_order(
        outside_paths(resolutions[k].items@, resolutions[k].items@.len() as int),
    )
    &&& is_template(
        d.template,
        plan,
        subject_task(ledger),
        d.request_hash@,
        text::texts(d.outside_paths@),
    )
}

/// How the relay stands for a subject.
#[derive(Debug, PartialEq, Eq)]
pub struct SubjectReport {
    pub rounds_used: u32,
    pub max_rounds: u32,
    pub task_bytes_remaining: usize,
    pub awaited: Option<AwaitedDecision>,
}

/// The position of the request of a subject that waits for a decision.
pub open spec fn awaited_round(ledger: ContextLedger) -> Option<int> {
    if ledger.state is NeedsPlannerContextApproval {
        last_escalated(ledger.rounds@, ledger.rounds@.len() as int)
    } else {
        None
    }
}

fn list_outside(items: &Vec<ItemResolution>) -> (r: Vec<String>)
    ensures
        text::texts(r@) == text::in_order(outside_paths(items@, items@.len() as int)),
{
    let mut all: Vec<String> = Vec::new();
    let mut n: usize = 0;
    assert(text::texts(all@) =~= Seq::<Seq<char>>::empty());
    while n < items.len()
        invariant
            n <= items@.len(),
            text::texts(all@) == outside_paths(items@, n as int),
        decreases items@.len() - n,
    {
        let outside: bool = match items[n].outcome {
            ItemOutcome::OutsideEnvelope => true,
            _ => false,
        };
        if outside {
            let ghost before = text::texts(all@);
            let mut more: Vec<String> = text::copied(&items[n].paths);
            all.append(&mut more);
            assert(text::texts(all@) =~= before + text::texts(items@[n as int].paths@));
        }
        n += 1;
    }
    let set: Vec<String> = text::set_of(&all);
    proof {
        text::lemma_in_order(text::texts(set@), text::texts(all@));
    }
    set
}

/// Tells how the relay stands for a subject. `resolutions` are what its requests
/// were answered with, round by round.
pub fn report_subject(
    plan: &str,
    ledger: &ContextLedger,
    resolutions: &Vec<ContextResolution>,
    limits: &ContextConfig,
) -> (r: SubjectReport)
    requires
        resolutions@.len() == ledger.rounds@.len() <= u32::MAX,
    ensures
        r.rounds_used == context::granted(ledger.rounds@).len(),
        r.max_rounds == if ledger.role is Executor {
            limits.max_rounds
        } else {
            limits.verifier_max_rounds
        },
        r.task_bytes_remaining == remaining(*limits, *ledger),
        match awaited_round(*ledger) {
            Some(k) => r.awaited matches Some(d) && awaits(d, plan@, *ledger, resolutions@, k),
            None => r.awaited is None,
        },
{
    let waits: bool = match ledger.state {
        LedgerState::NeedsPlannerContextApproval => true,
        _ => false,
    };
    let mut awaited: Option<AwaitedDecision> = None;
    if waits {
        let mut n: usize = ledger.rounds.len();
        while n > 0 && awaited.is_none()
            invariant
                n <= ledger.rounds@.len(),
                resolutions@.len() == ledger.rounds@.len(),
                ledger.state is NeedsPlannerContextApproval,
                match awaited {
                    Some(d) => awaited_round(*ledger) matches Some(k) && awaits(
                        d,
                        plan@,
                        *ledger,
                        resolutions@,
                        k,
                    ),
                    None => awaited_round(*ledger) == last_escalated(ledger.rounds@, n as int),
                },
            decreases n,
        {
            n -= 1;
            match ledger.rounds[n].outcome {
                RoundOutcome::Escalated => {
                    let request_hash: String = ledger.rounds[n].request.hash.clone();
                    let outside_paths: Vec<String> = list_outside(&resolutions[n].items);
                    let template: ContextDecision = decision_template(
                        plan,
                        ledger,
                        &request_hash,
                        &outside_paths,
                    );
                    awaited = Some(AwaitedDecision { request_hash, outside_paths, template });
                },
                _ => {},
            }
        }
    }
    let max_rounds: u32 = match ledger.role {
        AgentRole::Executor => limits.max_rounds,
        _ => limits.verifier_max_rounds,
    };
    SubjectReport {
        rounds_used: ledger.rounds_used(),
        max_rounds,
        task_bytes_remaining: bytes_remaining(limits, ledger),
        awaited,
    }
}

// ---------------------------------------------------------------------------
// Laws
// ---------------------------------------------------------------------------

proof fn lemma_granted_push(rounds: Seq<RoundRecord>, round: RoundRecord)
    ensures
        context::granted(rounds.push(round)).len() == context::granted(rounds).len()
            + if round.delta is Some {
            1int
        } else {
            0int
        },
{
    assert(rounds.push(round).drop_last() =~= rounds);
}

/// A request that is not granted widens nothing: no delta is added, no byte is
/// counted, and the relay is closed until a planner decides.
pub proof fn law_ungranted_requests_widen_nothing(
    before: ContextLedger,
    after: ContextLedger,
    round: RoundRecord,
    verdict: Verdict,
)
    requires
        took_in(before, after, round, verdict),
        verdict != Verdict::Granted,
        round.delta is None,
    ensures
        after.granted_bytes == before.granted_bytes,
        after.approved_scope == before.approved_scope,
        context::granted(after.rounds@).len() == context::granted(before.rounds@).len(),
        after.state != LedgerState::Open,
{
    lemma_granted_push(before.rounds@, round);
}

/// A request that is granted within its budget never takes a task over its
/// bytes or its rounds.
pub proof fn law_grants_stay_within_the_budget(
    before: ContextLedger,
    after: ContextLedger,
    round: RoundRecord,
    limits: ContextConfig,
    max_rounds: u32,
)
    requires
        took_in(before, after, round, Verdict::Granted),
        round.delta is Some,
        round.delta->0.bytes <= remaining(limits, before),
        context::granted(before.rounds@).len() < max_rounds,
        before.granted_bytes <= limits.max_task_bytes,
    ensures
        after.granted_bytes <= limits.max_task_bytes,
        context::granted(after.rounds@).len() <= max_rounds,
{
    lemma_granted_push(before.rounds@, round);
}

/// Only an executor can reach a planner: whatever another worker asks for is
/// granted or denied.
pub proof fn law_only_executors_escalate(
    role: AgentRole,
    request_max_bytes: u32,
    limits: ContextConfig,
    ledger: ContextLedger,
    items: Seq<ItemResolution>,
    bytes: int,
)
    requires
        !(role is Executor),
    ensures
        resolve::verdict_of(
            items,
            bytes,
            budget_of(
                request_max_bytes,
                limits,
                ledger,
                allowance_of(role, limits).0,
                ledger.escalations,
                allowance_of(role, limits).1,
            ),
        ).0 != Verdict::Escalate,
{
}

proof fn lemma_granted_last(rounds: Seq<RoundRecord>)
    requires
        rounds.len() > 0,
    ensures
        context::granted(rounds).len() == context::granted(rounds.drop_last()).len() + if rounds.last(
        ).delta is Some {
            1int
        } else {
            0int
        },
{
}

/// An approval of a sound relay counts one round more, and leaves it sound: the
/// request that waited had no delta, and has the approved one now.
pub proof fn law_an_approval_is_one_round(
    before: ContextLedger,
    after: ContextLedger,
    decision: ContextDecision,
    decision_ref: ArtifactRef,
    resolution_ref: ArtifactRef,
    delta: DeltaRef,
)
    requires
        before.sound(),
        unawaited(before, decision) is None,
        was_approved(before, after, decision, decision_ref, resolution_ref, delta),
    ensures
        after.sound(),
        context::granted(after.rounds@).len() == context::granted(before.rounds@).len() + 1,
{
    let n = before.rounds@.len() as int;
    assert(before.rounds@[n - 1].delta is None);
    lemma_granted_last(before.rounds@);
    lemma_granted_last(after.rounds@);
    assert(after.rounds@.drop_last() =~= before.rounds@.drop_last());
}

/// A denial of a sound relay counts no round, grants nothing, and leaves it sound.
pub proof fn law_a_denial_grants_nothing(
    before: ContextLedger,
    after: ContextLedger,
    decision: ContextDecision,
    decision_ref: ArtifactRef,
)
    requires
        before.sound(),
        unawaited(before, decision) is None,
        was_denied(before, after, decision_ref),
    ensures
        after.sound(),
        context::granted(after.rounds@) == context::granted(before.rounds@),
        after.granted_bytes == before.granted_bytes,
        after.approved_scope == before.approved_scope,
{
    let n = before.rounds@.len() as int;
    assert(before.rounds@[n - 1].delta is None);
    lemma_granted_last(before.rounds@);
    lemma_granted_last(after.rounds@);
    assert(after.rounds@.drop_last() =~= before.rounds@.drop_last());
}

} // verus!
