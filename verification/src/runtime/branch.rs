//! Work in isolated branches: under what authority it is launched, when that
//! authority is stale, and how its captured results come back or are withdrawn.
use crate::error::{invalid, Error};
use crate::graph;
use crate::graph::GraphGeneration;
use crate::planning::model::PlanState;
use crate::planning::validation;
use crate::protocol;
use crate::protocol::{find_task, AgentRole, TaskPacket, TaskState};
use crate::runtime::concurrency;
use crate::runtime::concurrency::{
    decide, Compatibility, CompatibilityDecision, CompatibilityReason,
};
use crate::runtime::context;
use crate::runtime::context::ContextLedger;
use crate::runtime::record;
use crate::runtime::record::{
    BatchLaunchAuthority, LedgerEntry, PendingTask, ReconciliationIntent, RunRecord, RunState,
};
use crate::runtime::schedule::Ground;
use crate::source;
use crate::source::{ArtifactRef, SourceSnapshot};
use crate::store;
use crate::store::TaskStatus;
use crate::text;
use vstd::prelude::*;

verus! {

// ---------------------------------------------------------------------------
// Decisions alike
// ---------------------------------------------------------------------------

/// Whether two reasons are the same.
pub open spec fn same_reason(a: CompatibilityReason, b: CompatibilityReason) -> bool {
    match (a, b) {
        (
            CompatibilityReason::OntologyProvesNoInterference { generation: x },
            CompatibilityReason::OntologyProvesNoInterference { generation: y },
        ) => graph::same_generation(Some(x), Some(y)),
        _ => a@ == b@,
    }
}

fn alike(a: &CompatibilityReason, b: &CompatibilityReason) -> (r: bool)
    ensures
        r == same_reason(*a, *b),
{
    match (a, b) {
        (
            CompatibilityReason::DisjointDeclaredScopes,
            CompatibilityReason::DisjointDeclaredScopes,
        ) => true,
        (
            CompatibilityReason::OntologyProvesNoInterference { generation: x },
            CompatibilityReason::OntologyProvesNoInterference { generation: y },
        ) => x.sequence == y.sequence && text::same(x.fingerprint.as_str(), y.fingerprint.as_str()),
        (
            CompatibilityReason::DagDependency { predecessor: p, successor: s },
            CompatibilityReason::DagDependency { predecessor: q, successor: t },
        ) => text::same(p.as_str(), q.as_str()) && text::same(s.as_str(), t.as_str()),
        (
            CompatibilityReason::WriteWriteOverlap { left: p, right: s },
            CompatibilityReason::WriteWriteOverlap { left: q, right: t },
        ) => text::same(p.as_str(), q.as_str()) && text::same(s.as_str(), t.as_str()),
        (
            CompatibilityReason::WriteReadInterference { writer: p, write: s, reader: u, read: w },
            CompatibilityReason::WriteReadInterference { writer: q, write: t, reader: v, read: x },
        ) => text::same(p.as_str(), q.as_str()) && text::same(s.as_str(), t.as_str())
            && text::same(u.as_str(), v.as_str()) && text::same(w.as_str(), x.as_str()),
        (
            CompatibilityReason::SharedEntity { entity: p },
            CompatibilityReason::SharedEntity { entity: q },
        ) => text::same(p.as_str(), q.as_str()),
        (
            CompatibilityReason::SemanticInterference { source: p, affected: s, path: u },
            CompatibilityReason::SemanticInterference { source: q, affected: t, path: v },
        ) => text::same(p.as_str(), q.as_str()) && text::same(s.as_str(), t.as_str())
            && text::same(u.as_str(), v.as_str()),
        (
            CompatibilityReason::SemanticBoundary { task: p, detail: s },
            CompatibilityReason::SemanticBoundary { task: q, detail: t },
        ) => text::same(p.as_str(), q.as_str()) && text::same(s.as_str(), t.as_str()),
        (
            CompatibilityReason::MissingSemanticAuthority { task: p },
            CompatibilityReason::MissingSemanticAuthority { task: q },
        ) => text::same(p.as_str(), q.as_str()),
        (
            CompatibilityReason::DifferentSource { left: p, right: s },
            CompatibilityReason::DifferentSource { left: q, right: t },
        ) => text::same(p.as_str(), q.as_str()) && text::same(s.as_str(), t.as_str()),
        _ => false,
    }
}

/// Whether two decisions are the same.
pub open spec fn same_decision(a: CompatibilityDecision, b: CompatibilityDecision) -> bool {
    &&& a.left@ == b.left@
    &&& a.right@ == b.right@
    &&& a.decision == b.decision
    &&& a.reasons@.len() == b.reasons@.len()
    &&& forall|i: int|
        0 <= i < a.reasons@.len() ==> same_reason(#[trigger] a.reasons@[i], b.reasons@[i])
}

fn decided_alike(a: &CompatibilityDecision, b: &CompatibilityDecision) -> (r: bool)
    ensures
        r == same_decision(*a, *b),
{
    if !(text::same(a.left.as_str(), b.left.as_str()) && text::same(
        a.right.as_str(),
        b.right.as_str(),
    ) && a.decision == b.decision && a.reasons.len() == b.reasons.len()) {
        return false;
    }
    let mut i: usize = 0;
    while i < a.reasons.len()
        invariant
            i <= a.reasons@.len(),
            a.reasons@.len() == b.reasons@.len(),
            forall|k: int| 0 <= k < i ==> same_reason(#[trigger] a.reasons@[k], b.reasons@[k]),
        decreases a.reasons@.len() - i,
    {
        if !alike(&a.reasons[i], &b.reasons[i]) {
            assert(!same_reason(a.reasons@[i as int], b.reasons@[i as int]));
            return false;
        }
        i += 1;
    }
    true
}

/// Whether two lists of decisions are the same.
pub open spec fn same_decisions(
    a: Seq<CompatibilityDecision>,
    b: Seq<CompatibilityDecision>,
) -> bool {
    &&& a.len() == b.len()
    &&& forall|i: int| 0 <= i < a.len() ==> same_decision(#[trigger] a[i], b[i])
}

fn all_decided_alike(a: &Vec<CompatibilityDecision>, b: &Vec<CompatibilityDecision>) -> (r: bool)
    ensures
        r == same_decisions(a@, b@),
{
    if a.len() != b.len() {
        return false;
    }
    let mut i: usize = 0;
    while i < a.len()
        invariant
            i <= a@.len(),
            a@.len() == b@.len(),
            forall|k: int| 0 <= k < i ==> same_decision(#[trigger] a@[k], b@[k]),
        decreases a@.len() - i,
    {
        if !decided_alike(&a[i], &b[i]) {
            assert(!same_decision(a@[i as int], b@[i as int]));
            return false;
        }
        i += 1;
    }
    true
}

// ---------------------------------------------------------------------------
// Authority for a batch
// ---------------------------------------------------------------------------

pub const UNPROVEN: &'static str =
    "UNKNOWN: batch contains a task without positive pairwise compatibility evidence";

/// The decision on two tasks of a batch, the one with the smaller identifier
/// first.
pub open spec fn ordered(g: Ground<'_>, a: int, b: int) -> (int, int) {
    if text::before(g.tasks@[a].packet.task_id@, g.tasks@[b].packet.task_id@) {
        (a, b)
    } else {
        (b, a)
    }
}

/// Why a task of a batch cannot be launched with the others, from the `o`-th
/// member on; `seen` says whether another one came before.
pub open spec fn member_refusal(
    g: Ground<'_>,
    batch: Seq<int>,
    t: int,
    o: int,
    seen: bool,
    proven: bool,
) -> Option<Seq<char>>
    decreases batch.len() - o,
{
    if o < 0 || o >= batch.len() {
        if seen && proven {
            None
        } else {
            Some(UNPROVEN@)
        }
    } else if g.tasks@[batch[o]].packet.task_id@ == g.tasks@[t].packet.task_id@ {
        member_refusal(g, batch, t, o + 1, seen, proven)
    } else {
        let (x, y) = ordered(g, t, batch[o]);
        match concurrency::decide_refusal(
            *g.plan,
            *g.info,
            g.tasks@[x].packet,
            g.tasks@[y].packet,
            *g.facts,
        ) {
            Some(m) => Some(m),
            None => member_refusal(
                g,
                batch,
                t,
                o + 1,
                true,
                proven && crate::runtime::schedule::compatible(g, x, y),
            ),
        }
    }
}

/// Checks that a task of a batch has positive evidence against every other one.
pub fn check_member(g: &Ground<'_>, batch: &Vec<usize>, t: usize) -> (r: Result<(), Error>)
    requires
        t < g.tasks@.len(),
        forall|k: int| 0 <= k < batch@.len() ==> (#[trigger] batch@[k]) < g.tasks@.len(),
    ensures
        crate::error::settles(
            r,
            member_refusal(
                *g,
                crate::runtime::schedule::positions(batch@),
                t as int,
                0,
                false,
                true,
            ),
        ),
{
    let ghost all = crate::runtime::schedule::positions(batch@);
    let mut seen: bool = false;
    let mut proven: bool = true;
    let mut o: usize = 0;
    while o < batch.len()
        invariant
            o <= batch@.len(),
            all == crate::runtime::schedule::positions(batch@),
            t < g.tasks@.len(),
            forall|k: int| 0 <= k < batch@.len() ==> (#[trigger] batch@[k]) < g.tasks@.len(),
            member_refusal(*g, all, t as int, 0, false, true) == member_refusal(
                *g,
                all,
                t as int,
                o as int,
                seen,
                proven,
            ),
        decreases batch@.len() - o,
    {
        let k: usize = batch[o];
        assert(all[o as int] == k);
        let (own, other): (&TaskPacket, &TaskPacket) = (&g.tasks[t].packet, &g.tasks[k].packet);
        if !text::same(other.task_id.as_str(), own.task_id.as_str()) {
            let (x, y): (&TaskPacket, &TaskPacket) = if text::less(
                own.task_id.as_str(),
                other.task_id.as_str(),
            ) {
                (own, other)
            } else {
                (other, own)
            };
            match decide(g.plan, g.info, x, y, g.facts) {
                Ok(d) => {
                    seen = true;
                    proven = proven && d.decision == Compatibility::Compatible;
                },
                Err(e) => return Err(e),
            }
        }
        o += 1;
    }
    if seen && proven {
        Ok(())
    } else {
        invalid(UNPROVEN)
    }
}

pub const PAIR_UNPROVEN: &'static str =
    "STALE_CONCURRENCY_AUTHORITY: pairwise compatibility is no longer proven";

/// The pairs of `n` things from `(i, j)` on, in order.
pub open spec fn pairs_from(n: int, i: int, j: int) -> Seq<(int, int)>
    decreases n - i, n - j,
{
    if i < 0 || j <= i || i >= n {
        Seq::empty()
    } else if j >= n {
        pairs_from(n, i + 1, i + 2)
    } else {
        seq![(i, j)] + pairs_from(n, i, j + 1)
    }
}

/// Why two tasks of a batch are not proven compatible any more, from the pair
/// `(i, j)` on.
pub open spec fn pairs_refusal(g: Ground<'_>, batch: Seq<int>, i: int, j: int) -> Option<Seq<char>>
    decreases batch.len() - i, batch.len() - j,
{
    if i < 0 || j <= i || i >= batch.len() {
        None
    } else if j >= batch.len() {
        pairs_refusal(g, batch, i + 1, i + 2)
    } else {
        match concurrency::decide_refusal(
            *g.plan,
            *g.info,
            g.tasks@[batch[i]].packet,
            g.tasks@[batch[j]].packet,
            *g.facts,
        ) {
            Some(m) => Some(m),
            None => if !crate::runtime::schedule::compatible(g, batch[i], batch[j]) {
                Some(PAIR_UNPROVEN@)
            } else {
                pairs_refusal(g, batch, i, j + 1)
            },
        }
    }
}

/// Whether a decision is the one on two tasks of a batch.
pub open spec fn decides_pair(
    d: CompatibilityDecision,
    g: Ground<'_>,
    batch: Seq<int>,
    pair: (int, int),
) -> bool {
    let (left, right) = (g.tasks@[batch[pair.0]].packet, g.tasks@[batch[pair.1]].packet);
    concurrency::decision_is(
        d,
        left,
        right,
        concurrency::decision_of(*g.plan, *g.info, left, right, *g.facts),
    )
}

/// Decides afresh on every two tasks of a batch. A pair that is not compatible
/// refuses the batch.
pub fn prove_batch(g: &Ground<'_>, batch: &Vec<usize>) -> (r: Result<
    Vec<CompatibilityDecision>,
    Error,
>)
    requires
        forall|k: int| 0 <= k < batch@.len() ==> (#[trigger] batch@[k]) < g.tasks@.len(),
    ensures
        crate::error::settles(
            r,
            pairs_refusal(*g, crate::runtime::schedule::positions(batch@), 0, 1),
        ),
        r matches Ok(decisions) ==> {
            let all = pairs_from(batch@.len() as int, 0, 1);
            &&& decisions@.len() == all.len()
            &&& crate::runtime::reconcile::all_compatible(decisions@)
            &&& forall|k: int|
                0 <= k < all.len() ==> decides_pair(
                    #[trigger] decisions@[k],
                    *g,
                    crate::runtime::schedule::positions(batch@),
                    all[k],
                )
        },
{
    let ghost at = crate::runtime::schedule::positions(batch@);
    let ghost all = pairs_from(batch@.len() as int, 0, 1);
    let ghost mut done: Seq<(int, int)> = Seq::empty();
    let mut out: Vec<CompatibilityDecision> = Vec::new();
    let n: usize = batch.len();
    let mut i: usize = 0;
    let mut j: usize = 1;
    assert(done + all =~= all);
    while i < n
        invariant
            n == batch@.len(),
            i < j,
            i < n ==> j <= n,
            i <= n,
            at == crate::runtime::schedule::positions(batch@),
            all == pairs_from(n as int, 0, 1),
            forall|k: int| 0 <= k < batch@.len() ==> (#[trigger] batch@[k]) < g.tasks@.len(),
            done + pairs_from(n as int, i as int, j as int) == all,
            pairs_refusal(*g, at, 0, 1) == pairs_refusal(*g, at, i as int, j as int),
            out@.len() == done.len(),
            crate::runtime::reconcile::all_compatible(out@),
            forall|k: int|
                0 <= k < done.len() ==> decides_pair(#[trigger] out@[k], *g, at, done[k]),
        decreases n - i, n + 1 - j,
    {
        if j >= n {
            i += 1;
            if i >= n {
                assert(pairs_from(n as int, i as int, i + 1) =~= Seq::empty());
                assert(pairs_refusal(*g, at, i as int, i + 1) is None);
                assert(done + Seq::<(int, int)>::empty() =~= done);
                return Ok(out);
            }
            j = i + 1;
        } else {
            let (x, y): (usize, usize) = (batch[i], batch[j]);
            assert(at[i as int] == x && at[j as int] == y);
            let d: CompatibilityDecision = match decide(
                g.plan,
                g.info,
                &g.tasks[x].packet,
                &g.tasks[y].packet,
                g.facts,
            ) {
                Ok(d) => d,
                Err(e) => return Err(e),
            };
            if d.decision != Compatibility::Compatible {
                return invalid(PAIR_UNPROVEN);
            }
            let ghost so_far = done;
            let ghost rest = pairs_from(n as int, i as int, j + 1);
            out.push(d);
            proof {
                done = done.push((i as int, j as int));
                assert(done + rest =~= so_far + (seq![(i as int, j as int)] + rest));
            }
            j += 1;
        }
    }
    assert(done + Seq::<(int, int)>::empty() =~= done);
    Ok(out)
}

/// Whether a decision rests on a generation of the ontology.
pub open spec fn rests_on(d: CompatibilityDecision, generation: GraphGeneration) -> bool {
    exists|i: int|
        0 <= i < d.reasons@.len() && same_reason(
            #[trigger] d.reasons@[i],
            CompatibilityReason::OntologyProvesNoInterference { generation },
        )
}

fn does_rest_on(d: &CompatibilityDecision, generation: &GraphGeneration) -> (r: bool)
    ensures
        r == rests_on(*d, *generation),
{
    let mut i: usize = 0;
    while i < d.reasons.len()
        invariant
            i <= d.reasons@.len(),
            forall|k: int|
                0 <= k < i ==> !same_reason(
                    #[trigger] d.reasons@[k],
                    CompatibilityReason::OntologyProvesNoInterference { generation: *generation },
                ),
        decreases d.reasons@.len() - i,
    {
        let bound: bool = match &d.reasons[i] {
            CompatibilityReason::OntologyProvesNoInterference { generation: g } => g.sequence
                == generation.sequence && text::same(
                g.fingerprint.as_str(),
                generation.fingerprint.as_str(),
            ),
            _ => false,
        };
        if bound {
            assert(same_reason(
                d.reasons@[i as int],
                CompatibilityReason::OntologyProvesNoInterference { generation: *generation },
            ));
            return true;
        }
        i += 1;
    }
    false
}

/// Whether every decision rests on a generation of the ontology.
pub open spec fn all_rest_on(
    decisions: Seq<CompatibilityDecision>,
    generation: GraphGeneration,
) -> bool {
    forall|i: int| 0 <= i < decisions.len() ==> rests_on(#[trigger] decisions[i], generation)
}

fn do_all_rest_on(decisions: &Vec<CompatibilityDecision>, generation: &GraphGeneration) -> (r: bool)
    ensures
        r == all_rest_on(decisions@, *generation),
{
    let mut i: usize = 0;
    while i < decisions.len()
        invariant
            i <= decisions@.len(),
            forall|k: int| 0 <= k < i ==> rests_on(#[trigger] decisions@[k], *generation),
        decreases decisions@.len() - i,
    {
        if !does_rest_on(&decisions[i], generation) {
            return false;
        }
        i += 1;
    }
    true
}

/// What is known where a batch is claimed.
#[derive(Debug, PartialEq, Eq)]
pub struct ClaimFacts {
    /// Whether the canonical source is the one that the run expects.
    pub source_unchanged: bool,
    pub generation: Option<GraphGeneration>,
    pub plan_state: PlanState,
    pub cancelled: bool,
}

/// Why a batch cannot be claimed, if it cannot: every authority that it was
/// selected under has to hold still.
pub open spec fn claim_refusal(
    decisions: Seq<CompatibilityDecision>,
    facts: ClaimFacts,
) -> Option<Seq<char>> {
    if !crate::runtime::reconcile::all_compatible(decisions) {
        Some(PAIR_UNPROVEN@)
    } else if !facts.source_unchanged {
        Some("STALE_CONCURRENCY_AUTHORITY: canonical source changed before batch claim"@)
    } else {
        match facts.generation {
            None => Some("STALE_CONCURRENCY_AUTHORITY: accepted ontology is unavailable"@),
            Some(generation) => if !all_rest_on(decisions, generation) {
                Some(
                    "STALE_CONCURRENCY_AUTHORITY: compatibility does not bind the current ontology"@,
                )
            } else if facts.plan_state != PlanState::Active {
                Some("STALE_CONCURRENCY_AUTHORITY: execution plan is no longer active"@)
            } else if facts.cancelled {
                Some("STALE_CONCURRENCY_AUTHORITY: runtime was cancelled before batch claim"@)
            } else {
                None
            },
        }
    }
}

/// Checks every authority under which a batch is claimed. `decisions` are the
/// fresh ones on every two of its tasks.
pub fn check_claim(decisions: &Vec<CompatibilityDecision>, facts: &ClaimFacts) -> (r: Result<
    (),
    Error,
>)
    ensures
        crate::error::settles(r, claim_refusal(decisions@, *facts)),
{
    if !crate::runtime::reconcile::are_compatible(decisions) {
        return invalid(PAIR_UNPROVEN);
    }
    if !facts.source_unchanged {
        return invalid(
            "STALE_CONCURRENCY_AUTHORITY: canonical source changed before batch claim",
        );
    }
    match &facts.generation {
        None => invalid("STALE_CONCURRENCY_AUTHORITY: accepted ontology is unavailable"),
        Some(generation) => {
            if !do_all_rest_on(decisions, generation) {
                return invalid(
                    "STALE_CONCURRENCY_AUTHORITY: compatibility does not bind the current ontology",
                );
            }
            if facts.plan_state != PlanState::Active {
                return invalid(
                    "STALE_CONCURRENCY_AUTHORITY: execution plan is no longer active",
                );
            }
            if facts.cancelled {
                return invalid(
                    "STALE_CONCURRENCY_AUTHORITY: runtime was cancelled before batch claim",
                );
            }
            Ok(())
        },
    }
}

/// What the protocol has against a task becoming READY and EXECUTING.
#[derive(Debug, PartialEq, Eq)]
pub struct ClaimRule {
    pub ready: Option<String>,
    pub executing: Option<String>,
}

/// Why a task in a state cannot be claimed, if it cannot.
pub open spec fn task_claim_refusal(state: Option<TaskState>, rule: ClaimRule) -> Option<Seq<char>> {
    match state {
        None => Some("batch task state disappeared"@),
        Some(TaskState::Planned) => crate::error::either(
            validation::message(rule.ready),
            validation::message(rule.executing),
        ),
        Some(TaskState::Ready) => validation::message(rule.executing),
        Some(_) => Some("STALE_CONCURRENCY_AUTHORITY: selected task is no longer READY"@),
    }
}

/// Claims a task: the states that it goes through to EXECUTING.
pub fn claim(state: Option<TaskState>, rule: &ClaimRule) -> (r: Result<Vec<TaskState>, Error>)
    ensures
        crate::error::settles(r, task_claim_refusal(state, *rule)),
        r matches Ok(v) ==> v@ == if state == Some(TaskState::Planned) {
            seq![TaskState::Ready, TaskState::Executing]
        } else {
            seq![TaskState::Executing]
        },
{
    let mut path: Vec<TaskState> = Vec::new();
    match state {
        None => return invalid("batch task state disappeared"),
        Some(TaskState::Planned) => {
            match validation::unless(&rule.ready) {
                Ok(()) => {},
                Err(e) => return Err(e),
            }
            path.push(TaskState::Ready);
        },
        Some(TaskState::Ready) => {},
        Some(_) => return invalid(
            "STALE_CONCURRENCY_AUTHORITY: selected task is no longer READY",
        ),
    }
    match validation::unless(&rule.executing) {
        Ok(()) => {},
        Err(e) => return Err(e),
    }
    path.push(TaskState::Executing);
    assert(path@ =~= if state == Some(TaskState::Planned) {
        seq![TaskState::Ready, TaskState::Executing]
    } else {
        seq![TaskState::Executing]
    });
    Ok(path)
}

/// Whether a task is stopped where its branch failed.
pub fn branch_stops(state: TaskState) -> (r: bool)
    ensures
        r == (state == TaskState::Executing || state == TaskState::AwaitingVerification),
{
    state == TaskState::Executing || state == TaskState::AwaitingVerification
}

// ---------------------------------------------------------------------------
// Authority at launch
// ---------------------------------------------------------------------------

/// The authority that a branch was given.
#[derive(Debug, PartialEq, Eq)]
pub struct BranchAuthority {
    pub compatibility: Vec<CompatibilityDecision>,
    pub generation: Option<String>,
}

/// What is known right before a process is created.
#[derive(Debug, PartialEq, Eq)]
pub struct LaunchFacts {
    /// Whether the workspace is the source that the job was issued.
    pub source_unchanged: bool,
    pub plan_state: PlanState,
    pub cancelled: bool,
    /// The identifier of the accepted generation, where there is one.
    pub generation: Option<String>,
    /// Whether the canonical source is the one that the batch was claimed on.
    pub batch_source_unchanged: bool,
}

/// Whether every task of a plan is verified, and the run accepted exactly them
/// and holds nothing else.
pub open spec fn integrable(run: RunRecord, states: Seq<TaskStatus>) -> bool {
    &&& forall|i: int|
        0 <= i < states.len() ==> (#[trigger] states[i]).state == TaskState::Verified
    &&& run.accepted@.len() == states.len()
    &&& run.pending is None
    &&& run.branches@.len() == 0
}

fn is_integrable(run: &RunRecord, states: &Vec<TaskStatus>) -> (r: bool)
    ensures
        r == integrable(*run, states@),
{
    let mut i: usize = 0;
    while i < states.len()
        invariant
            i <= states@.len(),
            forall|k: int| 0 <= k < i ==> (#[trigger] states@[k]).state == TaskState::Verified,
        decreases states@.len() - i,
    {
        if states[i].state != TaskState::Verified {
            return false;
        }
        i += 1;
    }
    run.accepted.len() == states.len() && run.pending.is_none() && run.branches.len() == 0
}

/// Why a worker may not do what it is launched for any more, if it may not.
pub open spec fn eligibility_refusal(
    run: RunRecord,
    states: Seq<TaskStatus>,
    role: AgentRole,
    task: Option<Seq<char>>,
) -> Option<Seq<char>> {
    match (role, task) {
        (AgentRole::Executor, Some(t)) => if store::state_of(states, t, 0) == Some(
            TaskState::Executing,
        ) {
            None
        } else {
            Some("STALE_CONCURRENCY_AUTHORITY: task claim changed before executor launch"@)
        },
        (AgentRole::Verifier, Some(t)) => if store::state_of(states, t, 0) == Some(
            TaskState::Verifying,
        ) && run.pending is Some {
            None
        } else {
            Some(
                "STALE_CONCURRENCY_AUTHORITY: task is not currently eligible for verification"@,
            )
        },
        (AgentRole::Verifier, None) => if integrable(run, states) {
            None
        } else {
            Some(
                "STALE_CONCURRENCY_AUTHORITY: plan is not currently eligible for integration verification"@,
            )
        },
        _ => None,
    }
}

fn check_eligibility(
    run: &RunRecord,
    states: &Vec<TaskStatus>,
    role: AgentRole,
    task: Option<&str>,
) -> (r: Result<(), Error>)
    ensures
        crate::error::settles(
            r,
            eligibility_refusal(*run, states@, role, crate::runtime::attempt::borrowed(task)),
        ),
{
    match (role, task) {
        (AgentRole::Executor, Some(t)) => match store::task_state(states, t) {
            Some(TaskState::Executing) => Ok(()),
            _ => invalid(
                "STALE_CONCURRENCY_AUTHORITY: task claim changed before executor launch",
            ),
        },
        (AgentRole::Verifier, Some(t)) => {
            let verifying: bool = match store::task_state(states, t) {
                Some(TaskState::Verifying) => true,
                _ => false,
            };
            if verifying && run.pending.is_some() {
                Ok(())
            } else {
                invalid(
                    "STALE_CONCURRENCY_AUTHORITY: task is not currently eligible for verification",
                )
            }
        },
        (AgentRole::Verifier, None) => {
            if is_integrable(run, states) {
                Ok(())
            } else {
                invalid(
                    "STALE_CONCURRENCY_AUTHORITY: plan is not currently eligible for integration verification",
                )
            }
        },
        _ => Ok(()),
    }
}

/// Why a branch may not be launched under its batch any more, if it may not.
pub open spec fn batch_refusal(
    batch: Option<BatchLaunchAuthority>,
    branch: BranchAuthority,
    task: Option<Seq<char>>,
    facts: LaunchFacts,
) -> Option<Seq<char>> {
    match (task, batch) {
        (None, _) => Some("branch task authority missing"@),
        (Some(_), None) => Some(
            "STALE_CONCURRENCY_AUTHORITY: durable batch authority missing"@,
        ),
        (Some(t), Some(b)) => if text::texts(b.tasks@).contains(t) && same_decisions(
            b.compatibility@,
            branch.compatibility@,
        ) && branch.generation is None {
            Some("branch ontology authority missing"@)
        } else if !(text::texts(b.tasks@).contains(t) && same_decisions(
            b.compatibility@,
            branch.compatibility@,
        ) && validation::is_text(branch.generation, b.ontology_generation@)) {
            Some(
                "STALE_CONCURRENCY_AUTHORITY: launch no longer corresponds to the authorized batch branch"@,
            )
        } else if facts.generation is None {
            Some("STALE_CONCURRENCY_AUTHORITY: accepted ontology is unavailable"@)
        } else if !validation::is_text(facts.generation, b.ontology_generation@) {
            Some("STALE_CONCURRENCY_AUTHORITY: ontology changed before executor launch"@)
        } else if !facts.batch_source_unchanged {
            Some("STALE_CONCURRENCY_AUTHORITY: canonical source changed before executor launch"@)
        } else {
            None
        },
    }
}

fn check_batch(
    batch: &Option<BatchLaunchAuthority>,
    branch: &BranchAuthority,
    task: Option<&str>,
    facts: &LaunchFacts,
) -> (r: Result<(), Error>)
    ensures
        crate::error::settles(
            r,
            batch_refusal(*batch, *branch, crate::runtime::attempt::borrowed(task), *facts),
        ),
{
    let t: &str = match task {
        Some(t) => t,
        None => return invalid("branch task authority missing"),
    };
    let b: &BatchLaunchAuthority = match batch {
        Some(b) => b,
        None => return invalid("STALE_CONCURRENCY_AUTHORITY: durable batch authority missing"),
    };
    let member: bool = text::among(&b.tasks, t) && all_decided_alike(
        &b.compatibility,
        &branch.compatibility,
    );
    if member && branch.generation.is_none() {
        return invalid("branch ontology authority missing");
    }
    if !(member && validation::holds_text(&branch.generation, b.ontology_generation.as_str())) {
        return invalid(
            "STALE_CONCURRENCY_AUTHORITY: launch no longer corresponds to the authorized batch branch",
        );
    }
    if facts.generation.is_none() {
        return invalid("STALE_CONCURRENCY_AUTHORITY: accepted ontology is unavailable");
    }
    if !validation::holds_text(&facts.generation, b.ontology_generation.as_str()) {
        return invalid("STALE_CONCURRENCY_AUTHORITY: ontology changed before executor launch");
    }
    if !facts.batch_source_unchanged {
        return invalid(
            "STALE_CONCURRENCY_AUTHORITY: canonical source changed before executor launch",
        );
    }
    Ok(())
}

/// Why a process may not be created any more, if it may not. `branch` is the
/// authority of an isolated executor.
pub open spec fn launch_refusal(
    run: RunRecord,
    states: Seq<TaskStatus>,
    role: AgentRole,
    task: Option<Seq<char>>,
    branch: Option<BranchAuthority>,
    facts: LaunchFacts,
) -> Option<Seq<char>> {
    if !facts.source_unchanged {
        Some("SOURCE_DRIFT: launch source changed before external process creation"@)
    } else if !(run.state == RunState::Running && facts.plan_state == PlanState::Active
        && !facts.cancelled && run.reconciliation is None) {
        Some(
            "STALE_CONCURRENCY_AUTHORITY: lifecycle or reconciliation authority changed before launch"@,
        )
    } else {
        crate::error::either(
            eligibility_refusal(run, states, role, task),
            match branch {
                Some(b) => batch_refusal(run.batch_authority, b, task, facts),
                None => None,
            },
        )
    }
}

/// Proves every durable authority of a job of a plan once more, as close to the
/// creation of its process as can be.
pub fn check_launch(
    run: &RunRecord,
    states: &Vec<TaskStatus>,
    role: AgentRole,
    task: Option<&str>,
    branch: &Option<BranchAuthority>,
    facts: &LaunchFacts,
) -> (r: Result<(), Error>)
    ensures
        crate::error::settles(
            r,
            launch_refusal(
                *run,
                states@,
                role,
                crate::runtime::attempt::borrowed(task),
                *branch,
                *facts,
            ),
        ),
{
    if !facts.source_unchanged {
        return invalid("SOURCE_DRIFT: launch source changed before external process creation");
    }
    if !(run.state == RunState::Running && facts.plan_state == PlanState::Active
        && !facts.cancelled && run.reconciliation.is_none()) {
        return invalid(
            "STALE_CONCURRENCY_AUTHORITY: lifecycle or reconciliation authority changed before launch",
        );
    }
    match check_eligibility(run, states, role, task) {
        Ok(()) => {},
        Err(e) => return Err(e),
    }
    match branch {
        Some(b) => check_batch(&run.batch_authority, b, task, facts),
        None => Ok(()),
    }
}

/// Why a claimed branch may not be launched, if it may not.
pub open spec fn claimed_refusal(
    source_unchanged: bool,
    live: Seq<char>,
    branch: BranchAuthority,
    state: Option<TaskState>,
) -> Option<Seq<char>> {
    if !source_unchanged {
        Some(
            "STALE_CONCURRENCY_AUTHORITY: canonical source changed after batch claim and before executor launch"@,
        )
    } else if branch.generation is None {
        Some("branch ontology authority missing"@)
    } else if !validation::is_text(branch.generation, live) {
        Some(
            "STALE_CONCURRENCY_AUTHORITY: ontology changed after batch claim and before executor launch"@,
        )
    } else if state != Some(TaskState::Executing) {
        Some("STALE_CONCURRENCY_AUTHORITY: task claim changed before executor launch"@)
    } else {
        None
    }
}

/// Checks a claimed branch before its executor is invoked. `live` identifies the
/// ontology generation as it is now.
pub fn check_claimed(
    source_unchanged: bool,
    live: &str,
    branch: &BranchAuthority,
    state: Option<TaskState>,
) -> (r: Result<(), Error>)
    ensures
        crate::error::settles(r, claimed_refusal(source_unchanged, live@, *branch, state)),
{
    if !source_unchanged {
        return invalid(
            "STALE_CONCURRENCY_AUTHORITY: canonical source changed after batch claim and before executor launch",
        );
    }
    if branch.generation.is_none() {
        return invalid("branch ontology authority missing");
    }
    if !validation::holds_text(&branch.generation, live) {
        return invalid(
            "STALE_CONCURRENCY_AUTHORITY: ontology changed after batch claim and before executor launch",
        );
    }
    match state {
        Some(TaskState::Executing) => Ok(()),
        _ => invalid("STALE_CONCURRENCY_AUTHORITY: task claim changed before executor launch"),
    }
}

/// A branch is launched only while its own task is claimed under the batch that
/// the run durably authorized, on the ontology that batch was authorized on.
pub proof fn law_branches_launch_under_their_batch(
    run: RunRecord,
    states: Seq<TaskStatus>,
    task: Seq<char>,
    branch: BranchAuthority,
    facts: LaunchFacts,
)
    requires
        launch_refusal(run, states, AgentRole::Executor, Some(task), Some(branch), facts) is None,
    ensures
        store::state_of(states, task, 0) == Some(TaskState::Executing),
        run.state == RunState::Running,
        run.batch_authority is Some,
        text::texts(run.batch_authority->0.tasks@).contains(task),
        validation::is_text(facts.generation, run.batch_authority->0.ontology_generation@),
        facts.source_unchanged && facts.batch_source_unchanged && !facts.cancelled,
{
}

// ---------------------------------------------------------------------------
// Results of branches
// ---------------------------------------------------------------------------

/// A capture in an isolated worktree, as it stands for canonical source: its own
/// index has to be untouched, and is replaced by the canonical one.
pub fn branch_capture(captured: SourceSnapshot, physical: &str, canonical: &String) -> (r: Result<
    SourceSnapshot,
    Error,
>)
    ensures
        crate::error::settles(
            r,
            if captured.index_hash@ == physical@ {
                None
            } else {
                Some("SOURCE_DRIFT: isolated executor changed its Git index"@)
            },
        ),
        r matches Ok(s) ==> s == (SourceSnapshot { index_hash: *canonical, ..captured }),
{
    if !text::same(captured.index_hash.as_str(), physical) {
        return invalid("SOURCE_DRIFT: isolated executor changed its Git index");
    }
    let mut out: SourceSnapshot = captured;
    out.index_hash = canonical.clone();
    Ok(out)
}

/// The position of the branch of a task, looked up from the `i`-th on.
pub open spec fn branch_at(branches: Seq<PendingTask>, task: Seq<char>, i: int) -> Option<int>
    decreases branches.len() - i,
{
    if i < 0 || i >= branches.len() {
        None
    } else if branches[i].task_id@ == task {
        Some(i)
    } else {
        branch_at(branches, task, i + 1)
    }
}

pub fn find_branch(branches: &Vec<PendingTask>, task: &str) -> (r: Option<usize>)
    ensures
        match r {
            Some(i) => i < branches@.len() && branch_at(branches@, task@, 0) == Some(i as int),
            None => branch_at(branches@, task@, 0) is None,
        },
{
    let mut i: usize = 0;
    while i < branches.len()
        invariant
            i <= branches@.len(),
            branch_at(branches@, task@, 0) == branch_at(branches@, task@, i as int),
        decreases branches@.len() - i,
    {
        if text::same(branches[i].task_id.as_str(), task) {
            return Some(i);
        }
        i += 1;
    }
    None
}

/// The branch whose task comes first, among the first `n`.
pub open spec fn least(branches: Seq<PendingTask>, n: int) -> int
    decreases n,
{
    if n <= 1 {
        0
    } else {
        let k = least(branches, n - 1);
        if text::before(branches[n - 1].task_id@, branches[k].task_id@) {
            n - 1
        } else {
            k
        }
    }
}

/// Why the next branch cannot be reconciled, if it cannot.
pub open spec fn next_branch_refusal(branch: PendingTask, tasks: Seq<TaskPacket>) -> Option<
    Seq<char>,
> {
    if protocol::task_at(tasks, branch.task_id@, 0) is None {
        Some("branch task is absent from plan"@)
    } else if branch.ontology_generation is None {
        Some("UNKNOWN: branch lacks issued ontology generation"@)
    } else {
        None
    }
}

/// Chooses the captured branch that is reconciled next, and finds its task.
pub fn next_branch(branches: &Vec<PendingTask>, tasks: &Vec<TaskPacket>) -> (r: Result<
    (usize, usize),
    Error,
>)
    requires
        branches@.len() > 0,
    ensures
        ({
            let k = least(branches@, branches@.len() as int);
            &&& 0 <= k < branches@.len()
            &&& crate::error::settles(r, next_branch_refusal(branches@[k], tasks@))
            &&& (r matches Ok(found) ==> found.0 as int == k && Some(found.1 as int)
                == protocol::task_at(tasks@, branches@[k].task_id@, 0))
        }),
{
    let mut k: usize = 0;
    let mut n: usize = 1;
    while n < branches.len()
        invariant
            1 <= n <= branches@.len(),
            k < n,
            k as int == least(branches@, n as int),
        decreases branches@.len() - n,
    {
        if text::less(branches[n].task_id.as_str(), branches[k].task_id.as_str()) {
            k = n;
        }
        n += 1;
    }
    match find_task(tasks, branches[k].task_id.as_str()) {
        None => invalid("branch task is absent from plan"),
        Some(t) => {
            if branches[k].ontology_generation.is_none() {
                return invalid("UNKNOWN: branch lacks issued ontology generation");
            }
            Ok((k, t))
        },
    }
}

/// Why a publication that was begun cannot be taken up, if it cannot.
pub open spec fn recovery_refusal(run: RunRecord) -> Option<Seq<char>> {
    match run.reconciliation {
        None => Some("reconciliation intent missing"@),
        Some(intent) => match branch_at(run.branches@, intent.task_id@, 0) {
            None => Some("reconciliation intent has no captured branch"@),
            Some(k) => if run.branches@[k].executor@ == intent.executor@ && source::same_artifact(
                run.branches@[k].diff,
                intent.diff,
            ) {
                None
            } else {
                Some(
                    "RECONCILIATION_UNRESOLVED: durable intent does not match captured branch"@,
                )
            },
        },
    }
}

/// Checks that a publication that was begun is that of a captured branch.
pub fn check_recovery(run: &RunRecord) -> (r: Result<(), Error>)
    ensures
        crate::error::settles(r, recovery_refusal(*run)),
{
    match &run.reconciliation {
        None => invalid("reconciliation intent missing"),
        Some(intent) => match find_branch(&run.branches, intent.task_id.as_str()) {
            None => invalid("reconciliation intent has no captured branch"),
            Some(k) => if text::same(
                run.branches[k].executor.as_str(),
                intent.executor.as_str(),
            ) && run.branches[k].diff.same(&intent.diff) {
                Ok(())
            } else {
                invalid(
                    "RECONCILIATION_UNRESOLVED: durable intent does not match captured branch",
                )
            },
        },
    }
}

/// Records that a branch was published: it becomes the pending result on the
/// source that was intended, and keeps the one that it was published onto.
pub fn reconciled(run: &mut RunRecord, published: ArtifactRef)
    requires
        recovery_refusal(*old(run)) is None,
    ensures
        record::driven(*old(run), *final(run)),
        ({
            let intent = old(run).reconciliation->0;
            let k = branch_at(old(run).branches@, intent.task_id@, 0)->0;
            &&& final(run).pending == Some(
                PendingTask {
                    after: published,
                    reconciled_from: Some(intent.expected_source),
                    ..old(run).branches@[k]
                },
            )
            &&& final(run).branches@ == old(run).branches@.remove(k)
            &&& final(run).expected == intent.intended_source
        }),
        *final(run) == (RunRecord {
            pending: final(run).pending,
            branches: final(run).branches,
            expected: final(run).expected,
            reconciliation: None,
            ..*old(run)
        }),
{
    let intent: ReconciliationIntent = match run.reconciliation.take() {
        Some(intent) => intent,
        None => return ,
    };
    let k: usize = match find_branch(&run.branches, intent.task_id.as_str()) {
        Some(k) => k,
        None => return ,
    };
    let mut pending: PendingTask = run.branches.remove(k);
    pending.after = published;
    pending.reconciled_from = Some(intent.expected_source);
    run.pending = Some(pending);
    run.expected = intent.intended_source;
}

/// Whether a relay was never used.
pub open spec fn unused(ledger: ContextLedger) -> bool {
    context::granted(ledger.rounds@).len() == 0 && ledger.approved_scope@.len() == 0
}

/// Whether a branch that can no longer be published safely may be executed
/// again, serially: what was said against it is about siblings, and its relay
/// was never used.
pub open spec fn serializable(said: Seq<char>, ledger: Option<ContextLedger>) -> bool {
    &&& text::begins(said, "UNKNOWN:"@) || text::begins(said, "SEMANTIC_INTERFERENCE:"@)
    &&& match ledger {
        Some(l) => unused(l),
        None => true,
    }
}

pub fn may_serialize(said: &str, run: &RunRecord, task: &str) -> (r: bool)
    ensures
        r == serializable(
            said@,
            match record::ledger_at(run.context@, "executor:"@ + task@, 0) {
                Some(k) => Some(run.context@[k].ledger),
                None => None,
            },
        ),
{
    let key: String = text::join2("executor:", task);
    let clean: bool = match record::find_ledger(&run.context, key.as_str()) {
        Some(k) => {
            let ledger: &ContextLedger = &run.context[k].ledger;
            let deltas = ledger.deltas();
            assert(deltas@.map_values(|d: &context::DeltaRef| *d).len() == deltas@.len());
            deltas.len() == 0 && ledger.approved_scope.len() == 0
        },
        None => true,
    };
    clean && (text::starts_with(said, "UNKNOWN:") || text::starts_with(
        said,
        "SEMANTIC_INTERFERENCE:",
    ))
}

/// Withdraws the captured branch of a task, and its relay.
pub fn serialize(run: &mut RunRecord, task: &str)
    ensures
        record::driven(*old(run), *final(run)),
        final(run).branches@ == match branch_at(old(run).branches@, task@, 0) {
            Some(k) => old(run).branches@.remove(k),
            None => old(run).branches@,
        },
        final(run).context@ == match record::ledger_at(
            old(run).context@,
            "executor:"@ + task@,
            0,
        ) {
            Some(k) => old(run).context@.remove(k),
            None => old(run).context@,
        },
        *final(run) == (RunRecord {
            branches: final(run).branches,
            context: final(run).context,
            ..*old(run)
        }),
{
    if let Some(k) = find_branch(&run.branches, task) {
        let _withdrawn: PendingTask = run.branches.remove(k);
    }
    let key: String = text::join2("executor:", task);
    if let Some(k) = record::find_ledger(&run.context, key.as_str()) {
        let _closed: LedgerEntry = run.context.remove(k);
    }
}

/// How much of a reason is shown with a withdrawn branch.
pub const WITHDRAWN_CHARS: usize = 300;

/// What is said of a withdrawn branch.
pub fn withdrawn(task: &str, reason: &str) -> (r: String)
    ensures
        r@ == task@ + ": captured branch withdrawn, re-executing serially ("@ + text::clipped(
            reason@,
            WITHDRAWN_CHARS as int,
        ) + ")"@,
{
    let shown: String = text::clip(reason, WITHDRAWN_CHARS);
    let head: String = text::join2(task, ": captured branch withdrawn, re-executing serially (");
    text::join3(head.as_str(), shown.as_str(), ")")
}

/// The worktrees that some results still need, from the `i`-th on.
pub open spec fn worktrees(branches: Seq<PendingTask>, i: int) -> Seq<Seq<char>>
    decreases branches.len() - i,
{
    if i < 0 || i >= branches.len() {
        Seq::empty()
    } else {
        match branches[i].execution_workspace {
            Some(w) => seq![w@] + worktrees(branches, i + 1),
            None => worktrees(branches, i + 1),
        }
    }
}

/// The worktrees that a run still owns: those of captured branches and of the
/// pending result.
pub open spec fn owned_worktrees(run: RunRecord) -> Seq<Seq<char>> {
    worktrees(run.branches@, 0) + match run.pending {
        Some(p) => match p.execution_workspace {
            Some(w) => seq![w@],
            None => Seq::empty(),
        },
        None => Seq::empty(),
    }
}

pub fn kept_worktrees(run: &RunRecord) -> (r: Vec<String>)
    ensures
        text::texts(r@) == text::in_order(owned_worktrees(*run)),
{
    let mut all: Vec<String> = Vec::new();
    assert(text::texts(all@) + worktrees(run.branches@, 0) =~= worktrees(run.branches@, 0));
    let mut i: usize = 0;
    while i < run.branches.len()
        invariant
            i <= run.branches@.len(),
            text::texts(all@) + worktrees(run.branches@, i as int) == worktrees(run.branches@, 0),
        decreases run.branches@.len() - i,
    {
        if let Some(w) = &run.branches[i].execution_workspace {
            let ghost so_far = text::texts(all@);
            let ghost rest = worktrees(run.branches@, i + 1);
            all.push(w.clone());
            proof {
                assert(text::texts(all@) =~= so_far.push(w@));
                assert(so_far.push(w@) + rest =~= so_far + (seq![w@] + rest));
            }
        }
        i += 1;
    }
    let ghost branched = text::texts(all@);
    assert(branched + worktrees(run.branches@, i as int) =~= branched);
    if let Some(p) = &run.pending {
        if let Some(w) = &p.execution_workspace {
            all.push(w.clone());
            assert(text::texts(all@) =~= branched.push(w@));
        }
    }
    assert(text::texts(all@) =~= owned_worktrees(*run));
    let r: Vec<String> = text::set_of(&all);
    proof {
        text::lemma_in_order(text::texts(r@), text::texts(all@));
    }
    r
}

/// Whether a managed worktree is abandoned.
pub fn is_abandoned(kept: &Vec<String>, worktree: &str) -> (r: bool)
    ensures
        r == !text::texts(kept@).contains(worktree@),
{
    !text::among(kept, worktree)
}

proof fn lemma_pairs_proven(g: Ground<'_>, batch: Seq<int>, i: int, j: int, a: int, b: int)
    requires
        0 <= i < j,
        pairs_refusal(g, batch, i, j) is None,
        i < a || (i == a && j <= b),
        0 <= a < b < batch.len(),
    ensures
        crate::runtime::schedule::compatible(g, batch[a], batch[b]),
    decreases batch.len() - i, batch.len() - j,
{
    if j >= batch.len() {
        lemma_pairs_proven(g, batch, i + 1, i + 2, a, b);
    } else if i != a || j != b {
        lemma_pairs_proven(g, batch, i, j + 1, a, b);
    }
}

/// Every two tasks of a batch that is claimed are proven compatible.
pub proof fn law_claimed_batches_are_pairwise_compatible(
    g: Ground<'_>,
    batch: Seq<int>,
    a: int,
    b: int,
)
    requires
        pairs_refusal(g, batch, 0, 1) is None,
        0 <= a < b < batch.len(),
    ensures
        crate::runtime::schedule::compatible(g, batch[a], batch[b]),
{
    lemma_pairs_proven(g, batch, 0, 1, a, b);
}

} // verus!
