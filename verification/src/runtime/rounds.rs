//! What a round of a context relay grants, escalates and denies.
use crate::graph;
use crate::graph::GraphGeneration;
use crate::planning::model::ProjectPolicy;
use crate::planning::scope;
use crate::planning::scope::ScopePath;
use crate::protocol::AgentRole;
use crate::runtime::config::ContextConfig;
use crate::runtime::context;
use crate::runtime::context::{
    Budget, ContextDecision, ContextDelta, ContextLedger, DeltaItem, DeltaRef, ItemOutcome,
    ItemResolution, LedgerState, RoundOutcome, RoundRecord, Verdict,
};
use crate::runtime::record::RunRecord;
use crate::runtime::relay;
use crate::runtime::relay::{AdditionFacts, ApprovalFacts};
use crate::runtime::resolve;
use crate::runtime::resolve::Answer;
use crate::source::ArtifactRef;
use crate::text;
use vstd::prelude::*;

verus! {

// ---------------------------------------------------------------------------
// Verdicts
// ---------------------------------------------------------------------------
/// Whether the answers to a request fit the round and what is left for the task.
pub open spec fn affordable(bytes: int, b: Budget) -> bool {
    bytes <= b.round_limit && bytes <= b.task_remaining
}

/// A request is granted exactly where a round is left, every item is granted and the
/// answers are within both budgets. It is escalated exactly where a round and an
/// escalation are left, the answers are within both budgets, and every item is granted
/// or lies outside the envelope, but not all are granted. Everything else is denied.
pub proof fn law_verdicts_weigh_every_item_and_budget(
    items: Seq<ItemResolution>,
    bytes: int,
    b: Budget,
)
    ensures
        resolve::verdict_of(items, bytes, b).0 == Verdict::Granted <==> {
            &&& b.rounds_used < b.max_rounds
            &&& affordable(bytes, b)
            &&& forall|n: int|
                0 <= n < items.len() ==> (#[trigger] items[n]).outcome == ItemOutcome::Granted
        },
        resolve::verdict_of(items, bytes, b).0 == Verdict::Escalate <==> {
            &&& b.rounds_used < b.max_rounds
            &&& b.escalations_used < b.max_escalations
            &&& affordable(bytes, b)
            &&& forall|n: int|
                0 <= n < items.len() ==> (#[trigger] items[n]).outcome == ItemOutcome::Granted
                    || items[n].outcome == ItemOutcome::OutsideEnvelope
            &&& exists|n: int|
                0 <= n < items.len() && (#[trigger] items[n]).outcome != ItemOutcome::Granted
        },
        resolve::verdict_of(items, bytes, b).1 is Some <==> resolve::verdict_of(items, bytes, b).0
            == Verdict::Denied,
{
    if resolve::all_answered(items) {
        assert forall|n: int| 0 <= n < items.len() implies (#[trigger] items[n]).outcome
            == ItemOutcome::Granted || items[n].outcome == ItemOutcome::OutsideEnvelope by {
            assert(resolve::answered(items[n].outcome));
        }
    } else {
        let n = choose|n: int|
            0 <= n < items.len() && !resolve::answered((#[trigger] items[n]).outcome);
        assert(items[n].outcome != ItemOutcome::Granted);
    }
}

/// The answers that are handed out are those that there are.
pub proof fn law_given_answers_are_those_there_are(answers: Seq<Answer>, n: int, x: DeltaItem)
    ensures
        0 <= n < answers.len() && answers[n].item is Some ==> resolve::given(answers).contains(
            answers[n].item->0,
        ),
        resolve::given(answers).contains(x) ==> exists|m: int|
            0 <= m < answers.len() && (#[trigger] answers[m]).item == Some(x),
    decreases answers.len(),
{
    if answers.len() > 0 {
        let rest = answers.drop_first();
        law_given_answers_are_those_there_are(rest, n - 1, x);
        let all = resolve::given(answers);
        let others = resolve::given(rest);
        if n > 0 && n < answers.len() {
            assert(rest[n - 1] == answers[n]);
        }
        if let Some(y) = answers[0].item {
            assert(all[0] == y);
            if 0 < n < answers.len() && answers[n].item is Some {
                let m = choose|m: int| 0 <= m < others.len() && others[m] == answers[n].item->0;
                assert(all[m + 1] == answers[n].item->0);
            }
            if all.contains(x) && x != y {
                let m = choose|m: int| 0 <= m < all.len() && all[m] == x;
                assert(others[m - 1] == x);
            }
        }
        if resolve::given(answers).contains(x) {
            if answers[0].item != Some(x) {
                let m = choose|m: int| 0 <= m < rest.len() && (#[trigger] rest[m]).item == Some(x);
                assert(answers[m + 1].item == Some(x));
            }
        }
    }
}

/// What is left for a task is what it may have less what it was granted; a round may not
/// have more than the request asks for or the configuration allows; and only executors
/// escalate.
pub proof fn law_budgets_follow_the_configuration(
    role: AgentRole,
    asked: u32,
    limits: ContextConfig,
    ledger: ContextLedger,
)
    ensures
        ({
            let (rounds, escalations) = relay::allowance_of(role, limits);
            let b = relay::budget_of(
                asked,
                limits,
                ledger,
                rounds,
                ledger.escalations,
                escalations,
            );
            &&& role == AgentRole::Executor ==> b.max_rounds == limits.max_rounds
                && b.max_escalations == limits.max_escalations
            &&& role != AgentRole::Executor ==> b.max_rounds == limits.verifier_max_rounds
                && b.max_escalations == 0
            &&& b.round_limit <= asked && b.round_limit <= limits.max_round_bytes
            &&& b.round_limit == asked || b.round_limit == limits.max_round_bytes
            &&& ledger.granted_bytes <= limits.max_task_bytes ==> b.task_remaining
                + ledger.granted_bytes == limits.max_task_bytes
            &&& ledger.granted_bytes >= limits.max_task_bytes ==> b.task_remaining == 0
            &&& b.escalations_used == ledger.escalations
        }),
{
}

/// The rounds that count are those that granted something, each with what it granted.
pub proof fn law_granted_rounds_are_those_with_a_delta(rounds: Seq<RoundRecord>, d: DeltaRef)
    ensures
        context::granted(rounds).len() <= rounds.len(),
        context::granted(rounds).contains(d) <==> exists|n: int|
            0 <= n < rounds.len() && (#[trigger] rounds[n]).delta == Some(d),
    decreases rounds.len(),
{
    if rounds.len() > 0 {
        let rest = rounds.drop_last();
        law_granted_rounds_are_those_with_a_delta(rest, d);
        let all = context::granted(rounds);
        let others = context::granted(rest);
        let last = rounds.len() - 1;
        if others.contains(d) {
            let n = choose|n: int| 0 <= n < rest.len() && (#[trigger] rest[n]).delta == Some(d);
            assert(rounds[n].delta == Some(d));
            let m = choose|m: int| 0 <= m < others.len() && others[m] == d;
            assert(all[m] == d);
        }
        if rounds[last].delta == Some(d) {
            assert(all[others.len() as int] == d);
        }
        if exists|n: int| 0 <= n < rounds.len() && (#[trigger] rounds[n]).delta == Some(d) {
            let n = choose|n: int| 0 <= n < rounds.len() && (#[trigger] rounds[n]).delta == Some(d);
            if n < last {
                assert(rest[n].delta == Some(d));
            }
        }
        if all.contains(d) && rounds[last].delta != Some(d) {
            let m = choose|m: int| 0 <= m < all.len() && all[m] == d;
            assert(others[m] == d);
        }
    }
}

// ---------------------------------------------------------------------------
// Drift
// ---------------------------------------------------------------------------
/// A round goes on exactly where the relay is open, and context is issued exactly where
/// there is a base and everything granted so far extends it.
pub proof fn law_rounds_extend_an_open_relay(
    ledger: ContextLedger,
    verifying: bool,
    deltas: Seq<ContextDelta>,
    generation: Option<GraphGeneration>,
    source_hash: Seq<char>,
)
    ensures
        relay::closed_refusal(ledger, verifying) is None <==> ledger.state == LedgerState::Open,
        relay::issue_refusal(ledger, deltas) is None <==> {
            &&& ledger.base is Some
            &&& forall|n: int|
                0 <= n < deltas.len() ==> graph::same_generation(
                    (#[trigger] deltas[n]).graph_generation,
                    ledger.base->0.graph_generation,
                ) && deltas[n].source_hash@ == ledger.base->0.source_hash@
        },
        ledger.base matches Some(base) ==> (relay::base_drift(base, generation, source_hash) is None
            <==> graph::same_generation(generation, base.graph_generation) && source_hash
            == base.source_hash@),
{
    if let Some(base) = ledger.base {
        if relay::issue_refusal(ledger, deltas) is None {
            assert forall|n: int| 0 <= n < deltas.len() implies graph::same_generation(
                (#[trigger] deltas[n]).graph_generation,
                base.graph_generation,
            ) && deltas[n].source_hash@ == base.source_hash@ by {
                assert(relay::extends(deltas[n], base));
            }
        } else {
            let n = choose|n: int|
                0 <= n < deltas.len() && !relay::extends(#[trigger] deltas[n], base);
            assert(!(graph::same_generation(deltas[n].graph_generation, base.graph_generation)
                && deltas[n].source_hash@ == base.source_hash@));
        }
    }
}

// ---------------------------------------------------------------------------
// Decisions
// ---------------------------------------------------------------------------
/// A planner's decision is taken exactly on the request that awaits it: the last round of
/// a relay that awaits approval, escalated, with the request that the decision names.
pub proof fn law_decisions_are_on_the_awaited_request(l: ContextLedger, decision: ContextDecision)
    ensures
        relay::unawaited(l, decision) is None <==> {
            &&& l.state == LedgerState::NeedsPlannerContextApproval
            &&& l.rounds@.len() > 0
            &&& l.rounds@[l.rounds@.len() - 1].outcome == RoundOutcome::Escalated
            &&& l.rounds@[l.rounds@.len() - 1].request.hash@ == decision.request_hash@
        },
{
}

/// Whether an approval may widen what a task reads by a scope: it is safe to read, lies
/// in what was requested, where something was, and meets nothing that is excluded.
pub open spec fn may_be_read(
    s: ScopePath,
    facts: AdditionFacts,
    policy: ProjectPolicy,
    requested: Seq<ScopePath>,
    exclusions: Seq<ScopePath>,
) -> bool {
    &&& scope::scope_refusal(facts.path_refusal, policy.protected@, s, false, facts.symlinked) is None
    &&& requested.len() > 0 ==> exists|r: int|
        0 <= r < requested.len() && scope::allows(#[trigger] requested[r], s.at())
    &&& forall|x: int|
        0 <= x < exclusions.len() ==> !scope::allows(#[trigger] exclusions[x], s.at())
            && !scope::allows(s, exclusions[x].at())
}

proof fn lemma_additions(
    additions: Seq<ScopePath>,
    facts: Seq<AdditionFacts>,
    policy: ProjectPolicy,
    requested: Seq<ScopePath>,
    exclusions: Seq<ScopePath>,
    i: int,
)
    requires
        0 <= i,
    ensures
        relay::additions_refusal(additions, facts, policy, requested, exclusions, i) is None
            <==> forall|n: int|
            i <= n < additions.len() ==> may_be_read(
                #[trigger] additions[n],
                facts[n],
                policy,
                requested,
                exclusions,
            ),
    decreases additions.len() - i,
{
    if i < additions.len() {
        lemma_additions(additions, facts, policy, requested, exclusions, i + 1);
        let s = additions[i];
        let own = scope::scope_refusal(
            facts[i].path_refusal,
            policy.protected@,
            s,
            false,
            facts[i].symlinked,
        ) is None && !(requested.len() > 0 && !scope::any_allows(requested, s.at()))
            && !relay::excluded(exclusions, s);
        assert(own <==> may_be_read(s, facts[i], policy, requested, exclusions)) by {
            if relay::excluded(exclusions, s) {
                let x = choose|x: int|
                    0 <= x < exclusions.len() && (scope::allows(#[trigger] exclusions[x], s.at())
                        || scope::allows(s, exclusions[x].at()));
                assert(scope::allows(exclusions[x], s.at()) || scope::allows(
                    s,
                    exclusions[x].at(),
                ));
            }
        }
        if relay::additions_refusal(additions, facts, policy, requested, exclusions, i) is None {
            assert(own);
        }
    }
}

/// An approval is taken exactly while the policy, the workspace, the graph and the source
/// are those of the run, and each scope that it adds may be read.
pub proof fn law_approvals_add_only_what_may_be_read(
    run: RunRecord,
    ledger: ContextLedger,
    decision: ContextDecision,
    policy: ProjectPolicy,
    requested: Seq<ScopePath>,
    exclusions: Seq<ScopePath>,
    facts: ApprovalFacts,
)
    ensures
        relay::approval_refusal(run, ledger, decision, policy, requested, exclusions, facts) is None
            <==> {
            &&& facts.policy_hash@ == run.policy_hash@
            &&& facts.unchanged
            &&& ledger.base is Some
            &&& graph::same_generation(facts.generation, ledger.base->0.graph_generation)
            &&& facts.source_hash@ == ledger.base->0.source_hash@
            &&& forall|n: int|
                0 <= n < decision.read_scope_additions@.len() ==> may_be_read(
                    #[trigger] decision.read_scope_additions@[n],
                    facts.additions@[n],
                    policy,
                    requested,
                    exclusions,
                )
        },
{
    lemma_additions(
        decision.read_scope_additions@,
        facts.additions@,
        policy,
        requested,
        exclusions,
        0,
    );
}

/// A round that is taken in changes nothing of the rounds before it, and counts what it
/// granted; a decision on the last round changes no other.
pub proof fn law_rounds_are_only_added_to(
    before: ContextLedger,
    after: ContextLedger,
    round: RoundRecord,
    verdict: Verdict,
    n: int,
)
    requires
        relay::took_in(before, after, round, verdict),
    ensures
        after.rounds@.len() == before.rounds@.len() + 1,
        0 <= n < before.rounds@.len() ==> after.rounds@[n] == before.rounds@[n],
        after.rounds@[before.rounds@.len() as int] == round,
        round.delta is None ==> after.granted_bytes == before.granted_bytes,
        round.delta is Some ==> after.granted_bytes == before.granted_bytes + round.delta->0.bytes,
        verdict == Verdict::Escalate <==> after.escalations != before.escalations,
        verdict == Verdict::Escalate ==> after.escalations == before.escalations + 1 && after.state
            == LedgerState::NeedsPlannerContextApproval,
        verdict == Verdict::Denied ==> after.state == LedgerState::Denied,
        verdict == Verdict::Granted ==> after.state == before.state,
        after.base == before.base,
        after.approved_scope == before.approved_scope,
        after.role == before.role,
        after.task_id == before.task_id,
{
}

/// A round says of itself what the verdict was.
pub proof fn law_rounds_record_their_verdict(
    round: u32,
    job_id: String,
    request: ArtifactRef,
    resolution: ArtifactRef,
    verdict: Verdict,
    delta: Option<DeltaRef>,
)
    ensures
        ({
            let r = relay::round_of(round, job_id, request, resolution, verdict, delta);
            &&& r.outcome == RoundOutcome::Granted <==> verdict == Verdict::Granted
            &&& r.outcome == RoundOutcome::Escalated <==> verdict == Verdict::Escalate
            &&& r.outcome == RoundOutcome::Denied <==> verdict == Verdict::Denied
            &&& r.job_id == job_id && r.request == request && r.resolution == resolution
            &&& r.delta == delta && r.round == round && r.decision is None
        }),
{
}

// ---------------------------------------------------------------------------
// What awaits a decision
// ---------------------------------------------------------------------------
proof fn lemma_last_escalated(rounds: Seq<RoundRecord>, n: int)
    requires
        0 <= n <= rounds.len(),
    ensures
        match relay::last_escalated(rounds, n) {
            Some(k) => 0 <= k < n && rounds[k].outcome == RoundOutcome::Escalated && forall|m: int|
                k < m < n ==> (#[trigger] rounds[m]).outcome != RoundOutcome::Escalated,
            None => forall|m: int|
                0 <= m < n ==> (#[trigger] rounds[m]).outcome != RoundOutcome::Escalated,
        },
    decreases n,
{
    if n > 0 {
        lemma_last_escalated(rounds, n - 1);
    }
}

/// The round that awaits a decision is the last that was escalated, of a relay that awaits
/// approval.
pub proof fn law_the_last_escalation_awaits_a_decision(ledger: ContextLedger, k: int)
    ensures
        relay::awaited_round(ledger) == Some(k) <==> {
            &&& ledger.state == LedgerState::NeedsPlannerContextApproval
            &&& 0 <= k < ledger.rounds@.len()
            &&& ledger.rounds@[k].outcome == RoundOutcome::Escalated
            &&& forall|m: int|
                k < m < ledger.rounds@.len() ==> (#[trigger] ledger.rounds@[m]).outcome
                    != RoundOutcome::Escalated
        },
{
    lemma_last_escalated(ledger.rounds@, ledger.rounds@.len() as int);
}

/// The paths that a planner is asked about are those of the items that lie outside the
/// envelope.
pub proof fn law_outside_paths_are_those_of_outside_items(
    items: Seq<ItemResolution>,
    n: int,
    m: int,
    path: Seq<char>,
)
    requires
        0 <= n <= items.len(),
    ensures
        ({
            let all = relay::outside_paths(items, n);
            &&& 0 <= m < n && items[m].outcome == ItemOutcome::OutsideEnvelope && text::texts(
                items[m].paths@,
            ).contains(path) ==> all.contains(path)
            &&& all.contains(path) ==> exists|j: int|
                0 <= j < n && (#[trigger] items[j]).outcome == ItemOutcome::OutsideEnvelope
                    && text::texts(items[j].paths@).contains(path)
        }),
    decreases n,
{
    if n > 0 {
        law_outside_paths_are_those_of_outside_items(items, n - 1, m, path);
        text::lemma_sum_contains(
            relay::outside_paths(items, n - 1),
            text::texts(items[n - 1].paths@),
            path,
        );
    }
}

} // verus!
