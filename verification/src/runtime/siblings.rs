//! What holds of tasks that run beside each other, and of what is left of them.
use crate::planning::intents;
use crate::planning::scope;
use crate::planning::validation::Objection;
use crate::protocol::{AgentRole, TaskPacket};
use crate::runtime::branch;
use crate::runtime::concurrency;
use crate::runtime::concurrency::{Pair, SinceIssue, Touched};
use crate::runtime::context;
use crate::runtime::context::{ContextDecision, ContextLedger, DecisionKind, DeltaItem};
use crate::runtime::contract;
use crate::runtime::contract::RoleContract;
use crate::runtime::record::{PendingTask, RunRecord};
use crate::runtime::resolve;
use crate::runtime::resolve::DeltaView;
use crate::runtime::run;
use crate::runtime::worktree;
use crate::source::SourceSnapshot;
use crate::text;
use vstd::prelude::*;

verus! {

// ---------------------------------------------------------------------------
// What changed meanwhile
// ---------------------------------------------------------------------------
/// Whether something that changed is one of a task's entities, or lies in what the task
/// reads or writes.
pub open spec fn touches(x: Touched, task: TaskPacket) -> bool {
    ||| exists|e: int|
        0 <= e < task.graph_entities@.len() && (#[trigger] task.graph_entities@[e])@ == x.entity@
    ||| exists|r: int|
        0 <= r < task.read_scope@.len() && scope::allows(#[trigger] task.read_scope@[r], x.path@)
    ||| exists|w: int|
        0 <= w < task.write_scope@.len() && scope::allows(#[trigger] task.write_scope@[w], x.path@)
}

proof fn lemma_touches(x: Touched, task: TaskPacket)
    ensures
        concurrency::concerns(x.entity@, x.path@, task) <==> touches(x, task),
{
    let names = text::texts(task.graph_entities@);
    if names.contains(x.entity@) {
        let e = choose|e: int| 0 <= e < names.len() && names[e] == x.entity@;
        assert(task.graph_entities@[e]@ == x.entity@);
    }
    if exists|e: int|
        0 <= e < task.graph_entities@.len() && (#[trigger] task.graph_entities@[e])@ == x.entity@ {
        let e = choose|e: int|
            0 <= e < task.graph_entities@.len() && (#[trigger] task.graph_entities@[e])@
                == x.entity@;
        assert(names[e] == x.entity@);
    }
}

proof fn lemma_any(list: Seq<Touched>, task: TaskPacket)
    ensures
        concurrency::any_concern(list, task) <==> exists|n: int|
            0 <= n < list.len() && touches(#[trigger] list[n], task),
{
    if concurrency::any_concern(list, task) {
        let n = choose|n: int|
            0 <= n < list.len() && concurrency::concerns(
                (#[trigger] list[n]).entity@,
                list[n].path@,
                task,
            );
        lemma_touches(list[n], task);
        assert(touches(list[n], task));
    }
    if exists|n: int| 0 <= n < list.len() && touches(#[trigger] list[n], task) {
        let n = choose|n: int| 0 <= n < list.len() && touches(#[trigger] list[n], task);
        lemma_touches(list[n], task);
        assert(concurrency::concerns(list[n].entity@, list[n].path@, task));
    }
}

/// What was made on an older ontology is brought back exactly where the ontology is the
/// same, or everything that changed since is known and nothing of it touches the task.
pub proof fn law_older_work_comes_back_where_nothing_touched_it(
    issued: Seq<char>,
    current: Seq<char>,
    since: SinceIssue,
    task: TaskPacket,
)
    ensures
        concurrency::semantic_refusal(issued, current, since, task) is None <==> {
            ||| issued == current
            ||| {
                &&& since.boundaries == 0
                &&& since.items_omitted == 0
                &&& since.boundaries_omitted == 0
                &&& forall|n: int|
                    0 <= n < since.seeds@.len() ==> !touches(#[trigger] since.seeds@[n], task)
                &&& forall|n: int|
                    0 <= n < since.items@.len() ==> !touches(#[trigger] since.items@[n], task)
            }
        },
{
    lemma_any(since.seeds@, task);
    lemma_any(since.items@, task);
}

// ---------------------------------------------------------------------------
// Pairs
// ---------------------------------------------------------------------------
proof fn lemma_with(list: Seq<int>, i: int, j: int, b: int, p: Pair)
    requires
        0 <= i < j,
    ensures
        ({
            let all = concurrency::pairs_with(list, i, j);
            &&& j <= b < list.len() ==> all.contains(Pair { left: list[i], right: list[b] })
            &&& all.contains(p) ==> exists|n: int|
                j <= n < list.len() && p == (Pair { left: list[i], right: #[trigger] list[n] })
        }),
    decreases list.len() - j,
{
    if j < list.len() {
        lemma_with(list, i, j + 1, b, p);
        let all = concurrency::pairs_with(list, i, j);
        let rest = concurrency::pairs_with(list, i, j + 1);
        let own = Pair { left: list[i], right: list[j] };
        assert(all[0] == own);
        if j < b < list.len() {
            let x = Pair { left: list[i], right: list[b] };
            let m = choose|m: int| 0 <= m < rest.len() && rest[m] == x;
            assert(all[m + 1] == x);
        }
        if all.contains(p) && p != own {
            let m = choose|m: int| 0 <= m < all.len() && all[m] == p;
            assert(rest[m - 1] == p);
        }
    }
}

/// Every two tasks that are ready are decided on, and each pair in the order of the list.
pub proof fn law_every_pair_is_decided_on(list: Seq<int>, i: int, a: int, b: int, p: Pair)
    requires
        0 <= i,
    ensures
        ({
            let all = concurrency::pairs(list, i);
            &&& i <= a < b < list.len() ==> all.contains(Pair { left: list[a], right: list[b] })
            &&& all.contains(p) ==> exists|x: int, y: int|
                i <= x < y < list.len() && p == (Pair {
                    left: #[trigger] list[x],
                    right: #[trigger] list[y],
                })
        }),
    decreases list.len() - i,
{
    if i < list.len() {
        law_every_pair_is_decided_on(list, i + 1, a, b, p);
        lemma_with(list, i, i + 1, b, p);
        let own = concurrency::pairs_with(list, i, i + 1);
        let rest = concurrency::pairs(list, i + 1);
        let all = concurrency::pairs(list, i);
        if i <= a < b < list.len() {
            lemma_joined(own, rest, Pair { left: list[a], right: list[b] });
        }
        lemma_joined(own, rest, p);
    }
}

proof fn lemma_joined<T>(a: Seq<T>, b: Seq<T>, x: T)
    ensures
        (a + b).contains(x) <==> a.contains(x) || b.contains(x),
{
    let all = a + b;
    if a.contains(x) {
        let n = choose|n: int| 0 <= n < a.len() && a[n] == x;
        assert(all[n] == x);
    }
    if b.contains(x) {
        let n = choose|n: int| 0 <= n < b.len() && b[n] == x;
        assert(all[a.len() + n] == x);
    }
    if all.contains(x) {
        let n = choose|n: int| 0 <= n < all.len() && all[n] == x;
        if n < a.len() {
            assert(a[n] == x);
        } else {
            assert(b[n - a.len()] == x);
        }
    }
}

// ---------------------------------------------------------------------------
// What is left
// ---------------------------------------------------------------------------
proof fn lemma_branch_at(branches: Seq<PendingTask>, task: Seq<char>, i: int)
    requires
        0 <= i,
    ensures
        match branch::branch_at(branches, task, i) {
            Some(k) => i <= k < branches.len() && branches[k].task_id@ == task && forall|j: int|
                i <= j < k ==> (#[trigger] branches[j]).task_id@ != task,
            None => forall|j: int| i <= j < branches.len() ==> (#[trigger] branches[j]).task_id@ != task,
        },
    decreases branches.len() - i,
{
    if i < branches.len() {
        lemma_branch_at(branches, task, i + 1);
    }
}

/// What was begun is taken up again only where there is an intent, and the branch of its
/// task was captured by the same executor with the same changes.
pub proof fn law_intents_are_taken_up_from_their_branch(run: RunRecord) -> (k: int)
    requires
        branch::recovery_refusal(run) is None,
    ensures
        run.reconciliation is Some,
        0 <= k < run.branches@.len(),
        run.branches@[k].task_id@ == run.reconciliation->0.task_id@,
        run.branches@[k].executor@ == run.reconciliation->0.executor@,
        run.branches@[k].diff.hash@ == run.reconciliation->0.diff.hash@,
        run.branches@[k].diff.bytes == run.reconciliation->0.diff.bytes,
{
    lemma_branch_at(run.branches@, run.reconciliation->0.task_id@, 0);
    branch::branch_at(run.branches@, run.reconciliation->0.task_id@, 0)->0
}

/// A branch that could not be brought back is run again by itself only where nothing was
/// known or something interfered, and where its executor was granted nothing.
pub proof fn law_branches_are_run_again_where_nothing_was_granted(
    said: Seq<char>,
    ledger: Option<ContextLedger>,
)
    ensures
        branch::serializable(said, ledger) <==> {
            &&& text::begins(said, "UNKNOWN:"@) || text::begins(said, "SEMANTIC_INTERFERENCE:"@)
            &&& ledger is Some ==> context::granted(ledger->0.rounds@).len() == 0
                && ledger->0.approved_scope@.len() == 0
        },
{
}

proof fn lemma_worktrees(branches: Seq<PendingTask>, i: int, n: int, path: Seq<char>)
    requires
        0 <= i,
    ensures
        ({
            let all = branch::worktrees(branches, i);
            &&& i <= n < branches.len() && branches[n].execution_workspace is Some ==> all.contains(
                branches[n].execution_workspace->0@,
            )
            &&& all.contains(path) ==> exists|m: int|
                i <= m < branches.len() && (#[trigger] branches[m]).execution_workspace is Some
                    && branches[m].execution_workspace->0@ == path
        }),
    decreases branches.len() - i,
{
    if i < branches.len() {
        lemma_worktrees(branches, i + 1, n, path);
        let rest = branch::worktrees(branches, i + 1);
        if let Some(w) = branches[i].execution_workspace {
            text::lemma_sum_contains(seq![w@], rest, path);
            assert(seq![w@][0] == w@);
            if i <= n < branches.len() && branches[n].execution_workspace is Some {
                text::lemma_sum_contains(seq![w@], rest, branches[n].execution_workspace->0@);
            }
            if seq![w@].contains(path) {
                assert(branches[i].execution_workspace->0@ == path);
            }
        }
    }
}

/// The worktrees that a run owns are those of its branches and of what is pending.
pub proof fn law_runs_own_the_worktrees_of_their_tasks(run: RunRecord, n: int, path: Seq<char>)
    ensures
        0 <= n < run.branches@.len() && run.branches@[n].execution_workspace is Some
            ==> branch::owned_worktrees(run).contains(run.branches@[n].execution_workspace->0@),
        run.pending is Some && run.pending->0.execution_workspace is Some
            ==> branch::owned_worktrees(run).contains(run.pending->0.execution_workspace->0@),
        branch::owned_worktrees(run).contains(path) ==> (exists|m: int|
            0 <= m < run.branches@.len() && (#[trigger] run.branches@[m]).execution_workspace is Some
                && run.branches@[m].execution_workspace->0@ == path) || (run.pending is Some
            && run.pending->0.execution_workspace is Some && run.pending->0.execution_workspace->0@
            == path),
{
    let own = branch::worktrees(run.branches@, 0);
    lemma_worktrees(run.branches@, 0, n, path);
    let last = match run.pending {
        Some(p) => match p.execution_workspace {
            Some(w) => seq![w@],
            None => Seq::empty(),
        },
        None => Seq::empty(),
    };
    assert(branch::owned_worktrees(run) == own + last);
    text::lemma_sum_contains(own, last, path);
    if 0 <= n < run.branches@.len() && run.branches@[n].execution_workspace is Some {
        text::lemma_sum_contains(own, last, run.branches@[n].execution_workspace->0@);
    }
    if run.pending is Some && run.pending->0.execution_workspace is Some {
        let w = run.pending->0.execution_workspace->0@;
        text::lemma_sum_contains(own, last, w);
        assert(last[0] == w);
    }
}

/// A worktree is made exactly where nothing that is ignored would be missing, and it is of
/// the same commit and exclusions.
pub proof fn law_worktrees_are_made_on_the_same_baseline(
    expected: SourceSnapshot,
    actual: SourceSnapshot,
)
    ensures
        worktree::materialize_refusal(expected, actual) is None <==> {
            &&& expected.ignored@.len() == 0
            &&& actual.head is Some <==> expected.head is Some
            &&& actual.head is Some ==> actual.head->0@ == expected.head->0@
            &&& actual.exclude_hash is Some <==> expected.exclude_hash is Some
            &&& actual.exclude_hash is Some ==> actual.exclude_hash->0@ == expected.exclude_hash->0@
        },
{
}

/// What a run can discard is what it refused last, or else what is pending.
pub proof fn law_the_last_capture_is_discarded(record: RunRecord)
    ensures
        record.refused is Some ==> run::discardable(record) == record.refused,
        record.refused is None && record.pending is Some ==> run::discardable(record) == Some(
            record.pending->0.diff,
        ),
        record.refused is None && record.pending is None ==> run::discardable(record) is None,
{
}

// ---------------------------------------------------------------------------
// Decisions and contracts
// ---------------------------------------------------------------------------
/// A planner's decision is well formed exactly where it says why and by whom, an approval
/// adds one to eight paths that nothing stands against, and a denial adds none.
pub proof fn law_decisions_say_what_they_add(d: ContextDecision, paths: Seq<Objection>)
    requires
        d.version@ == context::DECISION_VERSION@,
    ensures
        context::decision_refusal(d, paths) is None ==> {
            &&& intents::says(d.reason@, 1024)
            &&& intents::says(d.actor@, 128)
            &&& d.decision == DecisionKind::Approve ==> 1 <= d.read_scope_additions@.len() <= 8
            &&& d.decision == DecisionKind::Deny ==> d.read_scope_additions@.len() == 0
        },
{
}

/// A worker is told the contract of its role, and a verifier that of its scope.
pub proof fn law_workers_are_told_their_own_contract(role: AgentRole, scope: Option<Seq<char>>)
    ensures
        contract::contract_for(role, scope) == RoleContract::Planner <==> role == AgentRole::Planner,
        contract::contract_for(role, scope) == RoleContract::Executor <==> role
            == AgentRole::Executor,
        contract::contract_for(role, scope) == RoleContract::IntegrationVerifier <==> role
            == AgentRole::Verifier && scope == Some("INTEGRATION"@),
        contract::contract_for(role, scope) == RoleContract::TaskVerifier <==> role
            == AgentRole::Verifier && scope != Some("INTEGRATION"@),
{
}

/// What is handed out is what was found: relations name each entity that was found, in
/// order, and a symbol is the entity that was asked for.
pub proof fn law_answers_are_handed_out_as_found(item: DeltaItem, index: int, v: DeltaView, n: int)
    requires
        resolve::delta_is(item, index, v),
    ensures
        v matches DeltaView::Relations { subject, relation, found, truncated } ==> {
            &&& item is Relations
            &&& item->Relations_subject@ == subject
            &&& item->Relations_relation == relation
            &&& item->Relations_truncated == truncated
            &&& item->Relations_entities@.len() == found.len()
            &&& 0 <= n < found.len() ==> item->Relations_entities@[n].id == found[n].entity.id
                && item->Relations_entities@[n].path == found[n].entity.provenance.path
        },
        v matches DeltaView::Memory { record } ==> item is Memory && item->memory.id == record.id,
{
}

} // verus!
