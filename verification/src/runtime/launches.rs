//! Under what authority workers are launched, and how their work is brought back.
use crate::graph::GraphGeneration;
use crate::planning::model::PlanState;
use crate::planning::scope;
use crate::planning::scope::ScopePath;
use crate::planning::stages;
use crate::protocol::{AgentRole, TaskPacket, TaskState};
use crate::runtime::branch;
use crate::runtime::branch::{BranchAuthority, ClaimFacts, ClaimRule, LaunchFacts};
use crate::runtime::concurrency::{Compatibility, CompatibilityDecision, CompatibilityReason};
use crate::runtime::reconcile;
use crate::runtime::reconcile::{Intended, ReconciliationPath};
use crate::runtime::record::{PendingTask, RunRecord, RunState};
use crate::runtime::schedule::Ground;
use crate::runtime::turns;
use crate::source;
use crate::source::{FileChange, FileEntry, SourceSnapshot};
use crate::store::TaskStatus;
use crate::text;
use vstd::prelude::*;

verus! {

// ---------------------------------------------------------------------------
// Claiming
// ---------------------------------------------------------------------------
/// Whether a decision was proven on a generation of the ontology.
pub open spec fn proven_on(d: CompatibilityDecision, generation: GraphGeneration) -> bool {
    exists|r: int|
        0 <= r < d.reasons@.len() && (#[trigger] d.reasons@[r]) is OntologyProvesNoInterference
            && crate::graph::same_generation(
            Some(d.reasons@[r]->OntologyProvesNoInterference_generation),
            Some(generation),
        )
}

proof fn lemma_proven_on(d: CompatibilityDecision, generation: GraphGeneration)
    ensures
        branch::rests_on(d, generation) ==> proven_on(d, generation),
{
    if branch::rests_on(d, generation) {
        let r = choose|r: int|
            0 <= r < d.reasons@.len() && branch::same_reason(
                #[trigger] d.reasons@[r],
                CompatibilityReason::OntologyProvesNoInterference { generation },
            );
        let reason = d.reasons@[r];
        let other = CompatibilityReason::OntologyProvesNoInterference { generation };
        if !(reason is OntologyProvesNoInterference) {
            assert(reason@ != other@);
        }
    }
}

/// A batch is claimed only on decisions that are all compatible and were proven on the
/// ontology as it is, while the source is unchanged, the plan active and nothing
/// cancelled.
pub proof fn law_batches_are_claimed_on_proof(
    decisions: Seq<CompatibilityDecision>,
    facts: ClaimFacts,
    n: int,
)
    requires
        branch::claim_refusal(decisions, facts) is None,
    ensures
        facts.source_unchanged,
        facts.generation is Some,
        facts.plan_state == PlanState::Active,
        !facts.cancelled,
        0 <= n < decisions.len() ==> decisions[n].decision == Compatibility::Compatible
            && proven_on(decisions[n], facts.generation->0),
{
    if 0 <= n < decisions.len() {
        lemma_proven_on(decisions[n], facts.generation->0);
        assert(decisions[n].decision == Compatibility::Compatible);
        assert(branch::rests_on(decisions[n], facts.generation->0));
    }
}

/// A task is claimed exactly where it is planned and may become ready and execute, or is
/// ready and may execute.
pub proof fn law_tasks_are_claimed_before_they_start(state: Option<TaskState>, rule: ClaimRule)
    ensures
        branch::task_claim_refusal(state, rule) is None <==> rule.executing is None && (state
            == Some(TaskState::Ready) || (state == Some(TaskState::Planned) && rule.ready is None)),
{
}

/// Whether two tasks are decided to be compatible, in the order of their names.
pub open spec fn proven_apart(g: Ground<'_>, a: int, b: int) -> bool {
    let (x, y) = if text::before(g.tasks@[a].packet.task_id@, g.tasks@[b].packet.task_id@) {
        (a, b)
    } else {
        (b, a)
    };
    turns::apart(g, x, y)
}

proof fn lemma_member(
    g: Ground<'_>,
    batch: Seq<int>,
    t: int,
    o: int,
    seen: bool,
    proven: bool,
    n: int,
)
    requires
        0 <= o <= batch.len(),
        branch::member_refusal(g, batch, t, o, seen, proven) is None,
    ensures
        proven,
        o <= n < batch.len() && g.tasks@[batch[n]].packet.task_id@ != g.tasks@[t].packet.task_id@
            ==> proven_apart(g, t, batch[n]),
        seen || exists|m: int|
            o <= m < batch.len() && g.tasks@[#[trigger] batch[m]].packet.task_id@
                != g.tasks@[t].packet.task_id@,
    decreases batch.len() - o,
{
    if o < batch.len() {
        if g.tasks@[batch[o]].packet.task_id@ == g.tasks@[t].packet.task_id@ {
            lemma_member(g, batch, t, o + 1, seen, proven, n);
        } else {
            let (x, y) = branch::ordered(g, t, batch[o]);
            lemma_member(
                g,
                batch,
                t,
                o + 1,
                true,
                proven && crate::runtime::schedule::compatible(g, x, y),
                n,
            );
            assert(g.tasks@[batch[o]].packet.task_id@ != g.tasks@[t].packet.task_id@);
        }
    }
}

/// A member of a batch is launched only where the batch has another, and every other is
/// proven compatible with it.
pub proof fn law_members_are_proven_against_every_other(
    g: Ground<'_>,
    batch: Seq<int>,
    t: int,
    n: int,
)
    requires
        branch::member_refusal(g, batch, t, 0, false, true) is None,
    ensures
        0 <= n < batch.len() && g.tasks@[batch[n]].packet.task_id@ != g.tasks@[t].packet.task_id@
            ==> proven_apart(g, t, batch[n]),
        exists|m: int|
            0 <= m < batch.len() && g.tasks@[#[trigger] batch[m]].packet.task_id@
                != g.tasks@[t].packet.task_id@,
{
    lemma_member(g, batch, t, 0, false, true, n);
}

/// Every two tasks of a batch that is claimed are decided to be compatible.
pub proof fn law_claimed_tasks_are_decided_apart(g: Ground<'_>, batch: Seq<int>, a: int, b: int)
    requires
        branch::pairs_refusal(g, batch, 0, 1) is None,
        0 <= a < b < batch.len(),
    ensures
        turns::apart(g, batch[a], batch[b]),
{
    branch::law_claimed_batches_are_pairwise_compatible(g, batch, a, b);
}

// ---------------------------------------------------------------------------
// Launching
// ---------------------------------------------------------------------------
/// Whether a worker's subject is where its role takes it up: an executor's task executes;
/// a verifier's task is being verified and its result pending; and a plan is verified as
/// a whole once every task is, and nothing is left over.
pub open spec fn due(
    run: RunRecord,
    states: Seq<TaskStatus>,
    role: AgentRole,
    task: Option<Seq<char>>,
) -> bool {
    &&& role == AgentRole::Executor && task is Some ==> stages::is_in(
        states,
        task->0,
        TaskState::Executing,
    )
    &&& role == AgentRole::Verifier && task is Some ==> run.pending is Some && stages::is_in(
        states,
        task->0,
        TaskState::Verifying,
    )
    &&& role == AgentRole::Verifier && task is None ==> {
        &&& run.pending is None
        &&& run.branches@.len() == 0
        &&& run.accepted@.len() == states.len()
        &&& forall|n: int|
            0 <= n < states.len() ==> (#[trigger] states[n]).state == TaskState::Verified
    }
}

/// Outside of any batch, a worker is launched exactly while the source is unchanged, the
/// run goes on under an active plan, nothing is being brought back, and its subject is
/// due.
pub proof fn law_workers_are_launched_when_due(
    run: RunRecord,
    states: Seq<TaskStatus>,
    role: AgentRole,
    task: Option<Seq<char>>,
    facts: LaunchFacts,
)
    ensures
        branch::launch_refusal(run, states, role, task, None, facts) is None <==> {
            &&& facts.source_unchanged
            &&& run.state == RunState::Running
            &&& facts.plan_state == PlanState::Active
            &&& !facts.cancelled
            &&& run.reconciliation is None
            &&& due(run, states, role, task)
        },
{
    if task is Some {
        stages::law_task_states_are_the_recorded_ones(states, task->0, TaskState::Executing);
        stages::law_task_states_are_the_recorded_ones(states, task->0, TaskState::Verifying);
    }
}

/// In a batch, a worker is launched only where all of that holds, the task is one of the
/// batch, and the branch rests on the decisions and the ontology that the batch was
/// claimed on, which still is the ontology.
pub proof fn law_branches_keep_the_authority_of_their_batch(
    run: RunRecord,
    states: Seq<TaskStatus>,
    role: AgentRole,
    task: Option<Seq<char>>,
    of: BranchAuthority,
    facts: LaunchFacts,
)
    ensures
        branch::launch_refusal(run, states, role, task, Some(of), facts) is None ==> {
            &&& branch::launch_refusal(run, states, role, task, None, facts) is None
            &&& task is Some
            &&& run.batch_authority is Some
            &&& exists|n: int|
                0 <= n < run.batch_authority->0.tasks@.len()
                    && (#[trigger] run.batch_authority->0.tasks@[n])@ == task->0
            &&& branch::same_decisions(run.batch_authority->0.compatibility@, of.compatibility@)
            &&& of.generation is Some
            &&& of.generation->0@ == run.batch_authority->0.ontology_generation@
            &&& facts.generation is Some
            &&& facts.generation->0@ == of.generation->0@
            &&& facts.batch_source_unchanged
        },
{
    if branch::launch_refusal(run, states, role, task, Some(of), facts) is None {
        let names = text::texts(run.batch_authority->0.tasks@);
        let n = choose|n: int| 0 <= n < names.len() && names[n] == task->0;
        assert(run.batch_authority->0.tasks@[n]@ == names[n]);
    }
}

/// A claimed task goes on exactly while the source is unchanged, the ontology is that of
/// its branch, and it executes.
pub proof fn law_claims_hold_while_nothing_moved(
    source_unchanged: bool,
    live: Seq<char>,
    of: BranchAuthority,
    state: Option<TaskState>,
)
    ensures
        branch::claimed_refusal(source_unchanged, live, of, state) is None <==> {
            &&& source_unchanged
            &&& of.generation is Some
            &&& of.generation->0@ == live
            &&& state == Some(TaskState::Executing)
        },
{
}

// ---------------------------------------------------------------------------
// Bringing back
// ---------------------------------------------------------------------------
/// The branch that is brought back next is the one whose task has the least name.
pub proof fn law_branches_come_back_by_name(branches: Seq<PendingTask>, n: int, m: int)
    requires
        0 < n <= branches.len(),
        0 <= m < n,
    ensures
        0 <= branch::least(branches, n) < n,
        !text::before(branches[m].task_id@, branches[branch::least(branches, n)].task_id@),
    decreases n,
{
    text::lemma_before_total(branches[m].task_id@, branches[m].task_id@);
    if n > 1 {
        let k = branch::least(branches, n - 1);
        let last = branches[n - 1].task_id@;
        text::lemma_before_total(last, last);
        if m < n - 1 {
            law_branches_come_back_by_name(branches, n - 1, m);
            if text::before(last, branches[k].task_id@) && text::before(
                branches[m].task_id@,
                last,
            ) {
                text::lemma_before_transitive(branches[m].task_id@, last, branches[k].task_id@);
            }
        } else {
            law_branches_come_back_by_name(branches, n - 1, 0);
            text::lemma_before_total(last, branches[k].task_id@);
        }
    }
}

/// Two snapshots have one baseline exactly where repository, workspace, commit, index and
/// exclusions are the same; they are the same where, besides, they are as clean and list
/// the same files.
pub proof fn law_snapshots_agree_in_every_part(a: SourceSnapshot, b: SourceSnapshot)
    ensures
        source::same_baseline(a, b) <==> {
            &&& a.repository_id@ == b.repository_id@
            &&& a.workspace_id@ == b.workspace_id@
            &&& a.head is Some <==> b.head is Some
            &&& a.head is Some ==> a.head->0@ == b.head->0@
            &&& a.index_hash@ == b.index_hash@
            &&& a.exclude_hash is Some <==> b.exclude_hash is Some
            &&& a.exclude_hash is Some ==> a.exclude_hash->0@ == b.exclude_hash->0@
        },
        source::same_snapshot(a, b) ==> source::same_baseline(a, b) && a.dirty == b.dirty
            && a.ignored@.len() == b.ignored@.len(),
        source::same_snapshot(a, b) ==> forall|path: Seq<char>|
            source::at(a.files@, path, 0) == #[trigger] source::at(b.files@, path, 0),
{
    if source::same_snapshot(a, b) {
        assert forall|path: Seq<char>|
            source::at(a.files@, path, 0) == #[trigger] source::at(b.files@, path, 0) by {
            assert(source::at(a.files@, path, 0) == source::at(b.files@, path, 0));
        }
    }
}

proof fn lemma_scopes(
    before: Seq<FileEntry>,
    current: Seq<FileEntry>,
    scopes: Seq<ScopePath>,
    i: int,
    n: int,
    path: Seq<char>,
)
    requires
        0 <= i <= n < scopes.len(),
        reconcile::scopes_refusal(before, current, scopes, i) is None,
        scope::allows(scopes[n], path),
    ensures
        source::at(before, path, 0) == source::at(current, path, 0),
    decreases n - i,
{
    if i < n {
        lemma_scopes(before, current, scopes, i + 1, n, path);
    }
}

proof fn lemma_changes(current: Seq<FileEntry>, changes: Seq<FileChange>, i: int, n: int)
    requires
        0 <= i <= n < changes.len(),
        reconcile::changes_refusal(current, changes, i) is None,
    ensures
        changes[n].before_ignored is None,
        changes[n].after_ignored is None,
        source::at(current, changes[n].path@, 0) == source::state_view(changes[n].before),
    decreases n - i,
{
    if i < n {
        lemma_changes(current, changes, i + 1, n);
    }
}

/// Work is brought back only where the task was proven compatible with all that ran
/// beside it, the baseline is the same, nothing that it may read or write has changed
/// meanwhile, and every file that it changed is as it found it.
pub proof fn law_work_comes_back_onto_what_it_was_made_on(
    task: TaskPacket,
    compatibility: Seq<CompatibilityDecision>,
    before: SourceSnapshot,
    current: SourceSnapshot,
    changes: Seq<FileChange>,
    d: int,
    r: int,
    w: int,
    c: int,
    path: Seq<char>,
)
    requires
        reconcile::intent_refusal(task, compatibility, before, current, changes) is None,
    ensures
        source::same_baseline(before, current),
        0 <= d < compatibility.len() ==> compatibility[d].decision == Compatibility::Compatible,
        0 <= r < task.read_scope@.len() && scope::allows(task.read_scope@[r], path) ==> source::at(
            before.files@,
            path,
            0,
        ) == source::at(current.files@, path, 0),
        0 <= w < task.write_scope@.len() && scope::allows(task.write_scope@[w], path)
            ==> source::at(before.files@, path, 0) == source::at(current.files@, path, 0),
        0 <= c < changes.len() ==> {
            &&& changes[c].before_ignored is None
            &&& changes[c].after_ignored is None
            &&& source::at(current.files@, changes[c].path@, 0) == source::state_view(
                changes[c].before,
            )
        },
{
    if 0 <= r < task.read_scope@.len() && scope::allows(task.read_scope@[r], path) {
        lemma_scopes(before.files@, current.files@, task.read_scope@, 0, r, path);
    }
    if 0 <= w < task.write_scope@.len() && scope::allows(task.write_scope@[w], path) {
        lemma_scopes(before.files@, current.files@, task.write_scope@, 0, w, path);
    }
    if 0 <= c < changes.len() {
        lemma_changes(current.files@, changes, 0, c);
    }
}

proof fn lemma_after(
    files: Seq<FileEntry>,
    changes: Seq<FileChange>,
    path: Seq<char>,
    k: int,
    c: int,
)
    requires
        0 <= k <= changes.len(),
    ensures
        0 <= c < k && changes[c].path@ == path && (forall|m: int|
            c < m < k ==> (#[trigger] changes[m]).path@ != path) ==> reconcile::after_changes(
            files,
            changes,
            path,
            k,
        ) == source::state_view(changes[c].after),
        (forall|m: int| 0 <= m < k ==> (#[trigger] changes[m]).path@ != path)
            ==> reconcile::after_changes(files, changes, path, k) == source::at(files, path, 0),
    decreases k,
{
    if k > 0 && changes[k - 1].path@ != path {
        lemma_after(files, changes, path, k - 1, c);
    }
}

/// What is intended is the current source with just the changes made: each changed file
/// as it was left, and every other as it is.
pub proof fn law_only_the_changes_are_intended(
    x: Intended,
    before: SourceSnapshot,
    current: SourceSnapshot,
    changes: Seq<FileChange>,
    path: Seq<char>,
    c: int,
)
    requires
        reconcile::intends(x, before, current, changes),
    ensures
        0 <= c < changes.len() && changes[c].path@ == path && (forall|m: int|
            c < m < changes.len() ==> (#[trigger] changes[m]).path@ != path) ==> source::at(
            x.source.files@,
            path,
            0,
        ) == source::state_view(changes[c].after),
        (forall|m: int| 0 <= m < changes.len() ==> (#[trigger] changes[m]).path@ != path)
            ==> source::at(x.source.files@, path, 0) == source::at(current.files@, path, 0),
        x.paths@.len() == changes.len(),
        0 <= c < changes.len() ==> {
            &&& x.paths@[c].path@ == changes[c].path@
            &&& source::state_view(x.paths@[c].before) == source::state_view(changes[c].before)
            &&& source::state_view(x.paths@[c].after) == source::state_view(changes[c].after)
        },
{
    lemma_after(current.files@, changes, path, changes.len() as int, c);
    assert(source::at(x.source.files@, path, 0) == reconcile::after_changes(
        current.files@,
        changes,
        path,
        changes.len() as int,
    ));
    if 0 <= c < changes.len() {
        assert(reconcile::publishes(x.paths@[c], changes[c]));
    }
}

proof fn lemma_paths(actual: Seq<FileEntry>, paths: Seq<ReconciliationPath>, i: int, n: int)
    requires
        0 <= i <= n < paths.len(),
        reconcile::paths_refusal(actual, paths, i) is None,
    ensures
        ({
            let seen = source::at(actual, paths[n].path@, 0);
            seen == source::state_view(paths[n].before) || seen == source::state_view(
                paths[n].after,
            )
        }),
    decreases n - i,
{
    if i < n {
        lemma_paths(actual, paths, i + 1, n);
    }
}

/// What was begun is completed only where every file to be published is as it was before
/// or as it should be after, and every other file is as expected.
pub proof fn law_publication_resumes_on_known_content(
    expected: SourceSnapshot,
    actual: SourceSnapshot,
    paths: Seq<ReconciliationPath>,
    n: int,
    path: Seq<char>,
)
    requires
        reconcile::classification_refusal(expected, actual, paths) is None,
    ensures
        source::same_baseline(actual, expected),
        0 <= n < paths.len() ==> {
            let seen = source::at(actual.files@, paths[n].path@, 0);
            seen == source::state_view(paths[n].before) || seen == source::state_view(
                paths[n].after,
            )
        },
        (forall|m: int| 0 <= m < paths.len() ==> (#[trigger] paths[m]).path@ != path) ==> source::at(
            actual.files@,
            path,
            0,
        ) == source::at(expected.files@, path, 0),
{
    if 0 <= n < paths.len() {
        lemma_paths(actual.files@, paths, 0, n);
    }
    if forall|m: int| 0 <= m < paths.len() ==> (#[trigger] paths[m]).path@ != path {
        assert(!reconcile::affects(paths, path));
        assert(source::at(actual.files@, path, 0) == source::at(expected.files@, path, 0));
    }
}

/// A file is skipped exactly where it is as it should be; of one that is as it was
/// before, the content is written where it should have some, created where it had none,
/// and removed where it should have none; any other is left alone.
pub proof fn law_files_are_published_from_what_they_were(
    p: ReconciliationPath,
    seen: Option<source::StateView>,
)
    ensures
        ({
            let act = reconcile::publication(p, seen);
            let before = source::state_view(p.before);
            let after = source::state_view(p.after);
            &&& act == Some(reconcile::Publication::Skip) <==> seen == after
            &&& act is None <==> seen != after && seen != before
            &&& seen == before && seen != after && p.after is Some ==> act == Some(
                reconcile::Publication::Write { create: p.before is None },
            )
            &&& seen == before && seen != after && p.after is None ==> act == Some(
                reconcile::Publication::Remove,
            )
        }),
{
}

} // verus!
