//! When two tasks are decided to be apart, and when they are not.
use crate::planning::model::ExecutionPlan;
use crate::planning::scope;
use crate::planning::scope::ScopePath;
use crate::protocol::TaskPacket;
use crate::repository::RepositoryInfo;
use crate::runtime::concurrency;
use crate::runtime::concurrency::{
    Compatibility, ImpactItem, ImpactReport, ReasonView, SemanticFacts, TaskImpact,
};
use crate::text;
use vstd::prelude::*;

verus! {

// ---------------------------------------------------------------------------
// What is declared
// ---------------------------------------------------------------------------
/// Whether a plan was prepared from the repository and workspace it runs in.
pub open spec fn at_hand(plan: ExecutionPlan, info: RepositoryInfo) -> bool {
    &&& plan.metadata.source.observation.repository_id@ == info.repository_id@
    &&& plan.metadata.source.observation.workspace_id@ == info.workspace_id@
}

/// Whether one of two tasks depends on the other.
pub open spec fn in_line(plan: ExecutionPlan, left: TaskPacket, right: TaskPacket) -> bool {
    concurrency::depends(plan.packet.tasks@, left.task_id@, right.task_id@) || concurrency::depends(
        plan.packet.tasks@,
        right.task_id@,
        left.task_id@,
    )
}

/// Whether some scope of one list holds, or is held by, some scope of another.
pub open spec fn cross(a: Seq<ScopePath>, b: Seq<ScopePath>) -> bool {
    exists|i: int, j: int|
        0 <= i < a.len() && 0 <= j < b.len() && (scope::allows(
            #[trigger] a[i],
            (#[trigger] b[j]).at(),
        ) || scope::allows(b[j], a[i].at()))
}

/// Whether one of two tasks writes what the other reads or writes.
pub open spec fn collide(left: TaskPacket, right: TaskPacket) -> bool {
    ||| cross(left.write_scope@, right.write_scope@)
    ||| cross(left.write_scope@, right.read_scope@)
    ||| cross(right.write_scope@, left.read_scope@)
}

proof fn lemma_write_write(a: ScopePath, writes: Seq<ScopePath>, j: int)
    requires
        0 <= j,
    ensures
        concurrency::write_write(a, writes, j).len() > 0 <==> exists|n: int|
            j <= n < writes.len() && scope::meet(a, #[trigger] writes[n]),
    decreases writes.len() - j,
{
    if j < writes.len() {
        lemma_write_write(a, writes, j + 1);
    }
}

proof fn lemma_write_read(
    writer: Seq<char>,
    a: ScopePath,
    reader: Seq<char>,
    reads: Seq<ScopePath>,
    j: int,
)
    requires
        0 <= j,
    ensures
        concurrency::write_read(writer, a, reader, reads, j).len() > 0 <==> exists|n: int|
            j <= n < reads.len() && scope::meet(a, #[trigger] reads[n]),
    decreases reads.len() - j,
{
    if j < reads.len() {
        lemma_write_read(writer, a, reader, reads, j + 1);
    }
}

/// Whether some scope of a list meets one scope.
spec fn meets_one(a: ScopePath, list: Seq<ScopePath>) -> bool {
    exists|n: int| 0 <= n < list.len() && scope::meet(a, #[trigger] list[n])
}

proof fn lemma_left_writes(left: TaskPacket, right: TaskPacket, i: int)
    requires
        0 <= i,
    ensures
        concurrency::left_writes(left, right, i).len() > 0 <==> exists|n: int|
            i <= n < left.write_scope@.len() && (meets_one(
                #[trigger] left.write_scope@[n],
                right.write_scope@,
            ) || meets_one(left.write_scope@[n], right.read_scope@)),
    decreases left.write_scope@.len() - i,
{
    if i < left.write_scope@.len() {
        lemma_left_writes(left, right, i + 1);
        let a = left.write_scope@[i];
        lemma_write_write(a, right.write_scope@, 0);
        lemma_write_read(left.task_id@, a, right.task_id@, right.read_scope@, 0);
        assert(meets_one(a, right.write_scope@) <==> concurrency::write_write(
            a,
            right.write_scope@,
            0,
        ).len() > 0);
        assert(meets_one(a, right.read_scope@) <==> concurrency::write_read(
            left.task_id@,
            a,
            right.task_id@,
            right.read_scope@,
            0,
        ).len() > 0);
    }
}

proof fn lemma_right_writes(left: TaskPacket, right: TaskPacket, i: int)
    requires
        0 <= i,
    ensures
        concurrency::right_writes(left, right, i).len() > 0 <==> exists|n: int|
            i <= n < right.write_scope@.len() && meets_one(
                #[trigger] right.write_scope@[n],
                left.read_scope@,
            ),
    decreases right.write_scope@.len() - i,
{
    if i < right.write_scope@.len() {
        lemma_right_writes(left, right, i + 1);
        let a = right.write_scope@[i];
        lemma_write_read(right.task_id@, a, left.task_id@, left.read_scope@, 0);
        assert(meets_one(a, left.read_scope@) <==> concurrency::write_read(
            right.task_id@,
            a,
            left.task_id@,
            left.read_scope@,
            0,
        ).len() > 0);
    }
}

proof fn lemma_cross(a: Seq<ScopePath>, b: Seq<ScopePath>)
    ensures
        cross(a, b) <==> exists|n: int| 0 <= n < a.len() && meets_one(#[trigger] a[n], b),
{
    if cross(a, b) {
        let (i, j) = choose|i: int, j: int|
            0 <= i < a.len() && 0 <= j < b.len() && (scope::allows(
                #[trigger] a[i],
                (#[trigger] b[j]).at(),
            ) || scope::allows(b[j], a[i].at()));
        assert(scope::meet(a[i], b[j]));
        assert(meets_one(a[i], b));
    }
    if exists|n: int| 0 <= n < a.len() && meets_one(#[trigger] a[n], b) {
        let n = choose|n: int| 0 <= n < a.len() && meets_one(#[trigger] a[n], b);
        let j = choose|j: int| 0 <= j < b.len() && scope::meet(a[n], #[trigger] b[j]);
        assert(scope::allows(a[n], b[j].at()) || scope::allows(b[j], a[n].at()));
    }
}

proof fn lemma_collide(left: TaskPacket, right: TaskPacket)
    ensures
        concurrency::overlaps(left, right).len() > 0 <==> collide(left, right),
{
    lemma_left_writes(left, right, 0);
    lemma_right_writes(left, right, 0);
    lemma_cross(left.write_scope@, right.write_scope@);
    lemma_cross(left.write_scope@, right.read_scope@);
    lemma_cross(right.write_scope@, left.read_scope@);
}

/// Tasks of a plan of another source are incompatible with it. Of a plan at hand, a task
/// that depends on another waits for it; and of tasks that do not wait, one that writes
/// what the other reads or writes conflicts with it.
pub proof fn law_declared_tasks_decide_first(
    plan: ExecutionPlan,
    info: RepositoryInfo,
    left: TaskPacket,
    right: TaskPacket,
    facts: SemanticFacts,
)
    ensures
        ({
            let d = concurrency::decision_of(plan, info, left, right, facts).decision;
            &&& d == Compatibility::SourceIncompatible <==> !at_hand(plan, info)
            &&& d == Compatibility::DependencyBlocked <==> at_hand(plan, info) && in_line(
                plan,
                left,
                right,
            )
            &&& at_hand(plan, info) && !in_line(plan, left, right) && collide(left, right) ==> d
                == Compatibility::Conflict
            &&& at_hand(plan, info) && !in_line(plan, left, right) && !collide(left, right) && (
            left.graph_entities@.len() == 0 || right.graph_entities@.len() == 0) ==> d
                == Compatibility::Unknown
        }),
{
    lemma_collide(left, right);
    lemma_interference_kinds(left, concurrency::report_of(facts, left), right);
    lemma_interference_kinds(right, concurrency::report_of(facts, right), left);
}

proof fn lemma_interference_kinds(source: TaskPacket, report: ImpactReport, other: TaskPacket)
    ensures
        concurrency::interference(source, report, other) matches Some(x) ==> x.0
            == Compatibility::Unknown || x.0 == Compatibility::Conflict,
{
}

// ---------------------------------------------------------------------------
// What is known
// ---------------------------------------------------------------------------
/// Whether an item of an impact report reaches a task: its entity is one of the task's, or
/// its path lies in what the task reads or writes.
pub open spec fn reaches(item: ImpactItem, task: TaskPacket) -> bool {
    ||| exists|e: int|
        0 <= e < task.graph_entities@.len() && (#[trigger] task.graph_entities@[e])@ == item.entity@
    ||| exists|r: int|
        0 <= r < task.read_scope@.len() && scope::allows(#[trigger] task.read_scope@[r], item.path@)
    ||| exists|w: int|
        0 <= w < task.write_scope@.len() && scope::allows(
            #[trigger] task.write_scope@[w],
            item.path@,
        )
}

proof fn lemma_reaches(item: ImpactItem, task: TaskPacket)
    ensures
        concurrency::concerns(item.entity@, item.path@, task) <==> reaches(item, task),
{
    let names = text::texts(task.graph_entities@);
    if names.contains(item.entity@) {
        let e = choose|e: int| 0 <= e < names.len() && names[e] == item.entity@;
        assert(task.graph_entities@[e]@ == item.entity@);
    }
    if exists|e: int|
        0 <= e < task.graph_entities@.len() && (#[trigger] task.graph_entities@[e])@
            == item.entity@ {
        let e = choose|e: int|
            0 <= e < task.graph_entities@.len() && (#[trigger] task.graph_entities@[e])@
                == item.entity@;
        assert(names[e] == item.entity@);
    }
}

proof fn lemma_first_reached(items: Seq<ImpactItem>, task: TaskPacket, i: int)
    requires
        0 <= i,
    ensures
        match concurrency::first_concern(items, task, i) {
            Some(k) => i <= k < items.len() && reaches(items[k], task),
            None => forall|n: int| i <= n < items.len() ==> !reaches(#[trigger] items[n], task),
        },
    decreases items.len() - i,
{
    if i < items.len() {
        lemma_reaches(items[i], task);
        lemma_first_reached(items, task, i + 1);
    }
}

/// Whether a report is whole.
pub open spec fn whole(report: ImpactReport) -> bool {
    report.boundary is None && report.items_omitted == 0 && report.boundaries_omitted == 0
}

/// A report says nothing against a task exactly where it is whole and none of its items
/// reaches the task. Where it is not whole nothing is known; where it is, what reaches the
/// task is in conflict with it and is named.
pub proof fn law_whole_reports_that_reach_nothing_are_clear(
    source: TaskPacket,
    report: ImpactReport,
    other: TaskPacket,
)
    ensures
        concurrency::interference(source, report, other) is None <==> whole(report) && forall|n: int|
            0 <= n < report.items@.len() ==> !reaches(#[trigger] report.items@[n], other),
        concurrency::interference(source, report, other) matches Some(x) ==> {
            &&& x.0 == Compatibility::Unknown <==> !whole(report)
            &&& x.0 == Compatibility::Conflict <==> whole(report)
            &&& whole(report) ==> exists|n: int|
                {
                    &&& 0 <= n < report.items@.len()
                    &&& reaches(#[trigger] report.items@[n], other)
                    &&& x.1 == ReasonView::SemanticInterference {
                        source: report.items@[n].seed@,
                        affected: report.items@[n].entity@,
                        path: report.items@[n].path@,
                    }
                }
        },
{
    lemma_first_reached(report.items@, other, 0);
}

proof fn lemma_impact(list: Seq<TaskImpact>, id: Seq<char>, i: int, k: int)
    requires
        0 <= i <= k < list.len(),
        list[k].task_id@ == id,
        forall|j: int| i <= j < k ==> (#[trigger] list[j]).task_id@ != id,
    ensures
        concurrency::impact_at(list, id, i) == Some(k),
    decreases k - i,
{
    if i < k {
        assert(list[i].task_id@ != id);
        lemma_impact(list, id, i + 1, k);
    }
}

proof fn lemma_none_shared(list: Seq<Seq<char>>, others: Seq<Seq<char>>, wanted: bool, i: int)
    requires
        0 <= i,
        forall|n: int| i <= n < list.len() ==> others.contains(#[trigger] list[n]) != wanted,
    ensures
        concurrency::first_among(list, others, wanted, i) is None,
    decreases list.len() - i,
{
    if i < list.len() {
        lemma_none_shared(list, others, wanted, i + 1);
    }
}

/// Tasks of a plan at hand that do not wait for each other, do not write what the other
/// reads or writes, have entities of their own that are known, and whose reports are whole
/// and do not reach the other, are compatible.
pub proof fn law_tasks_that_are_apart_are_compatible(
    plan: ExecutionPlan,
    info: RepositoryInfo,
    left: TaskPacket,
    right: TaskPacket,
    facts: SemanticFacts,
    l: int,
    r: int,
)
    requires
        at_hand(plan, info),
        !in_line(plan, left, right),
        !collide(left, right),
        left.graph_entities@.len() > 0,
        right.graph_entities@.len() > 0,
        forall|e: int, f: int|
            0 <= e < left.graph_entities@.len() && 0 <= f < right.graph_entities@.len() ==> (
            #[trigger] left.graph_entities@[e])@ != (#[trigger] right.graph_entities@[f])@,
        facts.generation is Some,
        text::subset(text::texts(left.graph_entities@), text::texts(facts.entities@)),
        text::subset(text::texts(right.graph_entities@), text::texts(facts.entities@)),
        0 <= l < facts.impacts@.len(),
        facts.impacts@[l].task_id@ == left.task_id@,
        forall|j: int| 0 <= j < l ==> (#[trigger] facts.impacts@[j]).task_id@ != left.task_id@,
        0 <= r < facts.impacts@.len(),
        facts.impacts@[r].task_id@ == right.task_id@,
        forall|j: int| 0 <= j < r ==> (#[trigger] facts.impacts@[j]).task_id@ != right.task_id@,
        whole(facts.impacts@[l].report),
        whole(facts.impacts@[r].report),
        forall|n: int|
            0 <= n < facts.impacts@[l].report.items@.len() ==> !reaches(
                #[trigger] facts.impacts@[l].report.items@[n],
                right,
            ),
        forall|n: int|
            0 <= n < facts.impacts@[r].report.items@.len() ==> !reaches(
                #[trigger] facts.impacts@[r].report.items@[n],
                left,
            ),
    ensures
        concurrency::decide_refusal(plan, info, left, right, facts) is None,
        concurrency::decision_of(plan, info, left, right, facts).decision
            == Compatibility::Compatible,
        concurrency::decision_of(plan, info, left, right, facts).reasons == seq![
            ReasonView::DisjointDeclaredScopes,
            ReasonView::OntologyProvesNoInterference { generation: facts.generation->0 },
        ],
{
    lemma_collide(left, right);
    lemma_impact(facts.impacts@, left.task_id@, 0, l);
    lemma_impact(facts.impacts@, right.task_id@, 0, r);
    law_whole_reports_that_reach_nothing_are_clear(left, facts.impacts@[l].report, right);
    law_whole_reports_that_reach_nothing_are_clear(right, facts.impacts@[r].report, left);
    let mine = text::texts(left.graph_entities@);
    let yours = text::texts(right.graph_entities@);
    let known = text::texts(facts.entities@);
    text::law_texts_can_be_ordered(mine);
    text::law_texts_can_be_ordered(yours);
    let a = text::in_order(mine);
    let b = text::in_order(yours);
    assert forall|n: int| 0 <= n < a.len() implies !yours.contains(#[trigger] a[n]) && known.contains(
        a[n],
    ) by {
        assert(a.contains(a[n]));
        assert(mine.contains(a[n]));
        let e = choose|e: int| 0 <= e < mine.len() && mine[e] == a[n];
        assert(known.contains(mine[e]));
        if yours.contains(a[n]) {
            let f = choose|f: int| 0 <= f < yours.len() && yours[f] == a[n];
            assert(left.graph_entities@[e]@ != right.graph_entities@[f]@);
        }
    }
    assert forall|n: int| 0 <= n < b.len() implies known.contains(#[trigger] b[n]) by {
        assert(b.contains(b[n]));
        assert(yours.contains(b[n]));
        let f = choose|f: int| 0 <= f < yours.len() && yours[f] == b[n];
        assert(known.contains(yours[f]));
    }
    lemma_none_shared(a, yours, true, 0);
    lemma_none_shared(a, known, false, 0);
    lemma_none_shared(b, known, false, 0);
    assert(concurrency::dag_reasons(plan.packet.tasks@, left.task_id@, right.task_id@).len() == 0);
    assert(concurrency::decision_of(plan, info, left, right, facts).reasons =~= seq![
        ReasonView::DisjointDeclaredScopes,
        ReasonView::OntologyProvesNoInterference { generation: facts.generation->0 },
    ]);
}

proof fn lemma_task(tasks: Seq<TaskPacket>, id: Seq<char>, i: int, k: int)
    requires
        0 <= i <= k < tasks.len(),
        tasks[k].task_id@ == id,
        forall|j: int| i <= j < k ==> (#[trigger] tasks[j]).task_id@ != id,
    ensures
        crate::protocol::task_at(tasks, id, i) == Some(k),
    decreases k - i,
{
    if i < k {
        assert(tasks[i].task_id@ != id);
        lemma_task(tasks, id, i + 1, k);
    }
}

/// A task depends on each that it names, and on nothing where it names none.
pub proof fn law_tasks_depend_on_what_they_name(
    tasks: Seq<TaskPacket>,
    k: int,
    d: int,
    other: Seq<char>,
)
    requires
        0 <= k < tasks.len(),
        forall|j: int| 0 <= j < k ==> (#[trigger] tasks[j]).task_id@ != tasks[k].task_id@,
    ensures
        0 <= d < tasks[k].dependencies@.len() ==> concurrency::depends(
            tasks,
            tasks[k].task_id@,
            tasks[k].dependencies@[d]@,
        ),
        tasks[k].dependencies@.len() == 0 ==> !concurrency::depends(
            tasks,
            tasks[k].task_id@,
            other,
        ),
{
    let id = tasks[k].task_id@;
    lemma_task(tasks, id, 0, k);
    let names = text::texts(tasks[k].dependencies@);
    if 0 <= d < names.len() {
        let path = seq![id, names[d]];
        assert(names.contains(names[d]));
        assert forall|i: int| 0 <= i < path.len() - 1 implies concurrency::deps_of(
            tasks,
            #[trigger] path[i],
        ).contains(path[i + 1]) by {
            assert(i == 0);
        }
        assert(concurrency::leads(tasks, path, id, names[d]));
    }
    if names.len() == 0 && concurrency::depends(tasks, id, other) {
        let path = choose|path: Seq<Seq<char>>|
            path.len() >= 2 && #[trigger] concurrency::leads(tasks, path, id, other);
        let i: int = 0;
        assert(concurrency::deps_of(tasks, path[i]).contains(path[i + 1]));
    }
}

} // verus!
