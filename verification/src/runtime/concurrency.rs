//! Whether tasks may run at once, and whether their results may be brought
//! together. An absent proof fails closed.
use crate::error::{invalid, Error};
use crate::graph::GraphGeneration;
use crate::planning::lifecycle;
use crate::planning::lifecycle::TaskGuard;
use crate::planning::model::{ExecutionPlan, TaskInspection};
use crate::planning::scope;
use crate::planning::scope::ScopePath;
use crate::protocol;
use crate::protocol::TaskPacket;
use crate::repository::RepositoryInfo;
use crate::store;
use crate::store::Store;
use crate::text;
use vstd::prelude::*;

verus! {

#[derive(Debug, Clone, Copy, PartialEq, Eq, Structural)]
pub enum Compatibility {
    Compatible,
    Conflict,
    DependencyBlocked,
    SourceIncompatible,
    Unknown,
}

#[derive(Debug, PartialEq, Eq)]
pub enum CompatibilityReason {
    DisjointDeclaredScopes,
    OntologyProvesNoInterference { generation: GraphGeneration },
    DagDependency { predecessor: String, successor: String },
    WriteWriteOverlap { left: String, right: String },
    WriteReadInterference { writer: String, write: String, reader: String, read: String },
    SharedEntity { entity: String },
    SemanticInterference { source: String, affected: String, path: String },
    SemanticBoundary { task: String, detail: String },
    MissingSemanticAuthority { task: String },
    DifferentSource { left: String, right: String },
}

#[derive(Debug, PartialEq, Eq)]
pub struct CompatibilityDecision {
    pub left: String,
    pub right: String,
    pub decision: Compatibility,
    pub reasons: Vec<CompatibilityReason>,
}

// ---------------------------------------------------------------------------
// Dependencies
// ---------------------------------------------------------------------------

/// The dependencies of a task, where it is known.
pub open spec fn deps_of(tasks: Seq<TaskPacket>, id: Seq<char>) -> Seq<Seq<char>> {
    match protocol::task_at(tasks, id, 0) {
        Some(t) => text::texts(tasks[t].dependencies@),
        None => Seq::empty(),
    }
}

/// Whether each task of a path depends directly on the next one.
pub open spec fn chain(tasks: Seq<TaskPacket>, path: Seq<Seq<char>>) -> bool {
    forall|i: int|
        0 <= i < path.len() - 1 ==> deps_of(tasks, #[trigger] path[i]).contains(path[i + 1])
}

/// Whether a path leads from one task down to another.
pub open spec fn leads(tasks: Seq<TaskPacket>, path: Seq<Seq<char>>, from: Seq<char>, to: Seq<char>) -> bool {
    path.len() >= 1 && path[0] == from && path.last() == to && chain(tasks, path)
}

/// Whether one task depends on another, directly or through others.
pub open spec fn depends(tasks: Seq<TaskPacket>, successor: Seq<char>, predecessor: Seq<char>) -> bool {
    exists|path: Seq<Seq<char>>|
        path.len() >= 2 && #[trigger] leads(tasks, path, successor, predecessor)
}

/// Whether a task is itself, or something that another one depends on.
pub open spec fn below(tasks: Seq<TaskPacket>, from: Seq<char>, id: Seq<char>) -> bool {
    exists|path: Seq<Seq<char>>| #[trigger] leads(tasks, path, from, id)
}

proof fn lemma_extend(tasks: Seq<TaskPacket>, from: Seq<char>, id: Seq<char>, next: Seq<char>)
    requires
        below(tasks, from, id),
        deps_of(tasks, id).contains(next),
    ensures
        below(tasks, from, next),
        depends(tasks, from, next),
{
    let path = choose|path: Seq<Seq<char>>| #[trigger] leads(tasks, path, from, id);
    let longer = path.push(next);
    assert forall|i: int| 0 <= i < longer.len() - 1 implies deps_of(
        tasks,
        #[trigger] longer[i],
    ).contains(longer[i + 1]) by {
        if i < path.len() - 1 {
            assert(deps_of(tasks, path[i]).contains(path[i + 1]));
        }
    }
    assert(leads(tasks, longer, from, next));
}

/// All dependencies of all tasks.
spec fn universe(tasks: Seq<TaskPacket>) -> Seq<Seq<char>>
    decreases tasks.len(),
{
    if tasks.len() == 0 {
        Seq::empty()
    } else {
        universe(tasks.drop_last()) + text::texts(tasks.last().dependencies@)
    }
}

proof fn lemma_universe(tasks: Seq<TaskPacket>, t: int, x: Seq<char>)
    requires
        0 <= t < tasks.len(),
        text::texts(tasks[t].dependencies@).contains(x),
    ensures
        universe(tasks).contains(x),
    decreases tasks.len(),
{
    text::lemma_sum_contains(
        universe(tasks.drop_last()),
        text::texts(tasks.last().dependencies@),
        x,
    );
    if t < tasks.len() - 1 {
        assert(tasks.drop_last()[t] == tasks[t]);
        lemma_universe(tasks.drop_last(), t, x);
    }
}

proof fn lemma_task_at(tasks: Seq<TaskPacket>, id: Seq<char>, i: int)
    requires
        0 <= i,
    ensures
        protocol::task_at(tasks, id, i) matches Some(t) ==> i <= t < tasks.len(),
    decreases tasks.len() - i,
{
    if i < tasks.len() && tasks[i].task_id@ != id {
        lemma_task_at(tasks, id, i + 1);
    }
}

/// A set that holds a task and is closed under dependencies holds whatever a
/// path from that task leads to.
proof fn lemma_closed(tasks: Seq<TaskPacket>, seen: Seq<Seq<char>>, path: Seq<Seq<char>>, from: Seq<char>, k: int)
    requires
        seen.contains(from),
        forall|x: Seq<char>, y: Seq<char>|
            #![trigger seen.contains(x), deps_of(tasks, x).contains(y)]
            seen.contains(x) && deps_of(tasks, x).contains(y) ==> seen.contains(y),
        path.len() >= 1,
        path[0] == from,
        chain(tasks, path),
        0 <= k < path.len(),
    ensures
        seen.contains(path[k]),
    decreases k,
{
    if k > 0 {
        lemma_closed(tasks, seen, path, from, k - 1);
        assert(deps_of(tasks, path[k - 1]).contains(path[k]));
    }
}

proof fn lemma_seen_bounded(seen: Seq<Seq<char>>, all: Seq<Seq<char>>)
    requires
        seen.no_duplicates(),
        forall|x: Seq<char>| #[trigger] seen.contains(x) ==> all.contains(x),
    ensures
        seen.len() <= all.to_set().len(),
{
    seen.unique_seq_to_set();
    assert(seen.to_set().subset_of(all.to_set())) by {
        assert forall|x: Seq<char>| #[trigger] seen.to_set().contains(x) implies all.to_set().contains(
            x,
        ) by {
            assert(seen.contains(x));
        }
    }
    vstd::set_lib::lemma_len_subset(seen.to_set(), all.to_set());
}

fn push_all(open: &mut Vec<String>, more: &Vec<String>)
    ensures
        text::texts(final(open)@) == text::texts(old(open)@) + text::texts(more@),
{
    let ghost start = text::texts(open@);
    let ghost all = text::texts(more@);
    let mut i: usize = 0;
    assert(all.take(0) =~= Seq::<Seq<char>>::empty());
    assert(start + all.take(0) =~= start);
    while i < more.len()
        invariant
            i <= more@.len(),
            all == text::texts(more@),
            text::texts(open@) == start + all.take(i as int),
        decreases more@.len() - i,
    {
        let ghost so_far = text::texts(open@);
        open.push(more[i].clone());
        i += 1;
        assert(text::texts(open@) =~= so_far.push(all[i - 1]));
        assert(so_far.push(all[i - 1]) =~= start + all.take(i as int));
    }
    assert(all.take(i as int) =~= all);
}

/// Whether `to` depends on `from`, directly or through other tasks.
pub fn reaches(tasks: &Vec<TaskPacket>, from: &str, to: &str) -> (r: bool)
    ensures
        r == depends(tasks@, to@, from@),
{
    let mut open: Vec<String> = Vec::new();
    open.push(to.to_owned());
    let mut seen: Vec<String> = Vec::new();
    let ghost all = universe(tasks@).push(to@);
    proof {
        let one = seq![to@];
        assert(leads(tasks@, one, to@, to@));
        assert(text::texts(open@) =~= one);
        assert(text::texts(seen@) =~= Seq::<Seq<char>>::empty());
        text::lemma_push_contains(universe(tasks@), to@, to@);
        text::lemma_push_contains(Seq::empty(), to@, to@);
        assert(one =~= Seq::<Seq<char>>::empty().push(to@));
    }
    while open.len() > 0
        invariant
            all == universe(tasks@).push(to@),
            text::texts(open@).contains(to@) || text::texts(seen@).contains(to@),
            text::texts(seen@).no_duplicates(),
            forall|x: Seq<char>| #[trigger]
                text::texts(seen@).contains(x) ==> all.contains(x) && !deps_of(
                    tasks@,
                    x,
                ).contains(from@),
            forall|x: Seq<char>| #[trigger]
                text::texts(open@).contains(x) ==> all.contains(x) && below(tasks@, to@, x),
            forall|x: Seq<char>, y: Seq<char>|
                #![trigger text::texts(seen@).contains(x), deps_of(tasks@, x).contains(y)]
                text::texts(seen@).contains(x) && deps_of(tasks@, x).contains(y) ==> text::texts(
                    seen@,
                ).contains(y) || text::texts(open@).contains(y),
        decreases all.to_set().len() - seen@.len(), open@.len(),
    {
        let ghost before_open = text::texts(open@);
        let ghost before_seen = text::texts(seen@);
        proof {
            lemma_seen_bounded(before_seen, all);
            assert(before_seen.len() == seen@.len());
        }
        let id: String = open.pop().unwrap();
        let ghost rest = text::texts(open@);
        proof {
            assert(before_open =~= rest.push(id@));
            assert(before_open[before_open.len() - 1] == id@);
            assert(before_open.contains(id@));
            assert forall|x: Seq<char>| #[trigger] before_open.contains(x) <==> rest.contains(x) || x
                == id@ by {
                text::lemma_push_contains(rest, id@, x);
            }
            assert forall|x: Seq<char>| #[trigger] rest.contains(x) implies all.contains(x)
                && below(tasks@, to@, x) by {
                assert(before_open.contains(x));
            }
        }
        if text::among(&seen, id.as_str()) {
            continue ;
        }
        let ghost added = before_seen.push(id@);
        proof {
            assert forall|x: Seq<char>| #[trigger] added.contains(x) <==> before_seen.contains(x)
                || x == id@ by {
                text::lemma_push_contains(before_seen, id@, x);
            }
            assert(added.no_duplicates()) by {
                assert forall|i: int, j: int|
                    0 <= i < added.len() && 0 <= j < added.len() && i != j implies added[i]
                    != added[j] by {
                    if i < before_seen.len() {
                        assert(before_seen.contains(before_seen[i]));
                    }
                    if j < before_seen.len() {
                        assert(before_seen.contains(before_seen[j]));
                    }
                }
            }
            lemma_seen_bounded(added, all);
            lemma_task_at(tasks@, id@, 0);
        }
        let found: Option<usize> = protocol::find_task(tasks, id.as_str());
        seen.push(id.clone());
        assert(text::texts(seen@) =~= added);
        if let Some(t) = found {
            if text::among(&tasks[t].dependencies, from) {
                proof {
                    lemma_extend(tasks@, to@, id@, from@);
                }
                return true;
            }
            push_all(&mut open, &tasks[t].dependencies);
            proof {
                let deps = text::texts(tasks@[t as int].dependencies@);
                assert(deps == deps_of(tasks@, id@));
                assert forall|x: Seq<char>| #[trigger] text::texts(open@).contains(x) <==> rest.contains(
                    x,
                ) || deps.contains(x) by {
                    text::lemma_sum_contains(rest, deps, x);
                }
                assert forall|x: Seq<char>| #[trigger] text::texts(open@).contains(x) implies all.contains(
                    x,
                ) && below(tasks@, to@, x) by {
                    if rest.contains(x) {
                        assert(before_open.contains(x));
                    } else {
                        lemma_universe(tasks@, t as int, x);
                        text::lemma_push_contains(universe(tasks@), to@, x);
                        lemma_extend(tasks@, to@, id@, x);
                    }
                }
            }
        }
    }
    proof {
        let done = text::texts(seen@);
        assert(text::texts(open@).len() == 0);
        assert forall|x: Seq<char>, y: Seq<char>|
            #![trigger done.contains(x), deps_of(tasks@, x).contains(y)]
            done.contains(x) && deps_of(tasks@, x).contains(y) implies done.contains(y) by {
            assert(!text::texts(open@).contains(y));
        }
        if depends(tasks@, to@, from@) {
            let path = choose|path: Seq<Seq<char>>|
                path.len() >= 2 && #[trigger] leads(tasks@, path, to@, from@);
            lemma_closed(tasks@, done, path, to@, path.len() - 2);
            assert(deps_of(tasks@, path[path.len() - 2]).contains(path[path.len() - 1]));
        }
    }
    false
}

/// Dependency is transitive.
pub proof fn law_dependency_is_transitive(tasks: Seq<TaskPacket>, a: Seq<char>, b: Seq<char>, c: Seq<char>)
    requires
        depends(tasks, a, b),
        depends(tasks, b, c),
    ensures
        depends(tasks, a, c),
{
    let p = choose|path: Seq<Seq<char>>| path.len() >= 2 && #[trigger] leads(tasks, path, a, b);
    let q = choose|path: Seq<Seq<char>>| path.len() >= 2 && #[trigger] leads(tasks, path, b, c);
    let r = p + q.drop_first();
    assert forall|i: int| 0 <= i < r.len() - 1 implies deps_of(tasks, #[trigger] r[i]).contains(
        r[i + 1],
    ) by {
        if i < p.len() - 1 {
            assert(deps_of(tasks, p[i]).contains(p[i + 1]));
        } else {
            let j = i - (p.len() - 1);
            assert(r[i] == q[j]);
            assert(r[i + 1] == q[j + 1]);
            assert(deps_of(tasks, q[j]).contains(q[j + 1]));
        }
    }
    assert(leads(tasks, r, a, c));
}

// ---------------------------------------------------------------------------
// Reasons
// ---------------------------------------------------------------------------

/// What a reason says.
pub enum ReasonView {
    DisjointDeclaredScopes,
    OntologyProvesNoInterference { generation: GraphGeneration },
    DagDependency { predecessor: Seq<char>, successor: Seq<char> },
    WriteWriteOverlap { left: Seq<char>, right: Seq<char> },
    WriteReadInterference {
        writer: Seq<char>,
        write: Seq<char>,
        reader: Seq<char>,
        read: Seq<char>,
    },
    SharedEntity { entity: Seq<char> },
    SemanticInterference { source: Seq<char>, affected: Seq<char>, path: Seq<char> },
    SemanticBoundary { task: Seq<char>, detail: Seq<char> },
    MissingSemanticAuthority { task: Seq<char> },
    DifferentSource { left: Seq<char>, right: Seq<char> },
}

impl View for CompatibilityReason {
    type V = ReasonView;

    open spec fn view(&self) -> ReasonView {
        match *self {
            CompatibilityReason::DisjointDeclaredScopes => ReasonView::DisjointDeclaredScopes,
            CompatibilityReason::OntologyProvesNoInterference {
                generation,
            } => ReasonView::OntologyProvesNoInterference { generation },
            CompatibilityReason::DagDependency {
                predecessor,
                successor,
            } => ReasonView::DagDependency { predecessor: predecessor@, successor: successor@ },
            CompatibilityReason::WriteWriteOverlap {
                left,
                right,
            } => ReasonView::WriteWriteOverlap { left: left@, right: right@ },
            CompatibilityReason::WriteReadInterference {
                writer,
                write,
                reader,
                read,
            } => ReasonView::WriteReadInterference {
                writer: writer@,
                write: write@,
                reader: reader@,
                read: read@,
            },
            CompatibilityReason::SharedEntity { entity } => ReasonView::SharedEntity {
                entity: entity@,
            },
            CompatibilityReason::SemanticInterference {
                source,
                affected,
                path,
            } => ReasonView::SemanticInterference {
                source: source@,
                affected: affected@,
                path: path@,
            },
            CompatibilityReason::SemanticBoundary {
                task,
                detail,
            } => ReasonView::SemanticBoundary { task: task@, detail: detail@ },
            CompatibilityReason::MissingSemanticAuthority {
                task,
            } => ReasonView::MissingSemanticAuthority { task: task@ },
            CompatibilityReason::DifferentSource { left, right } => ReasonView::DifferentSource {
                left: left@,
                right: right@,
            },
        }
    }
}

/// What some reasons say.
pub open spec fn said(reasons: Seq<CompatibilityReason>) -> Seq<ReasonView> {
    reasons.map_values(|r: CompatibilityReason| r@)
}

fn say(reasons: &mut Vec<CompatibilityReason>, r: CompatibilityReason)
    ensures
        said(final(reasons)@) == said(old(reasons)@).push(r@),
{
    reasons.push(r);
    assert(said(reasons@) =~= said(old(reasons)@).push(r@));
}

/// The overlaps of one write scope with the write scopes of another task, from
/// the `j`-th on.
pub open spec fn write_write(a: ScopePath, writes: Seq<ScopePath>, j: int) -> Seq<ReasonView>
    decreases writes.len() - j,
{
    if j < 0 || j >= writes.len() {
        Seq::empty()
    } else if scope::meet(a, writes[j]) {
        seq![ReasonView::WriteWriteOverlap { left: a.at(), right: writes[j].at() }] + write_write(
            a,
            writes,
            j + 1,
        )
    } else {
        write_write(a, writes, j + 1)
    }
}

/// The interferences of one write scope with the read scopes of another task,
/// from the `j`-th on.
pub open spec fn write_read(
    writer: Seq<char>,
    a: ScopePath,
    reader: Seq<char>,
    reads: Seq<ScopePath>,
    j: int,
) -> Seq<ReasonView>
    decreases reads.len() - j,
{
    if j < 0 || j >= reads.len() {
        Seq::empty()
    } else if scope::meet(a, reads[j]) {
        seq![
            ReasonView::WriteReadInterference {
                writer,
                write: a.at(),
                reader,
                read: reads[j].at(),
            },
        ] + write_read(writer, a, reader, reads, j + 1)
    } else {
        write_read(writer, a, reader, reads, j + 1)
    }
}

/// What the write scopes of the left task run into, from the `i`-th on.
pub open spec fn left_writes(left: TaskPacket, right: TaskPacket, i: int) -> Seq<ReasonView>
    decreases left.write_scope@.len() - i,
{
    if i < 0 || i >= left.write_scope@.len() {
        Seq::empty()
    } else {
        write_write(left.write_scope@[i], right.write_scope@, 0) + write_read(
            left.task_id@,
            left.write_scope@[i],
            right.task_id@,
            right.read_scope@,
            0,
        ) + left_writes(left, right, i + 1)
    }
}

/// What the write scopes of the right task run into, from the `i`-th on.
pub open spec fn right_writes(left: TaskPacket, right: TaskPacket, i: int) -> Seq<ReasonView>
    decreases right.write_scope@.len() - i,
{
    if i < 0 || i >= right.write_scope@.len() {
        Seq::empty()
    } else {
        write_read(
            right.task_id@,
            right.write_scope@[i],
            left.task_id@,
            left.read_scope@,
            0,
        ) + right_writes(left, right, i + 1)
    }
}

/// Every overlap of declared scopes that keeps two tasks apart.
pub open spec fn overlaps(left: TaskPacket, right: TaskPacket) -> Seq<ReasonView> {
    left_writes(left, right, 0) + right_writes(left, right, 0)
}

fn say_write_write(reasons: &mut Vec<CompatibilityReason>, a: &ScopePath, writes: &Vec<ScopePath>)
    ensures
        said(final(reasons)@) == said(old(reasons)@) + write_write(*a, writes@, 0),
{
    let ghost all = said(reasons@) + write_write(*a, writes@, 0);
    let mut j: usize = 0;
    while j < writes.len()
        invariant
            j <= writes@.len(),
            said(reasons@) + write_write(*a, writes@, j as int) == all,
        decreases writes@.len() - j,
    {
        let ghost so_far = said(reasons@);
        if scope::overlap(a, &writes[j]) {
            let r: CompatibilityReason = CompatibilityReason::WriteWriteOverlap {
                left: a.path().to_owned(),
                right: writes[j].path().to_owned(),
            };
            let ghost v = r@;
            say(reasons, r);
            assert(so_far.push(v) + write_write(*a, writes@, j + 1) =~= so_far + (seq![v]
                + write_write(*a, writes@, j + 1)));
        }
        j += 1;
    }
    assert(said(reasons@) + write_write(*a, writes@, j as int) =~= said(reasons@));
}

fn say_write_read(
    reasons: &mut Vec<CompatibilityReason>,
    writer: &str,
    a: &ScopePath,
    reader: &str,
    reads: &Vec<ScopePath>,
)
    ensures
        said(final(reasons)@) == said(old(reasons)@) + write_read(
            writer@,
            *a,
            reader@,
            reads@,
            0,
        ),
{
    let ghost all = said(reasons@) + write_read(writer@, *a, reader@, reads@, 0);
    let mut j: usize = 0;
    while j < reads.len()
        invariant
            j <= reads@.len(),
            said(reasons@) + write_read(writer@, *a, reader@, reads@, j as int) == all,
        decreases reads@.len() - j,
    {
        let ghost so_far = said(reasons@);
        if scope::overlap(a, &reads[j]) {
            let r: CompatibilityReason = CompatibilityReason::WriteReadInterference {
                writer: writer.to_owned(),
                write: a.path().to_owned(),
                reader: reader.to_owned(),
                read: reads[j].path().to_owned(),
            };
            let ghost v = r@;
            say(reasons, r);
            assert(so_far.push(v) + write_read(writer@, *a, reader@, reads@, j + 1) =~= so_far + (
            seq![v] + write_read(writer@, *a, reader@, reads@, j + 1)));
        }
        j += 1;
    }
    assert(said(reasons@) + write_read(writer@, *a, reader@, reads@, j as int) =~= said(reasons@));
}

fn say_overlaps(reasons: &mut Vec<CompatibilityReason>, left: &TaskPacket, right: &TaskPacket)
    ensures
        said(final(reasons)@) == said(old(reasons)@) + overlaps(*left, *right),
{
    let ghost start = said(reasons@);
    let mut i: usize = 0;
    while i < left.write_scope.len()
        invariant
            i <= left.write_scope@.len(),
            said(reasons@) + left_writes(*left, *right, i as int) == start + left_writes(
                *left,
                *right,
                0,
            ),
        decreases left.write_scope@.len() - i,
    {
        let ghost so_far = said(reasons@);
        let a: &ScopePath = &left.write_scope[i];
        say_write_write(reasons, a, &right.write_scope);
        say_write_read(
            reasons,
            left.task_id.as_str(),
            a,
            right.task_id.as_str(),
            &right.read_scope,
        );
        i += 1;
        assert(said(reasons@) + left_writes(*left, *right, i as int) =~= so_far + left_writes(
            *left,
            *right,
            i - 1,
        ));
    }
    let ghost middle = said(reasons@);
    assert(middle + left_writes(*left, *right, i as int) =~= middle);
    let mut i: usize = 0;
    while i < right.write_scope.len()
        invariant
            i <= right.write_scope@.len(),
            said(reasons@) + right_writes(*left, *right, i as int) == middle + right_writes(
                *left,
                *right,
                0,
            ),
        decreases right.write_scope@.len() - i,
    {
        let ghost so_far = said(reasons@);
        say_write_read(
            reasons,
            right.task_id.as_str(),
            &right.write_scope[i],
            left.task_id.as_str(),
            &left.read_scope,
        );
        i += 1;
        assert(said(reasons@) + right_writes(*left, *right, i as int) =~= so_far + right_writes(
            *left,
            *right,
            i - 1,
        ));
    }
    assert(said(reasons@) + right_writes(*left, *right, i as int) =~= said(reasons@));
    assert(said(reasons@) =~= start + overlaps(*left, *right));
}

// ---------------------------------------------------------------------------
// Semantic evidence
// ---------------------------------------------------------------------------

/// Something that a change would affect.
#[derive(Debug, PartialEq, Eq)]
pub struct ImpactItem {
    pub seed: String,
    pub entity: String,
    pub path: String,
}

/// The bounded impact of what a task works on: its first open boundary, what
/// was left out, and what would be affected.
#[derive(Debug, PartialEq, Eq)]
pub struct ImpactReport {
    pub boundary: Option<String>,
    pub items_omitted: u64,
    pub boundaries_omitted: u64,
    pub items: Vec<ImpactItem>,
}

/// The impact report of a task.
#[derive(Debug, PartialEq, Eq)]
pub struct TaskImpact {
    pub task_id: String,
    pub report: ImpactReport,
}

/// What the accepted ontology says of tasks.
#[derive(Debug, PartialEq, Eq)]
pub struct SemanticFacts {
    pub generation: Option<GraphGeneration>,
    /// The entities that the workspace still has.
    pub entities: Vec<String>,
    /// The reports that there are.
    pub impacts: Vec<TaskImpact>,
    /// What is said of a report that cannot be had.
    pub unreported: String,
}

/// The position of the impact report of a task, looked up from the `i`-th on.
pub open spec fn impact_at(list: Seq<TaskImpact>, id: Seq<char>, i: int) -> Option<int>
    decreases list.len() - i,
{
    if i < 0 || i >= list.len() {
        None
    } else if list[i].task_id@ == id {
        Some(i)
    } else {
        impact_at(list, id, i + 1)
    }
}

fn find_impact(list: &Vec<TaskImpact>, id: &str) -> (r: Option<usize>)
    ensures
        match r {
            Some(i) => i < list@.len() && impact_at(list@, id@, 0) == Some(i as int),
            None => impact_at(list@, id@, 0) is None,
        },
{
    let mut i: usize = 0;
    while i < list.len()
        invariant
            i <= list@.len(),
            impact_at(list@, id@, 0) == impact_at(list@, id@, i as int),
        decreases list@.len() - i,
    {
        if text::same(list[i].task_id.as_str(), id) {
            return Some(i);
        }
        i += 1;
    }
    None
}

/// Whether something affected concerns a task: one of its entities, or a path
/// in its scopes.
pub open spec fn concerns(entity: Seq<char>, path: Seq<char>, task: TaskPacket) -> bool {
    text::texts(task.graph_entities@).contains(entity) || scope::any_allows(task.read_scope@, path)
        || scope::any_allows(task.write_scope@, path)
}

fn is_concern(entity: &str, path: &str, task: &TaskPacket) -> (r: bool)
    ensures
        r == concerns(entity@, path@, *task),
{
    text::among(&task.graph_entities, entity) || scope::any_permits(&task.read_scope, path)
        || scope::any_permits(&task.write_scope, path)
}

/// The first affected item from the `i`-th on that concerns a task.
pub open spec fn first_concern(items: Seq<ImpactItem>, task: TaskPacket, i: int) -> Option<int>
    decreases items.len() - i,
{
    if i < 0 || i >= items.len() {
        None
    } else if concerns(items[i].entity@, items[i].path@, task) {
        Some(i)
    } else {
        first_concern(items, task, i + 1)
    }
}

fn find_concern(items: &Vec<ImpactItem>, task: &TaskPacket) -> (r: Option<usize>)
    ensures
        match r {
            Some(i) => i < items@.len() && first_concern(items@, *task, 0) == Some(i as int),
            None => first_concern(items@, *task, 0) is None,
        },
{
    let mut i: usize = 0;
    while i < items.len()
        invariant
            i <= items@.len(),
            first_concern(items@, *task, 0) == first_concern(items@, *task, i as int),
        decreases items@.len() - i,
    {
        if is_concern(items[i].entity.as_str(), items[i].path.as_str(), task) {
            return Some(i);
        }
        i += 1;
    }
    None
}

/// The first text from the `i`-th on that is, or is not, among others.
pub open spec fn first_among(list: Seq<Seq<char>>, others: Seq<Seq<char>>, wanted: bool, i: int) -> Option<
    Seq<char>,
>
    decreases list.len() - i,
{
    if i < 0 || i >= list.len() {
        None
    } else if others.contains(list[i]) == wanted {
        Some(list[i])
    } else {
        first_among(list, others, wanted, i + 1)
    }
}

fn find_among(list: &Vec<String>, others: &Vec<String>, wanted: bool) -> (r: Option<String>)
    ensures
        match r {
            Some(s) => first_among(text::in_order(text::texts(list@)), text::texts(others@), wanted, 0)
                == Some(s@),
            None => first_among(
                text::in_order(text::texts(list@)),
                text::texts(others@),
                wanted,
                0,
            ) is None,
        },
{
    let set: Vec<String> = text::set_of(list);
    proof {
        text::lemma_in_order(text::texts(set@), text::texts(list@));
    }
    let ghost all = text::texts(set@);
    let mut i: usize = 0;
    while i < set.len()
        invariant
            i <= set@.len(),
            all == text::texts(set@),
            all == text::in_order(text::texts(list@)),
            first_among(all, text::texts(others@), wanted, 0) == first_among(
                all,
                text::texts(others@),
                wanted,
                i as int,
            ),
        decreases set@.len() - i,
    {
        assert(all[i as int] == set@[i as int]@);
        if text::among(others, set[i].as_str()) == wanted {
            return Some(set[i].clone());
        }
        i += 1;
    }
    None
}

/// What the impact of one task says against running another one beside it.
pub open spec fn interference(source: TaskPacket, report: ImpactReport, other: TaskPacket) -> Option<(
    Compatibility,
    ReasonView,
)> {
    match report.boundary {
        Some(detail) => Some(
            (
                Compatibility::Unknown,
                ReasonView::SemanticBoundary { task: source.task_id@, detail: detail@ },
            ),
        ),
        None => if report.items_omitted > 0 || report.boundaries_omitted > 0 {
            Some(
                (
                    Compatibility::Unknown,
                    ReasonView::SemanticBoundary {
                        task: source.task_id@,
                        detail: "bounded impact evidence was truncated"@,
                    },
                ),
            )
        } else {
            match first_concern(report.items@, other, 0) {
                Some(i) => Some(
                    (
                        Compatibility::Conflict,
                        ReasonView::SemanticInterference {
                            source: report.items@[i].seed@,
                            affected: report.items@[i].entity@,
                            path: report.items@[i].path@,
                        },
                    ),
                ),
                None => None,
            }
        },
    }
}

fn interferes(source: &TaskPacket, report: &ImpactReport, other: &TaskPacket) -> (r: Option<(
    Compatibility,
    CompatibilityReason,
)>)
    ensures
        match r {
            Some(x) => interference(*source, *report, *other) == Some((x.0, x.1@)),
            None => interference(*source, *report, *other) is None,
        },
{
    if let Some(detail) = &report.boundary {
        return Some(
            (
                Compatibility::Unknown,
                CompatibilityReason::SemanticBoundary {
                    task: source.task_id.clone(),
                    detail: detail.clone(),
                },
            ),
        );
    }
    if report.items_omitted > 0 || report.boundaries_omitted > 0 {
        return Some(
            (
                Compatibility::Unknown,
                CompatibilityReason::SemanticBoundary {
                    task: source.task_id.clone(),
                    detail: "bounded impact evidence was truncated".to_owned(),
                },
            ),
        );
    }
    match find_concern(&report.items, other) {
        Some(i) => Some(
            (
                Compatibility::Conflict,
                CompatibilityReason::SemanticInterference {
                    source: report.items[i].seed.clone(),
                    affected: report.items[i].entity.clone(),
                    path: report.items[i].path.clone(),
                },
            ),
        ),
        None => None,
    }
}

/// Why an entity of a task can no longer be looked up, if so.
pub open spec fn entities_refusal(task: TaskPacket, known: Seq<Seq<char>>) -> Option<Seq<char>> {
    match first_among(text::in_order(text::texts(task.graph_entities@)), known, false, 0) {
        Some(id) => Some("task graph entity "@ + id + " disappeared"@),
        None => None,
    }
}

fn entities_known(task: &TaskPacket, known: &Vec<String>) -> (r: Result<(), Error>)
    ensures
        crate::error::settles(r, entities_refusal(*task, text::texts(known@))),
{
    match find_among(&task.graph_entities, known, false) {
        Some(id) => {
            let m: String = text::join3("task graph entity ", id.as_str(), " disappeared");
            invalid(m.as_str())
        },
        None => Ok(()),
    }
}

// ---------------------------------------------------------------------------
// Decisions
// ---------------------------------------------------------------------------

/// A decision and the reasons for it.
pub struct DecisionView {
    pub decision: Compatibility,
    pub reasons: Seq<ReasonView>,
}

/// Whether a plan was prepared in the checkout at hand.
pub open spec fn at_home(plan: ExecutionPlan, info: RepositoryInfo) -> bool {
    plan.metadata.source.observation.repository_id@ == info.repository_id@
        && plan.metadata.source.observation.workspace_id@ == info.workspace_id@
}

/// The dependencies that keep two tasks apart.
pub open spec fn dag_reasons(tasks: Seq<TaskPacket>, left: Seq<char>, right: Seq<char>) -> Seq<
    ReasonView,
> {
    (if depends(tasks, right, left) {
        seq![ReasonView::DagDependency { predecessor: left, successor: right }]
    } else {
        Seq::empty()
    }) + (if depends(tasks, left, right) {
        seq![ReasonView::DagDependency { predecessor: right, successor: left }]
    } else {
        Seq::empty()
    })
}

/// The decision that declared dependencies, scopes and entities make by
/// themselves, if they make one.
pub open spec fn declared(plan: ExecutionPlan, info: RepositoryInfo, left: TaskPacket, right: TaskPacket) -> Option<
    DecisionView,
> {
    let dag = dag_reasons(plan.packet.tasks@, left.task_id@, right.task_id@);
    let crossed = overlaps(left, right);
    let disjoint = seq![ReasonView::DisjointDeclaredScopes];
    if !at_home(plan, info) {
        Some(
            DecisionView {
                decision: Compatibility::SourceIncompatible,
                reasons: seq![
                    ReasonView::DifferentSource {
                        left: plan.metadata.source.observation.workspace_id@,
                        right: info.workspace_id@,
                    },
                ],
            },
        )
    } else if dag.len() > 0 {
        Some(DecisionView { decision: Compatibility::DependencyBlocked, reasons: dag })
    } else if crossed.len() > 0 {
        Some(DecisionView { decision: Compatibility::Conflict, reasons: crossed })
    } else if left.graph_entities@.len() == 0 || right.graph_entities@.len() == 0 {
        Some(
            DecisionView {
                decision: Compatibility::Unknown,
                reasons: disjoint.push(
                    ReasonView::MissingSemanticAuthority {
                        task: if left.graph_entities@.len() == 0 {
                            left.task_id@
                        } else {
                            right.task_id@
                        },
                    },
                ),
            },
        )
    } else {
        match first_among(
            text::in_order(text::texts(left.graph_entities@)),
            text::texts(right.graph_entities@),
            true,
            0,
        ) {
            Some(entity) => Some(
                DecisionView {
                    decision: Compatibility::Conflict,
                    reasons: disjoint.push(ReasonView::SharedEntity { entity }),
                },
            ),
            None => None,
        }
    }
}

fn decided(left: &TaskPacket, right: &TaskPacket, decision: Compatibility, reasons: Vec<CompatibilityReason>) -> (r:
    CompatibilityDecision)
    ensures
        r.left == left.task_id,
        r.right == right.task_id,
        r.decision == decision,
        r.reasons == reasons,
{
    CompatibilityDecision {
        left: left.task_id.clone(),
        right: right.task_id.clone(),
        decision,
        reasons,
    }
}

/// Whether a decision on two tasks is exactly this.
pub open spec fn decision_is(d: CompatibilityDecision, left: TaskPacket, right: TaskPacket, v: DecisionView) -> bool {
    &&& d.left == left.task_id
    &&& d.right == right.task_id
    &&& d.decision == v.decision
    &&& said(d.reasons@) == v.reasons
}

fn decide_declared(plan: &ExecutionPlan, info: &RepositoryInfo, left: &TaskPacket, right: &TaskPacket) -> (r:
    Option<CompatibilityDecision>)
    ensures
        match r {
            Some(d) => declared(*plan, *info, *left, *right) matches Some(v) && decision_is(
                d,
                *left,
                *right,
                v,
            ),
            None => declared(*plan, *info, *left, *right) is None,
        },
{
    let mut reasons: Vec<CompatibilityReason> = Vec::new();
    assert(said(reasons@) =~= Seq::<ReasonView>::empty());
    let seen: &crate::repository::RepositorySourceState = &plan.metadata.source.observation;
    if !(text::same(seen.repository_id.as_str(), info.repository_id.as_str()) && text::same(
        seen.workspace_id.as_str(),
        info.workspace_id.as_str(),
    )) {
        say(
            &mut reasons,
            CompatibilityReason::DifferentSource {
                left: seen.workspace_id.as_str().to_owned(),
                right: info.workspace_id.as_str().to_owned(),
            },
        );
        assert(said(reasons@) =~= seq![
            ReasonView::DifferentSource {
                left: seen.workspace_id@,
                right: info.workspace_id@,
            },
        ]);
        return Some(decided(left, right, Compatibility::SourceIncompatible, reasons));
    }
    let tasks: &Vec<TaskPacket> = &plan.packet.tasks;
    if reaches(tasks, left.task_id.as_str(), right.task_id.as_str()) {
        say(
            &mut reasons,
            CompatibilityReason::DagDependency {
                predecessor: left.task_id.clone(),
                successor: right.task_id.clone(),
            },
        );
    }
    if reaches(tasks, right.task_id.as_str(), left.task_id.as_str()) {
        say(
            &mut reasons,
            CompatibilityReason::DagDependency {
                predecessor: right.task_id.clone(),
                successor: left.task_id.clone(),
            },
        );
    }
    assert(said(reasons@) =~= dag_reasons(tasks@, left.task_id@, right.task_id@));
    assert(said(reasons@).len() == reasons@.len());
    if reasons.len() > 0 {
        return Some(decided(left, right, Compatibility::DependencyBlocked, reasons));
    }
    say_overlaps(&mut reasons, left, right);
    assert(said(reasons@) =~= overlaps(*left, *right));
    assert(said(reasons@).len() == reasons@.len());
    if reasons.len() > 0 {
        return Some(decided(left, right, Compatibility::Conflict, reasons));
    }
    say(&mut reasons, CompatibilityReason::DisjointDeclaredScopes);
    assert(said(reasons@) =~= seq![ReasonView::DisjointDeclaredScopes]);
    if left.graph_entities.len() == 0 || right.graph_entities.len() == 0 {
        let task: String = if left.graph_entities.len() == 0 {
            left.task_id.clone()
        } else {
            right.task_id.clone()
        };
        say(&mut reasons, CompatibilityReason::MissingSemanticAuthority { task });
        return Some(decided(left, right, Compatibility::Unknown, reasons));
    }
    match find_among(&left.graph_entities, &right.graph_entities, true) {
        Some(entity) => {
            say(&mut reasons, CompatibilityReason::SharedEntity { entity });
            Some(decided(left, right, Compatibility::Conflict, reasons))
        },
        None => None,
    }
}

/// The report on a task.
pub open spec fn report_of(facts: SemanticFacts, task: TaskPacket) -> ImpactReport {
    facts.impacts@[impact_at(facts.impacts@, task.task_id@, 0)->0].report
}

/// Why two tasks cannot be decided on, if so.
pub open spec fn decide_refusal(
    plan: ExecutionPlan,
    info: RepositoryInfo,
    left: TaskPacket,
    right: TaskPacket,
    facts: SemanticFacts,
) -> Option<Seq<char>> {
    let known = text::texts(facts.entities@);
    if declared(plan, info, left, right) is Some {
        None
    } else if facts.generation is None {
        Some("concurrency requires an accepted ontology"@)
    } else {
        crate::error::either(
            entities_refusal(left, known),
            if impact_at(facts.impacts@, left.task_id@, 0) is None {
                Some(facts.unreported@)
            } else if interference(left, report_of(facts, left), right) is Some {
                None
            } else {
                crate::error::either(
                    entities_refusal(right, known),
                    if impact_at(facts.impacts@, right.task_id@, 0) is None {
                        Some(facts.unreported@)
                    } else {
                        None
                    },
                )
            },
        )
    }
}

/// The decision on two tasks: what is declared decides first, and only accepted
/// ontology evidence in both directions makes them compatible.
pub open spec fn decision_of(
    plan: ExecutionPlan,
    info: RepositoryInfo,
    left: TaskPacket,
    right: TaskPacket,
    facts: SemanticFacts,
) -> DecisionView {
    let disjoint = seq![ReasonView::DisjointDeclaredScopes];
    match declared(plan, info, left, right) {
        Some(v) => v,
        None => match interference(left, report_of(facts, left), right) {
            Some(x) => DecisionView { decision: x.0, reasons: disjoint.push(x.1) },
            None => match interference(right, report_of(facts, right), left) {
                Some(x) => DecisionView { decision: x.0, reasons: disjoint.push(x.1) },
                None => DecisionView {
                    decision: Compatibility::Compatible,
                    reasons: disjoint.push(
                        ReasonView::OntologyProvesNoInterference {
                            generation: facts.generation->0,
                        },
                    ),
                },
            },
        },
    }
}

/// Decides whether two tasks may be issued from the same source baseline.
pub fn decide(
    plan: &ExecutionPlan,
    info: &RepositoryInfo,
    left: &TaskPacket,
    right: &TaskPacket,
    facts: &SemanticFacts,
) -> (r: Result<CompatibilityDecision, Error>)
    ensures
        crate::error::settles(r, decide_refusal(*plan, *info, *left, *right, *facts)),
        r matches Ok(d) ==> decision_is(
            d,
            *left,
            *right,
            decision_of(*plan, *info, *left, *right, *facts),
        ),
{
    if let Some(d) = decide_declared(plan, info, left, right) {
        return Ok(d);
    }
    let generation: GraphGeneration = match &facts.generation {
        Some(g) => g.clone(),
        None => return invalid("concurrency requires an accepted ontology"),
    };
    let mut reasons: Vec<CompatibilityReason> = Vec::new();
    say(&mut reasons, CompatibilityReason::DisjointDeclaredScopes);
    assert(said(reasons@) =~= seq![ReasonView::DisjointDeclaredScopes]);
    match entities_known(left, &facts.entities) {
        Ok(()) => {},
        Err(e) => return Err(e),
    }
    let k: usize = match find_impact(&facts.impacts, left.task_id.as_str()) {
        Some(k) => k,
        None => return invalid(facts.unreported.as_str()),
    };
    if let Some((decision, reason)) = interferes(left, &facts.impacts[k].report, right) {
        say(&mut reasons, reason);
        return Ok(decided(left, right, decision, reasons));
    }
    match entities_known(right, &facts.entities) {
        Ok(()) => {},
        Err(e) => return Err(e),
    }
    let n: usize = match find_impact(&facts.impacts, right.task_id.as_str()) {
        Some(n) => n,
        None => return invalid(facts.unreported.as_str()),
    };
    if let Some((decision, reason)) = interferes(right, &facts.impacts[n].report, left) {
        say(&mut reasons, reason);
        return Ok(decided(left, right, decision, reasons));
    }
    say(&mut reasons, CompatibilityReason::OntologyProvesNoInterference { generation });
    Ok(decided(left, right, Compatibility::Compatible, reasons))
}

proof fn lemma_no_write_write(a: ScopePath, writes: Seq<ScopePath>, from: int, j: int)
    requires
        0 <= from <= j < writes.len(),
        write_write(a, writes, from).len() == 0,
    ensures
        !scope::meet(a, writes[j]),
    decreases j - from,
{
    if from < j {
        lemma_no_write_write(a, writes, from + 1, j);
    }
}

proof fn lemma_no_write_read(
    writer: Seq<char>,
    a: ScopePath,
    reader: Seq<char>,
    reads: Seq<ScopePath>,
    from: int,
    j: int,
)
    requires
        0 <= from <= j < reads.len(),
        write_read(writer, a, reader, reads, from).len() == 0,
    ensures
        !scope::meet(a, reads[j]),
    decreases j - from,
{
    if from < j {
        lemma_no_write_read(writer, a, reader, reads, from + 1, j);
    }
}

proof fn lemma_no_left_writes(left: TaskPacket, right: TaskPacket, from: int, i: int)
    requires
        0 <= from <= i < left.write_scope@.len(),
        left_writes(left, right, from).len() == 0,
    ensures
        write_write(left.write_scope@[i], right.write_scope@, 0).len() == 0,
        write_read(
            left.task_id@,
            left.write_scope@[i],
            right.task_id@,
            right.read_scope@,
            0,
        ).len() == 0,
    decreases i - from,
{
    if from < i {
        lemma_no_left_writes(left, right, from + 1, i);
    }
}

proof fn lemma_no_right_writes(left: TaskPacket, right: TaskPacket, from: int, j: int)
    requires
        0 <= from <= j < right.write_scope@.len(),
        right_writes(left, right, from).len() == 0,
    ensures
        write_read(
            right.task_id@,
            right.write_scope@[j],
            left.task_id@,
            left.read_scope@,
            0,
        ).len() == 0,
    decreases j - from,
{
    if from < j {
        lemma_no_right_writes(left, right, from + 1, j);
    }
}

/// Compatible tasks neither depend on each other nor write where the other one
/// writes or reads, and the ontology shows no effect of the one on the other.
pub proof fn law_compatible_tasks_are_independent(
    plan: ExecutionPlan,
    info: RepositoryInfo,
    left: TaskPacket,
    right: TaskPacket,
    facts: SemanticFacts,
)
    requires
        decide_refusal(plan, info, left, right, facts) is None,
        decision_of(plan, info, left, right, facts).decision == Compatibility::Compatible,
    ensures
        at_home(plan, info),
        !depends(plan.packet.tasks@, left.task_id@, right.task_id@),
        !depends(plan.packet.tasks@, right.task_id@, left.task_id@),
        forall|i: int, j: int|
            0 <= i < left.write_scope@.len() && 0 <= j < right.write_scope@.len()
                ==> !scope::meet(#[trigger] left.write_scope@[i], #[trigger] right.write_scope@[j]),
        forall|i: int, k: int|
            0 <= i < left.write_scope@.len() && 0 <= k < right.read_scope@.len()
                ==> !scope::meet(#[trigger] left.write_scope@[i], #[trigger] right.read_scope@[k]),
        forall|j: int, k: int|
            0 <= j < right.write_scope@.len() && 0 <= k < left.read_scope@.len()
                ==> !scope::meet(#[trigger] right.write_scope@[j], #[trigger] left.read_scope@[k]),
        interference(left, report_of(facts, left), right) is None,
        interference(right, report_of(facts, right), left) is None,
        facts.generation is Some,
{
    assert(declared(plan, info, left, right) is None);
    assert(dag_reasons(plan.packet.tasks@, left.task_id@, right.task_id@).len() == 0);
    assert(overlaps(left, right).len() == 0);
    assert forall|i: int, j: int|
        0 <= i < left.write_scope@.len() && 0 <= j < right.write_scope@.len() implies !scope::meet(
        #[trigger] left.write_scope@[i],
        #[trigger] right.write_scope@[j],
    ) by {
        lemma_no_left_writes(left, right, 0, i);
        lemma_no_write_write(left.write_scope@[i], right.write_scope@, 0, j);
    }
    assert forall|i: int, k: int|
        0 <= i < left.write_scope@.len() && 0 <= k < right.read_scope@.len() implies !scope::meet(
        #[trigger] left.write_scope@[i],
        #[trigger] right.read_scope@[k],
    ) by {
        lemma_no_left_writes(left, right, 0, i);
        lemma_no_write_read(
            left.task_id@,
            left.write_scope@[i],
            right.task_id@,
            right.read_scope@,
            0,
            k,
        );
    }
    assert forall|j: int, k: int|
        0 <= j < right.write_scope@.len() && 0 <= k < left.read_scope@.len() implies !scope::meet(
        #[trigger] right.write_scope@[j],
        #[trigger] left.read_scope@[k],
    ) by {
        lemma_no_right_writes(left, right, 0, j);
        lemma_no_write_read(
            right.task_id@,
            right.write_scope@[j],
            left.task_id@,
            left.read_scope@,
            0,
            k,
        );
    }
}

proof fn lemma_no_concern(items: Seq<ImpactItem>, task: TaskPacket, i: int, n: int)
    requires
        0 <= i <= n < items.len(),
        first_concern(items, task, i) is None,
    ensures
        forall|e: int|
            0 <= e < task.graph_entities@.len() ==> (#[trigger] task.graph_entities@[e])@
                != items[n].entity@,
        forall|r: int|
            0 <= r < task.read_scope@.len() ==> !scope::allows(
                #[trigger] task.read_scope@[r],
                items[n].path@,
            ),
        forall|w: int|
            0 <= w < task.write_scope@.len() ==> !scope::allows(
                #[trigger] task.write_scope@[w],
                items[n].path@,
            ),
    decreases n - i,
{
    if i < n {
        lemma_no_concern(items, task, i + 1, n);
    } else {
        let entities = text::texts(task.graph_entities@);
        assert forall|e: int| 0 <= e < task.graph_entities@.len() implies (
        #[trigger] task.graph_entities@[e])@ != items[n].entity@ by {
            assert(entities[e] == task.graph_entities@[e]@);
        }
    }
}

proof fn lemma_impact_found(list: Seq<TaskImpact>, id: Seq<char>, i: int)
    requires
        0 <= i,
    ensures
        match impact_at(list, id, i) {
            Some(k) => i <= k < list.len() && list[k].task_id@ == id && forall|j: int|
                i <= j < k ==> (#[trigger] list[j]).task_id@ != id,
            None => forall|j: int| i <= j < list.len() ==> (#[trigger] list[j]).task_id@ != id,
        },
    decreases list.len() - i,
{
    if i < list.len() {
        lemma_impact_found(list, id, i + 1);
    }
}

proof fn lemma_first_among(
    list: Seq<Seq<char>>,
    others: Seq<Seq<char>>,
    wanted: bool,
    i: int,
    k: int,
)
    requires
        0 <= i <= k < list.len(),
        first_among(list, others, wanted, i) is None,
    ensures
        others.contains(list[k]) != wanted,
    decreases k - i,
{
    if i < k {
        lemma_first_among(list, others, wanted, i + 1, k);
    }
}

proof fn lemma_no_among(list: Seq<String>, others: Seq<String>, wanted: bool, e: int)
    requires
        0 <= e < list.len(),
        first_among(text::in_order(text::texts(list)), text::texts(others), wanted, 0) is None,
    ensures
        wanted ==> forall|f: int|
            0 <= f < others.len() ==> (#[trigger] others[f])@ != list[e]@,
        !wanted ==> exists|f: int| 0 <= f < others.len() && (#[trigger] others[f])@ == list[e]@,
{
    let all = text::texts(list);
    let set = text::in_order(all);
    text::law_texts_can_be_ordered(all);
    assert(all[e] == list[e]@);
    assert(set.contains(list[e]@));
    let k = choose|k: int| 0 <= k < set.len() && set[k] == list[e]@;
    lemma_first_among(set, text::texts(others), wanted, 0, k);
    if wanted {
        assert forall|f: int| 0 <= f < others.len() implies (#[trigger] others[f])@ != list[e]@ by {
            assert(text::texts(others)[f] == others[f]@);
        }
    } else {
        let f = choose|f: int|
            0 <= f < text::texts(others).len() && text::texts(others)[f] == list[e]@;
        assert(others[f]@ == list[e]@);
    }
}

/// Nothing that a change of one of two compatible tasks affects is of the other one's
/// concern. The first impact report on a task, the `k`-th one, is complete and ends
/// at no open boundary; and no item of it is an entity of the other task, or lies
/// where the other one reads or writes.
pub proof fn law_compatible_tasks_do_not_affect_each_other(
    plan: ExecutionPlan,
    info: RepositoryInfo,
    left: TaskPacket,
    right: TaskPacket,
    facts: SemanticFacts,
    k: int,
)
    requires
        decide_refusal(plan, info, left, right, facts) is None,
        decision_of(plan, info, left, right, facts).decision == Compatibility::Compatible,
        0 <= k < facts.impacts@.len(),
        forall|j: int|
            0 <= j < k ==> (#[trigger] facts.impacts@[j]).task_id@ != facts.impacts@[k].task_id@,
    ensures
        facts.impacts@[k].task_id@ == left.task_id@ || facts.impacts@[k].task_id@ == right.task_id@
            ==> {
            let report = facts.impacts@[k].report;
            let other = if facts.impacts@[k].task_id@ == left.task_id@ {
                right
            } else {
                left
            };
            &&& report.boundary is None
            &&& report.items_omitted == 0
            &&& report.boundaries_omitted == 0
            &&& forall|n: int, e: int|
                0 <= n < report.items@.len() && 0 <= e < other.graph_entities@.len() ==> (
                #[trigger] report.items@[n]).entity@ != (#[trigger] other.graph_entities@[e])@
            &&& forall|n: int, r: int|
                0 <= n < report.items@.len() && 0 <= r < other.read_scope@.len()
                    ==> !scope::allows(
                    #[trigger] other.read_scope@[r],
                    (#[trigger] report.items@[n]).path@,
                )
            &&& forall|n: int, w: int|
                0 <= n < report.items@.len() && 0 <= w < other.write_scope@.len()
                    ==> !scope::allows(
                    #[trigger] other.write_scope@[w],
                    (#[trigger] report.items@[n]).path@,
                )
        },
{
    lemma_impact_found(facts.impacts@, left.task_id@, 0);
    lemma_impact_found(facts.impacts@, right.task_id@, 0);
    let report = facts.impacts@[k].report;
    if facts.impacts@[k].task_id@ == left.task_id@ {
        assert(impact_at(facts.impacts@, left.task_id@, 0) == Some(k));
        lemma_no_concerns(report.items@, right);
    } else if facts.impacts@[k].task_id@ == right.task_id@ {
        assert(impact_at(facts.impacts@, right.task_id@, 0) == Some(k));
        lemma_no_concerns(report.items@, left);
    }
}

proof fn lemma_no_concerns(items: Seq<ImpactItem>, other: TaskPacket)
    requires
        first_concern(items, other, 0) is None,
    ensures
        forall|n: int, e: int|
            0 <= n < items.len() && 0 <= e < other.graph_entities@.len() ==> (
            #[trigger] items[n]).entity@ != (#[trigger] other.graph_entities@[e])@,
        forall|n: int, r: int|
            0 <= n < items.len() && 0 <= r < other.read_scope@.len() ==> !scope::allows(
                #[trigger] other.read_scope@[r],
                (#[trigger] items[n]).path@,
            ),
        forall|n: int, w: int|
            0 <= n < items.len() && 0 <= w < other.write_scope@.len() ==> !scope::allows(
                #[trigger] other.write_scope@[w],
                (#[trigger] items[n]).path@,
            ),
{
    assert forall|n: int, e: int|
        0 <= n < items.len() && 0 <= e < other.graph_entities@.len() implies (
    #[trigger] items[n]).entity@ != (#[trigger] other.graph_entities@[e])@ by {
        lemma_no_concern(items, other, 0, n);
    }
    assert forall|n: int, r: int|
        0 <= n < items.len() && 0 <= r < other.read_scope@.len() implies !scope::allows(
        #[trigger] other.read_scope@[r],
        (#[trigger] items[n]).path@,
    ) by {
        lemma_no_concern(items, other, 0, n);
    }
    assert forall|n: int, w: int|
        0 <= n < items.len() && 0 <= w < other.write_scope@.len() implies !scope::allows(
        #[trigger] other.write_scope@[w],
        (#[trigger] items[n]).path@,
    ) by {
        lemma_no_concern(items, other, 0, n);
    }
}

/// Compatible tasks are both known to the ontology, and by different entities: each
/// has entities, all of which there are, and shares none with the other. Each has an
/// impact report.
pub proof fn law_compatible_tasks_are_known_apart(
    plan: ExecutionPlan,
    info: RepositoryInfo,
    left: TaskPacket,
    right: TaskPacket,
    facts: SemanticFacts,
)
    requires
        decide_refusal(plan, info, left, right, facts) is None,
        decision_of(plan, info, left, right, facts).decision == Compatibility::Compatible,
    ensures
        left.graph_entities@.len() > 0,
        right.graph_entities@.len() > 0,
        forall|e: int, f: int|
            0 <= e < left.graph_entities@.len() && 0 <= f < right.graph_entities@.len() ==> (
            #[trigger] left.graph_entities@[e])@ != (#[trigger] right.graph_entities@[f])@,
        forall|e: int|
            0 <= e < left.graph_entities@.len() ==> exists|n: int|
                0 <= n < facts.entities@.len() && (#[trigger] facts.entities@[n])@ == (
                #[trigger] left.graph_entities@[e])@,
        forall|e: int|
            0 <= e < right.graph_entities@.len() ==> exists|n: int|
                0 <= n < facts.entities@.len() && (#[trigger] facts.entities@[n])@ == (
                #[trigger] right.graph_entities@[e])@,
        exists|k: int|
            0 <= k < facts.impacts@.len() && (#[trigger] facts.impacts@[k]).task_id@
                == left.task_id@,
        exists|k: int|
            0 <= k < facts.impacts@.len() && (#[trigger] facts.impacts@[k]).task_id@
                == right.task_id@,
{
    assert(declared(plan, info, left, right) is None);
    lemma_impact_found(facts.impacts@, left.task_id@, 0);
    lemma_impact_found(facts.impacts@, right.task_id@, 0);
    assert forall|e: int, f: int|
        0 <= e < left.graph_entities@.len() && 0 <= f < right.graph_entities@.len() implies (
    #[trigger] left.graph_entities@[e])@ != (#[trigger] right.graph_entities@[f])@ by {
        lemma_no_among(left.graph_entities@, right.graph_entities@, true, e);
    }
    assert forall|e: int| 0 <= e < left.graph_entities@.len() implies exists|n: int|
        0 <= n < facts.entities@.len() && (#[trigger] facts.entities@[n])@ == (
        #[trigger] left.graph_entities@[e])@ by {
        lemma_no_among(left.graph_entities@, facts.entities@, false, e);
    }
    assert forall|e: int| 0 <= e < right.graph_entities@.len() implies exists|n: int|
        0 <= n < facts.entities@.len() && (#[trigger] facts.entities@[n])@ == (
        #[trigger] right.graph_entities@[e])@ by {
        lemma_no_among(right.graph_entities@, facts.entities@, false, e);
    }
}

// ---------------------------------------------------------------------------
// All pairs
// ---------------------------------------------------------------------------

/// The positions of the tasks that can be started, among the first `k`.
pub open spec fn ready_at(tasks: Seq<TaskInspection>, k: int) -> Seq<int>
    decreases k,
{
    if k <= 0 {
        Seq::empty()
    } else if tasks[k - 1].structurally_ready {
        ready_at(tasks, k - 1).push(k - 1)
    } else {
        ready_at(tasks, k - 1)
    }
}

pub fn find_ready(tasks: &Vec<TaskInspection>) -> (r: Vec<usize>)
    ensures
        r@.map_values(|i: usize| i as int) == ready_at(tasks@, tasks@.len() as int),
        forall|i: int| 0 <= i < r@.len() ==> (#[trigger] r@[i]) < tasks@.len(),
{
    let mut out: Vec<usize> = Vec::new();
    let mut k: usize = 0;
    while k < tasks.len()
        invariant
            k <= tasks@.len(),
            out@.map_values(|i: usize| i as int) == ready_at(tasks@, k as int),
            forall|i: int| 0 <= i < out@.len() ==> (#[trigger] out@[i]) < tasks@.len(),
        decreases tasks@.len() - k,
    {
        let ghost so_far = out@.map_values(|i: usize| i as int);
        if tasks[k].structurally_ready {
            out.push(k);
            assert(out@.map_values(|i: usize| i as int) =~= so_far.push(k as int));
        }
        k += 1;
    }
    out
}

/// One pair of tasks.
pub struct Pair {
    pub left: int,
    pub right: int,
}

/// The pairs of one position with later ones, from the `j`-th on.
pub open spec fn pairs_with(list: Seq<int>, i: int, j: int) -> Seq<Pair>
    decreases list.len() - j,
{
    if j < 0 || j >= list.len() {
        Seq::empty()
    } else {
        seq![Pair { left: list[i], right: list[j] }] + pairs_with(list, i, j + 1)
    }
}

/// All pairs of positions in order, from the `i`-th on.
pub open spec fn pairs(list: Seq<int>, i: int) -> Seq<Pair>
    decreases list.len() - i,
{
    if i < 0 || i >= list.len() {
        Seq::empty()
    } else {
        pairs_with(list, i, i + 1) + pairs(list, i + 1)
    }
}

/// Why the pairs from the `k`-th on cannot all be decided on.
pub open spec fn pairs_refusal(
    plan: ExecutionPlan,
    info: RepositoryInfo,
    tasks: Seq<TaskInspection>,
    list: Seq<Pair>,
    facts: SemanticFacts,
    k: int,
) -> Option<Seq<char>>
    decreases list.len() - k,
{
    if k < 0 || k >= list.len() {
        None
    } else {
        crate::error::either(
            decide_refusal(
                plan,
                info,
                tasks[list[k].left].packet,
                tasks[list[k].right].packet,
                facts,
            ),
            pairs_refusal(plan, info, tasks, list, facts, k + 1),
        )
    }
}

/// Whether decisions are those on the given pairs, in order.
pub open spec fn pairs_are(
    decisions: Seq<CompatibilityDecision>,
    plan: ExecutionPlan,
    info: RepositoryInfo,
    tasks: Seq<TaskInspection>,
    list: Seq<Pair>,
    facts: SemanticFacts,
) -> bool {
    &&& decisions.len() == list.len()
    &&& forall|k: int|
        0 <= k < decisions.len() ==> decision_is(
            #[trigger] decisions[k],
            tasks[list[k].left].packet,
            tasks[list[k].right].packet,
            decision_of(
                plan,
                info,
                tasks[list[k].left].packet,
                tasks[list[k].right].packet,
                facts,
            ),
        )
}

proof fn lemma_pairs_with(list: Seq<int>, i: int, j: int)
    requires
        0 <= j <= list.len(),
    ensures
        pairs_with(list, i, j).len() == list.len() - j,
        forall|k: int|
            0 <= k < list.len() - j ==> #[trigger] pairs_with(list, i, j)[k] == (Pair {
                left: list[i],
                right: list[j + k],
            }),
    decreases list.len() - j,
{
    if j < list.len() {
        lemma_pairs_with(list, i, j + 1);
        assert forall|k: int| 0 <= k < list.len() - j implies #[trigger] pairs_with(list, i, j)[k]
            == (Pair { left: list[i], right: list[j + k] }) by {
            if k > 0 {
                assert(pairs_with(list, i, j + 1)[k - 1] == (Pair {
                    left: list[i],
                    right: list[j + 1 + (k - 1)],
                }));
            }
        }
    }
}

proof fn lemma_pairs_split(list: Seq<int>, i: int)
    requires
        0 <= i <= list.len(),
    ensures
        pairs(list, 0).len() >= pairs(list, i).len(),
        pairs(list, 0).subrange(
            pairs(list, 0).len() - pairs(list, i).len(),
            pairs(list, 0).len() as int,
        ) == pairs(list, i),
    decreases i,
{
    let all = pairs(list, 0);
    if i == 0 {
        assert(all.subrange(0, all.len() as int) =~= all);
    } else {
        lemma_pairs_split(list, i - 1);
        let here = pairs(list, i - 1);
        let head = pairs_with(list, i - 1, i);
        assert(here == head + pairs(list, i));
        let from = all.len() - pairs(list, i).len();
        assert(all.subrange(from, all.len() as int) =~= pairs(list, i)) by {
            assert forall|k: int| 0 <= k < pairs(list, i).len() implies all[from + k] == pairs(
                list,
                i,
            )[k] by {
                let start = all.len() - here.len();
                assert(here[head.len() + k] == pairs(list, i)[k]);
                assert(all.subrange(start, all.len() as int)[head.len() + k] == here[head.len()
                    + k]);
            }
        }
    }
}

/// Decides on every pair of tasks that can be started.
pub fn decide_ready(
    plan: &ExecutionPlan,
    info: &RepositoryInfo,
    tasks: &Vec<TaskInspection>,
    facts: &SemanticFacts,
) -> (r: Result<Vec<CompatibilityDecision>, Error>)
    ensures
        crate::error::settles(
            r,
            pairs_refusal(
                *plan,
                *info,
                tasks@,
                pairs(ready_at(tasks@, tasks@.len() as int), 0),
                *facts,
                0,
            ),
        ),
        r matches Ok(v) ==> pairs_are(
            v@,
            *plan,
            *info,
            tasks@,
            pairs(ready_at(tasks@, tasks@.len() as int), 0),
            *facts,
        ),
{
    let ready: Vec<usize> = find_ready(tasks);
    let ghost list = ready_at(tasks@, tasks@.len() as int);
    let ghost all = pairs(list, 0);
    let mut out: Vec<CompatibilityDecision> = Vec::new();
    let mut i: usize = 0;
    while i < ready.len()
        invariant
            list == ready_at(tasks@, tasks@.len() as int),
            all == pairs(list, 0),
            ready@.map_values(|i: usize| i as int) == list,
            forall|n: int| 0 <= n < ready@.len() ==> (#[trigger] ready@[n]) < tasks@.len(),
            i <= ready@.len(),
            out@.len() == all.len() - pairs(list, i as int).len(),
            forall|k: int|
                0 <= k < out@.len() ==> decision_is(
                    #[trigger] out@[k],
                    tasks@[all[k].left].packet,
                    tasks@[all[k].right].packet,
                    decision_of(
                        *plan,
                        *info,
                        tasks@[all[k].left].packet,
                        tasks@[all[k].right].packet,
                        *facts,
                    ),
                ),
            pairs_refusal(*plan, *info, tasks@, all, *facts, 0) == pairs_refusal(
                *plan,
                *info,
                tasks@,
                all,
                *facts,
                out@.len() as int,
            ),
        decreases ready@.len() - i,
    {
        let ghost base = out@.len();
        assert(list[i as int] == ready@[i as int]);
        proof {
            lemma_pairs_with(list, i as int, i + 1);
            lemma_pairs_split(list, i as int);
            assert(list.len() == ready@.len());
        }
        let ghost row = pairs_with(list, i as int, i + 1);
        let ghost here = pairs(list, i as int);
        let mut j: usize = i + 1;
        while j < ready.len()
            invariant
                list == ready_at(tasks@, tasks@.len() as int),
                all == pairs(list, 0),
                ready@.map_values(|i: usize| i as int) == list,
                list.len() == ready@.len(),
                forall|n: int| 0 <= n < ready@.len() ==> (#[trigger] ready@[n]) < tasks@.len(),
                i < j <= ready@.len(),
                row == pairs_with(list, i as int, i + 1),
                here == pairs(list, i as int),
                here == row + pairs(list, i + 1),
                row.len() == ready@.len() - (i + 1),
                forall|k: int|
                    0 <= k < row.len() ==> #[trigger] row[k] == (Pair {
                        left: list[i as int],
                        right: list[i + 1 + k],
                    }),
                base == all.len() - here.len(),
                all.subrange(base as int, all.len() as int) == here,
                out@.len() == base + (j - (i + 1)),
                forall|k: int|
                    0 <= k < out@.len() ==> decision_is(
                        #[trigger] out@[k],
                        tasks@[all[k].left].packet,
                        tasks@[all[k].right].packet,
                        decision_of(
                            *plan,
                            *info,
                            tasks@[all[k].left].packet,
                            tasks@[all[k].right].packet,
                            *facts,
                        ),
                    ),
                pairs_refusal(*plan, *info, tasks@, all, *facts, 0) == pairs_refusal(
                    *plan,
                    *info,
                    tasks@,
                    all,
                    *facts,
                    out@.len() as int,
                ),
            decreases ready@.len() - j,
        {
            let ghost n = out@.len() as int;
            proof {
                assert(list[i as int] == ready@[i as int]);
                assert(list[j as int] == ready@[j as int]);
                let k = j - (i + 1);
                assert(row[k] == (Pair { left: list[i as int], right: list[i + 1 + k] }));
                assert(here[k] == row[k]);
                assert(all.subrange(base as int, all.len() as int)[k] == all[base + k]);
                assert(all[n] == (Pair { left: ready@[i as int] as int, right: ready@[j as int] as int }));
            }
            let left: &TaskPacket = &tasks[ready[i]].packet;
            let right: &TaskPacket = &tasks[ready[j]].packet;
            match decide(plan, info, left, right, facts) {
                Ok(d) => out.push(d),
                Err(e) => return Err(e),
            }
            j += 1;
        }
        i += 1;
    }
    Ok(out)
}

/// Why the compatibility of a plan's tasks cannot be told, if so.
pub open spec fn compatibility_refusal(
    records: Store,
    info: RepositoryInfo,
    plan_id: Seq<char>,
    guards: Seq<TaskGuard>,
) -> Option<Seq<char>> {
    lifecycle::tasks_refusal(records, info.workspace_id@, plan_id, guards)
}

impl Store {
    /// The decisions on every pair of tasks of a plan that can be started, in
    /// order of their identifiers.
    pub fn runtime_compatibility(
        &self,
        info: &RepositoryInfo,
        plan_id: &str,
        guards: &Vec<TaskGuard>,
        contract_bytes: &Vec<usize>,
        facts: &SemanticFacts,
    ) -> (r: Result<Vec<CompatibilityDecision>, Error>)
        requires
            store::plan_at(self.plans@, info.workspace_id@, plan_id@, 0) matches Some(k) ==> {
                let p = self.plans@[k].view.plan;
                &&& guards@.len() == p.packet.tasks@.len()
                &&& contract_bytes@.len() == p.metadata.contracts@.len()
            },
        ensures
            compatibility_refusal(*self, *info, plan_id@, guards@) matches Some(m)
                ==> crate::error::refused(r, m),
            compatibility_refusal(*self, *info, plan_id@, guards@) is None ==> {
                let p = self.plans@[store::plan_at(
                    self.plans@,
                    info.workspace_id@,
                    plan_id@,
                    0,
                )->0];
                let n = store::request_at(
                    self.requests@,
                    info.workspace_id@,
                    p.view.plan.metadata.request_id@,
                    0,
                )->0;
                exists|tasks: Seq<TaskInspection>|
                    {
                        &&& #[trigger] lifecycle::shows_all(
                            tasks,
                            p,
                            self.requests@[n].packet,
                            guards@,
                            contract_bytes@,
                        )
                        &&& crate::error::settles(
                            r,
                            pairs_refusal(
                                p.view.plan,
                                *info,
                                tasks,
                                pairs(ready_at(tasks, tasks.len() as int), 0),
                                *facts,
                                0,
                            ),
                        )
                        &&& r matches Ok(v) ==> pairs_are(
                            v@,
                            p.view.plan,
                            *info,
                            tasks,
                            pairs(ready_at(tasks, tasks.len() as int), 0),
                            *facts,
                        )
                    }
            },
    {
        let tasks: Vec<TaskInspection> = match self.execution_tasks(
            &info.workspace_id,
            plan_id,
            guards,
            contract_bytes,
        ) {
            Ok(v) => v,
            Err(e) => return Err(e),
        };
        match self.execution_plan(&info.workspace_id, plan_id) {
            Err(e) => Err(e),
            Ok(view) => {
                proof {
                    let k = store::plan_at(self.plans@, info.workspace_id@, plan_id@, 0)->0;
                    let p = self.plans@[k];
                    let n = store::request_at(
                        self.requests@,
                        info.workspace_id@,
                        p.view.plan.metadata.request_id@,
                        0,
                    )->0;
                    let prepared = self.requests@[n].packet;
                    assert(lifecycle::shows_all(tasks@, p, prepared, guards@, contract_bytes@));
                }
                decide_ready(&view.plan, info, &tasks, facts)
            },
        }
    }
}

// ---------------------------------------------------------------------------
// Semantic changes while a branch was out
// ---------------------------------------------------------------------------

/// A semantic change: what changed or is affected, and where.
#[derive(Debug, PartialEq, Eq)]
pub struct Touched {
    pub entity: String,
    pub path: String,
}

/// The impact of what was accepted since a branch was issued.
#[derive(Debug)]
pub struct SinceIssue {
    pub boundaries: usize,
    pub items_omitted: u64,
    pub boundaries_omitted: u64,
    pub seeds: Vec<Touched>,
    pub items: Vec<Touched>,
}

/// Whether something touched concerns a task.
pub open spec fn any_concern(list: Seq<Touched>, task: TaskPacket) -> bool {
    exists|i: int|
        0 <= i < list.len() && concerns((#[trigger] list[i]).entity@, list[i].path@, task)
}

fn has_concern(list: &Vec<Touched>, task: &TaskPacket) -> (r: bool)
    ensures
        r == any_concern(list@, *task),
{
    let mut i: usize = 0;
    while i < list.len()
        invariant
            i <= list@.len(),
            forall|j: int|
                0 <= j < i ==> !concerns((#[trigger] list@[j]).entity@, list@[j].path@, *task),
        decreases list@.len() - i,
    {
        if is_concern(list[i].entity.as_str(), list[i].path.as_str(), task) {
            assert(concerns(list@[i as int].entity@, list@[i as int].path@, *task));
            return true;
        }
        i += 1;
    }
    false
}

/// Why a branch cannot be brought back for semantic reasons, if any. Nothing is
/// asked where no new generation was accepted since it was issued.
pub open spec fn semantic_refusal(
    issued: Seq<char>,
    current: Seq<char>,
    since: SinceIssue,
    task: TaskPacket,
) -> Option<Seq<char>> {
    if issued == current {
        None
    } else if !(since.boundaries == 0 && since.items_omitted == 0 && since.boundaries_omitted == 0) {
        Some("UNKNOWN: semantic changes since branch issue have unresolved/truncated impact"@)
    } else if any_concern(since.seeds@, task) || any_concern(since.items@, task) {
        Some("SEMANTIC_INTERFERENCE: verified sibling changed a dependency of this branch"@)
    } else {
        None
    }
}

/// Checks a branch against the semantic changes accepted since it was issued.
pub fn revalidate_semantic(issued: &str, current: &str, since: &SinceIssue, task: &TaskPacket) -> (r: Result<
    (),
    Error,
>)
    ensures
        crate::error::settles(r, semantic_refusal(issued@, current@, *since, *task)),
{
    if text::same(issued, current) {
        return Ok(());
    }
    if !(since.boundaries == 0 && since.items_omitted == 0 && since.boundaries_omitted == 0) {
        return invalid(
            "UNKNOWN: semantic changes since branch issue have unresolved/truncated impact",
        );
    }
    if has_concern(&since.seeds, task) || has_concern(&since.items, task) {
        return invalid(
            "SEMANTIC_INTERFERENCE: verified sibling changed a dependency of this branch",
        );
    }
    Ok(())
}

} // verus!
