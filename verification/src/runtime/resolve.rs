//! Answers to context requests, from the ontology and captured source alone.
use crate::error::{invalid, Error};
use crate::excerpt;
use crate::graph::{Edge, Entity, GraphGeneration};
use crate::planning::plan;
use crate::planning::plan::find_entity;
use crate::planning::validation;
use crate::protocol::AgentRole;
use crate::runtime::context;
use crate::runtime::context::{
    Budget, CapturedFile, ContextDelta, ContextRequestItem, ContextResolution, DeltaItem,
    EntityFacts, Envelope, Grant, ItemOutcome, ItemResolution, MemoryLink, MemoryRecord, RelatedEntity, RelationDirection, RelationFact,
    SliceView, Snapshot, SourceText, TestItem, Verdict,
};
use crate::text;
use vstd::prelude::*;
use vstd::string::*;
use vstd::utf8::*;

verus! {

pub const RELATION_RESULTS: usize = 32;

pub const TEST_RESULTS: usize = 8;

pub const TEST_EXCERPT_BYTES: usize = 4096;

pub const TEST_EXCERPT_LINES: usize = 120;

pub const NEIGHBORHOOD_NODES: usize = 32;

pub const NAME_CANDIDATES: usize = 16;

pub const SHOWN_CANDIDATES: usize = 8;

pub const DELTA_DEFINITION_BYTES: usize = 8192;

pub const DELTA_DEFINITION_LINES: usize = 200;

pub const EDGE_SCAN: usize = 64;

/// A test that is associated with an entity, and on what basis.
#[derive(Debug, PartialEq, Eq)]
pub struct Association {
    pub subject: String,
    pub test: Entity,
    pub basis: String,
}

/// The accepted ontology: entities, resolved relations and associated tests, in
/// the order in which they are asked for.
#[derive(Debug, PartialEq, Eq)]
pub struct Ontology {
    pub generation: Option<GraphGeneration>,
    pub entities: Vec<Entity>,
    pub edges: Vec<Edge>,
    pub associations: Vec<Association>,
}

/// Whether line numbers of all entities fit the machine in a captured source.
pub open spec fn all_lines_fit(o: Ontology, source: Snapshot) -> bool {
    &&& forall|i: int|
        0 <= i < o.entities@.len() ==> context::lines_fit(#[trigger] o.entities@[i], source)
    &&& forall|i: int|
        0 <= i < o.associations@.len() ==> context::lines_fit(
            (#[trigger] o.associations@[i]).test,
            source,
        )
}

// ---------------------------------------------------------------------------
// Neighbors
// ---------------------------------------------------------------------------

/// An entity one resolved relation away.
#[derive(Debug, PartialEq, Eq)]
pub struct Neighbor {
    pub entity: Entity,
    pub edge: Edge,
}

/// Whether a relation leads to an entity, or away from it.
pub open spec fn touches(e: Edge, id: Seq<char>, incoming: bool) -> bool {
    if incoming {
        validation::is_text(e.target, id)
    } else {
        e.source@ == id
    }
}

/// The first relations of an entity in one direction, at most `limit` of them,
/// from the `i`-th on.
pub open spec fn scanned(edges: Seq<Edge>, id: Seq<char>, incoming: bool, limit: int, i: int) -> Seq<
    Edge,
>
    decreases edges.len() - i,
{
    if i < 0 || i >= edges.len() || limit <= 0 {
        Seq::empty()
    } else if touches(edges[i], id, incoming) {
        seq![edges[i]] + scanned(edges, id, incoming, limit - 1, i + 1)
    } else {
        scanned(edges, id, incoming, limit, i + 1)
    }
}

fn scan_edges(edges: &Vec<Edge>, id: &str, incoming: bool, limit: usize) -> (r: Vec<Edge>)
    ensures
        r@ == scanned(edges@, id@, incoming, limit as int, 0),
{
    let mut out: Vec<Edge> = Vec::new();
    let mut left: usize = limit;
    let mut i: usize = 0;
    while i < edges.len() && left > 0
        invariant
            i <= edges@.len(),
            out@ + scanned(edges@, id@, incoming, left as int, i as int) == scanned(
                edges@,
                id@,
                incoming,
                limit as int,
                0,
            ),
        decreases edges@.len() - i,
    {
        let ghost so_far = out@;
        let hit: bool = if incoming {
            validation::holds_text(&edges[i].target, id)
        } else {
            text::same(edges[i].source.as_str(), id)
        };
        if hit {
            out.push(edges[i].clone());
            left -= 1;
            assert(out@ + scanned(edges@, id@, incoming, left as int, i + 1) =~= so_far + (seq![
                edges@[i as int],
            ] + scanned(edges@, id@, incoming, left as int, i + 1)));
        }
        i += 1;
    }
    assert(out@ + scanned(edges@, id@, incoming, left as int, i as int) =~= out@);
    out
}

/// The far end of a relation, where it is resolved.
pub open spec fn far_end(e: Edge, incoming: bool) -> Option<Seq<char>> {
    if incoming {
        Some(e.source@)
    } else {
        validation::message(e.target)
    }
}

/// Whether none of the first `k` relations has this far end.
pub open spec fn unseen(list: Seq<Edge>, incoming: bool, other: Seq<char>, k: int) -> bool {
    forall|i: int| 0 <= i < k ==> far_end(#[trigger] list[i], incoming) != Some(other)
}

/// The neighbors that the first `k` relations lead to, each once, in order;
/// never the entity itself.
pub open spec fn found(
    list: Seq<Edge>,
    entities: Seq<Entity>,
    id: Seq<char>,
    incoming: bool,
    k: int,
) -> Seq<Neighbor>
    decreases k,
{
    if k <= 0 {
        Seq::empty()
    } else {
        let so_far = found(list, entities, id, incoming, k - 1);
        match far_end(list[k - 1], incoming) {
            None => so_far,
            Some(other) => if other == id || !unseen(list, incoming, other, k - 1) {
                so_far
            } else {
                match plan::entity_at(entities, other, 0) {
                    None => so_far,
                    Some(n) => so_far.push(Neighbor { entity: entities[n], edge: list[k - 1] }),
                }
            },
        }
    }
}

/// The resolved neighbors of an entity in one direction, at most `limit`
/// relations being looked at.
pub open spec fn neighbors_of(o: Ontology, id: Seq<char>, incoming: bool, limit: int) -> Seq<
    Neighbor,
> {
    let list = scanned(o.edges@, id, incoming, limit + 1, 0);
    found(
        list,
        o.entities@,
        id,
        incoming,
        if list.len() > limit {
            limit
        } else {
            list.len() as int
        },
    )
}

/// Whether an entity has more relations in one direction than are looked at.
pub open spec fn crowded(o: Ontology, id: Seq<char>, incoming: bool, limit: int) -> bool {
    scanned(o.edges@, id, incoming, limit + 1, 0).len() > limit
}

/// The resolved neighbors of an entity in one direction, in relation order and
/// each once, and whether there were more relations than were looked at.
pub fn neighbors(o: &Ontology, id: &str, incoming: bool, limit: usize) -> (r: (Vec<Neighbor>, bool))
    requires
        limit < usize::MAX,
    ensures
        r.0@ == neighbors_of(*o, id@, incoming, limit as int),
        r.1 == crowded(*o, id@, incoming, limit as int),
{
    let list: Vec<Edge> = scan_edges(&o.edges, id, incoming, limit + 1);
    let truncated: bool = list.len() > limit;
    let count: usize = if truncated {
        limit
    } else {
        list.len()
    };
    let mut seen: Vec<String> = Vec::new();
    let mut out: Vec<Neighbor> = Vec::new();
    let mut k: usize = 0;
    while k < count
        invariant
            k <= count <= list@.len(),
            forall|t: Seq<char>| #[trigger]
                text::texts(seen@).contains(t) <==> t != id@ && !unseen(
                    list@,
                    incoming,
                    t,
                    k as int,
                ),
            out@ == found(list@, o.entities@, id@, incoming, k as int),
        decreases count - k,
    {
        let edge: &Edge = &list[k];
        let other: Option<String> = if incoming {
            Some(edge.source.clone())
        } else {
            edge.target.clone()
        };
        let ghost before = text::texts(seen@);
        let ghost end = far_end(list@[k as int], incoming);
        match other {
            None => {
                assert forall|t: Seq<char>| #[trigger] before.contains(t) <==> t != id@ && !unseen(
                    list@,
                    incoming,
                    t,
                    k + 1,
                ) by {
                    assert(before.contains(t) <==> t != id@ && !unseen(list@, incoming, t, k as int));
                    assert(unseen(list@, incoming, t, k as int) <==> unseen(
                        list@,
                        incoming,
                        t,
                        k + 1,
                    ));
                }
            },
            Some(name) => {
                assert(end == Some(name@));
                let known: bool = text::among(&seen, name.as_str());
                let itself: bool = text::same(name.as_str(), id);
                if !itself && !known {
                    match find_entity(&o.entities, name.as_str()) {
                        Some(n) => {
                            out.push(
                                Neighbor { entity: o.entities[n].clone(), edge: edge.clone() },
                            );
                        },
                        None => {},
                    }
                    let ghost added = name@;
                    seen.push(name);
                    assert(text::texts(seen@) =~= before.push(added));
                }
                assert forall|t: Seq<char>| #[trigger] text::texts(seen@).contains(t) <==> t != id@
                    && !unseen(list@, incoming, t, k + 1) by {
                    assert(before.contains(t) <==> t != id@ && !unseen(list@, incoming, t, k as int));
                    assert(unseen(list@, incoming, t, k + 1) <==> unseen(
                        list@,
                        incoming,
                        t,
                        k as int,
                    ) && end != Some(t));
                    if !itself && !known {
                        text::lemma_push_contains(before, end->0, t);
                    }
                }
            },
        }
        k += 1;
    }
    (out, truncated)
}

// ---------------------------------------------------------------------------
// Answers
// ---------------------------------------------------------------------------

/// What an answer holds.
pub enum DeltaView {
    Symbol { entity: Entity, definition: SliceView },
    Relations {
        subject: Seq<char>,
        relation: RelationDirection,
        found: Seq<Neighbor>,
        truncated: bool,
    },
    Tests {
        subject: Seq<char>,
        tests: Seq<Association>,
        definitions: Seq<SliceView>,
        truncated: bool,
    },
    Neighborhood {
        subject: Seq<char>,
        depth: u8,
        entities: Seq<Entity>,
        relations: Seq<RelationFact>,
        truncated: bool,
    },
    FileRange {
        path: Seq<char>,
        hash: Seq<char>,
        start_line: int,
        end_line: int,
        bytes: Seq<u8>,
    },
    Memory { record: MemoryRecord },
}

/// Whether an answer holds exactly this.
pub open spec fn delta_is(item: DeltaItem, index: int, v: DeltaView) -> bool {
    match (item, v) {
        (
            DeltaItem::Symbol { request_index, entity, definition },
            DeltaView::Symbol { entity: e, definition: d },
        ) => request_index == index && context::facts_of(entity, e) && (definition matches Some(x)
            && context::slice_is(x, d)),
        (
            DeltaItem::Relations { request_index, subject, relation, entities, truncated },
            DeltaView::Relations { subject: s, relation: r, found: f, truncated: t },
        ) => request_index == index && subject@ == s && relation == r && truncated == t
            && entities@ == f.map_values(|n: Neighbor| context::relates(n.entity, n.edge)),
        (
            DeltaItem::Tests { request_index, subject, tests, truncated },
            DeltaView::Tests { subject: s, tests: list, definitions, truncated: t },
        ) => request_index == index && subject@ == s && truncated == t && tests_are(
            tests@,
            list,
            definitions,
        ),
        (
            DeltaItem::Neighborhood {
                request_index,
                subject,
                depth,
                entities,
                relations,
                truncated,
            },
            DeltaView::Neighborhood {
                subject: s,
                depth: d,
                entities: list,
                relations: facts,
                truncated: t,
            },
        ) => request_index == index && subject@ == s && depth == d && truncated == t && relations@
            == facts && entities@.len() == list.len() && forall|i: int|
            0 <= i < list.len() ==> context::facts_of(#[trigger] entities@[i], list[i]),
        (
            DeltaItem::FileRange { request_index, path, content_hash, start_line, end_line, text },
            DeltaView::FileRange { path: p, hash, start_line: from, end_line: to, bytes },
        ) => request_index == index && path@ == p && content_hash@ == hash && start_line == from
            && end_line == to && encode_utf8(text@) == bytes,
        (
            DeltaItem::Memory { request_index, memory },
            DeltaView::Memory { record },
        ) => request_index == index && context::issues(memory, record),
        _ => false,
    }
}

/// Whether test items show associated tests with their definitions.
pub open spec fn tests_are(items: Seq<TestItem>, list: Seq<Association>, definitions: Seq<SliceView>) -> bool {
    &&& items.len() == list.len()
    &&& definitions.len() == list.len()
    &&& forall|i: int|
        0 <= i < items.len() ==> context::facts_of((#[trigger] items[i]).entity, list[i].test)
            && items[i].basis == list[i].basis && (items[i].definition matches Some(x)
            && context::slice_is(x, definitions[i]))
}

/// What becomes of one request item.
pub struct AnswerView {
    pub outcome: ItemOutcome,
    pub paths: Seq<Seq<char>>,
    pub candidates: Seq<Seq<char>>,
    pub detail: Option<Seq<char>>,
    pub item: Option<DeltaView>,
}

/// A resolved request item and its answer, where there is one.
#[derive(Debug)]
pub struct Answer {
    pub resolution: ItemResolution,
    pub item: Option<DeltaItem>,
}

/// Whether an answer is exactly this.
pub open spec fn answer_is(a: Answer, index: int, v: AnswerView) -> bool {
    &&& a.resolution.index == index
    &&& a.resolution.outcome == v.outcome
    &&& a.resolution.bytes == 0
    &&& text::texts(a.resolution.paths@) == v.paths
    &&& text::texts(a.resolution.candidates@) == v.candidates
    &&& validation::message(a.resolution.detail) == v.detail
    &&& match (a.item, v.item) {
        (Some(x), Some(w)) => delta_is(x, index, w),
        (None, None) => true,
        _ => false,
    }
}

/// An item that could not be answered.
pub open spec fn unanswered(outcome: ItemOutcome, paths: Seq<Seq<char>>, detail: Seq<char>) -> AnswerView {
    AnswerView {
        outcome,
        paths,
        candidates: Seq::empty(),
        detail: Some(detail),
        item: None,
    }
}

fn unresolved(index: usize, outcome: ItemOutcome, paths: Vec<String>, detail: &str) -> (r: Answer)
    ensures
        answer_is(r, index as int, unanswered(outcome, text::texts(paths@), detail@)),
{
    let candidates: Vec<String> = Vec::new();
    assert(text::texts(candidates@) =~= Seq::<Seq<char>>::empty());
    Answer {
        resolution: ItemResolution {
            index,
            outcome,
            bytes: 0,
            paths,
            candidates,
            detail: Some(detail.to_owned()),
        },
        item: None,
    }
}

fn no_paths() -> (r: Vec<String>)
    ensures
        text::texts(r@) == Seq::<Seq<char>>::empty(),
{
    let v: Vec<String> = Vec::new();
    assert(text::texts(v@) =~= Seq::<Seq<char>>::empty());
    v
}

fn one_path(path: &String) -> (r: Vec<String>)
    ensures
        text::texts(r@) == seq![path@],
{
    let mut v: Vec<String> = Vec::new();
    v.push(path.clone());
    assert(text::texts(v@) =~= seq![path@]);
    v
}

/// The paths from the `i`-th on that lie outside an envelope.
pub open spec fn outside(env: Envelope, paths: Seq<Seq<char>>, i: int) -> Seq<Seq<char>>
    decreases paths.len() - i,
{
    if i < 0 || i >= paths.len() {
        Seq::empty()
    } else if env.reaches(paths[i]) {
        outside(env, paths, i + 1)
    } else {
        seq![paths[i]] + outside(env, paths, i + 1)
    }
}

/// An answer is granted if every path it touches lies inside the envelope;
/// else exactly the outside paths are reported.
pub open spec fn finished(env: Envelope, v: DeltaView, touched: Seq<Seq<char>>) -> AnswerView {
    let all = text::in_order(touched);
    let out = outside(env, all, 0);
    AnswerView {
        outcome: if out.len() == 0 {
            ItemOutcome::Granted
        } else {
            ItemOutcome::OutsideEnvelope
        },
        paths: if out.len() == 0 {
            all
        } else {
            out
        },
        candidates: Seq::empty(),
        detail: None,
        item: Some(v),
    }
}

fn finish(
    env: &Envelope,
    index: usize,
    item: DeltaItem,
    touched: &Vec<String>,
    Ghost(v): Ghost<DeltaView>,
) -> (r: Answer)
    requires
        delta_is(item, index as int, v),
    ensures
        answer_is(r, index as int, finished(*env, v, text::texts(touched@))),
{
    let all: Vec<String> = text::set_of(touched);
    proof {
        text::lemma_in_order(text::texts(all@), text::texts(touched@));
    }
    let ghost sorted = text::texts(all@);
    let mut out: Vec<String> = no_paths();
    let mut i: usize = 0;
    while i < all.len()
        invariant
            i <= all@.len(),
            sorted == text::texts(all@),
            text::texts(out@) + outside(*env, sorted, i as int) == outside(*env, sorted, 0),
        decreases all@.len() - i,
    {
        let ghost so_far = text::texts(out@);
        assert(sorted[i as int] == all@[i as int]@);
        if !env.permits(all[i].as_str()) {
            out.push(all[i].clone());
            assert(text::texts(out@) =~= so_far.push(sorted[i as int]));
            assert(text::texts(out@) + outside(*env, sorted, i + 1) =~= so_far + (seq![
                sorted[i as int],
            ] + outside(*env, sorted, i + 1)));
        }
        i += 1;
    }
    assert(text::texts(out@) + outside(*env, sorted, i as int) =~= text::texts(out@));
    assert(text::texts(out@).len() == out@.len());
    let inside: bool = out.len() == 0;
    Answer {
        resolution: ItemResolution {
            index,
            outcome: if inside {
                ItemOutcome::Granted
            } else {
                ItemOutcome::OutsideEnvelope
            },
            bytes: 0,
            paths: if inside {
                all
            } else {
                out
            },
            candidates: no_paths(),
            detail: None,
        },
        item: Some(item),
    }
}

// ---------------------------------------------------------------------------
// Definitions
// ---------------------------------------------------------------------------

/// What becomes of a request for an entity's definition.
pub open spec fn symbol_answer(source: Snapshot, env: Envelope, e: Entity) -> AnswerView {
    match context::definition_of(
        source,
        e,
        DELTA_DEFINITION_BYTES as int,
        DELTA_DEFINITION_LINES as int,
    ) {
        None => unanswered(
            ItemOutcome::Stale,
            seq![e.provenance.path@],
            "entity no longer matches captured source"@,
        ),
        Some(d) => finished(
            env,
            DeltaView::Symbol { entity: e, definition: d },
            seq![e.provenance.path@],
        ),
    }
}

fn symbol(source: &Snapshot, env: &Envelope, index: usize, e: &Entity) -> (r: Result<Answer, Error>)
    requires
        context::lines_fit(*e, *source),
    ensures
        crate::error::settles(r, context::definition_refusal(*source, *e)),
        r matches Ok(a) ==> answer_is(a, index as int, symbol_answer(*source, *env, *e)),
{
    let found: Option<SourceText> = match context::definition(
        source,
        e,
        DELTA_DEFINITION_BYTES,
        DELTA_DEFINITION_LINES,
    ) {
        Ok(x) => x,
        Err(error) => return Err(error),
    };
    let touched: Vec<String> = one_path(&e.provenance.path);
    if found.is_none() {
        return Ok(
            unresolved(
                index,
                ItemOutcome::Stale,
                touched,
                "entity no longer matches captured source",
            ),
        );
    }
    let ghost d = context::definition_of(
        *source,
        *e,
        DELTA_DEFINITION_BYTES as int,
        DELTA_DEFINITION_LINES as int,
    )->0;
    let item: DeltaItem = DeltaItem::Symbol {
        request_index: index,
        entity: EntityFacts::of(e),
        definition: found,
    };
    Ok(finish(env, index, item, &touched, Ghost(DeltaView::Symbol { entity: *e, definition: d })))
}

/// Whether an entity goes by a name.
pub open spec fn goes_by(e: Entity, name: Seq<char>) -> bool {
    e.id@ == name || e.name@ == name || e.qualified_name@ == name
}

/// The first entities that go by a name, at most `limit` of them, from the
/// `i`-th on.
pub open spec fn named(entities: Seq<Entity>, name: Seq<char>, limit: int, i: int) -> Seq<Entity>
    decreases entities.len() - i,
{
    if i < 0 || i >= entities.len() || limit <= 0 {
        Seq::empty()
    } else if goes_by(entities[i], name) {
        seq![entities[i]] + named(entities, name, limit - 1, i + 1)
    } else {
        named(entities, name, limit, i + 1)
    }
}

fn exact_matches(entities: &Vec<Entity>, name: &str, limit: usize) -> (r: Vec<Entity>)
    ensures
        r@ == named(entities@, name@, limit as int, 0),
{
    let mut out: Vec<Entity> = Vec::new();
    let mut left: usize = limit;
    let mut i: usize = 0;
    while i < entities.len() && left > 0
        invariant
            i <= entities@.len(),
            out@ + named(entities@, name@, left as int, i as int) == named(
                entities@,
                name@,
                limit as int,
                0,
            ),
        decreases entities@.len() - i,
    {
        let ghost so_far = out@;
        let e: &Entity = &entities[i];
        if text::same(e.id.as_str(), name) || text::same(e.name.as_str(), name) || text::same(
            e.qualified_name.as_str(),
            name,
        ) {
            out.push(e.clone());
            left -= 1;
            assert(out@ + named(entities@, name@, left as int, i + 1) =~= so_far + (seq![
                entities@[i as int],
            ] + named(entities@, name@, left as int, i + 1)));
        }
        i += 1;
    }
    assert(out@ + named(entities@, name@, left as int, i as int) =~= out@);
    out
}

proof fn lemma_named_fit(o: Ontology, source: Snapshot, name: Seq<char>, limit: int, i: int, j: int)
    requires
        all_lines_fit(o, source),
        0 <= i,
        0 <= j < named(o.entities@, name, limit, i).len(),
    ensures
        context::lines_fit(named(o.entities@, name, limit, i)[j], source),
    decreases o.entities@.len() - i,
{
    if i < o.entities@.len() && limit > 0 {
        if goes_by(o.entities@[i], name) {
            if j > 0 {
                lemma_named_fit(o, source, name, limit - 1, i + 1, j - 1);
            }
        } else {
            lemma_named_fit(o, source, name, limit, i + 1, j);
        }
    }
}

/// The identifiers of the entities from the `i`-th on that lie inside an
/// envelope, at most `limit` of them.
pub open spec fn reachable(env: Envelope, list: Seq<Entity>, limit: int, i: int) -> Seq<Seq<char>>
    decreases list.len() - i,
{
    if i < 0 || i >= list.len() || limit <= 0 {
        Seq::empty()
    } else if env.reaches(list[i].provenance.path@) {
        seq![list[i].id@] + reachable(env, list, limit - 1, i + 1)
    } else {
        reachable(env, list, limit, i + 1)
    }
}

fn reachable_ids(env: &Envelope, list: &Vec<Entity>, limit: usize) -> (r: Vec<String>)
    ensures
        text::texts(r@) == reachable(*env, list@, limit as int, 0),
{
    let mut out: Vec<String> = no_paths();
    let mut left: usize = limit;
    let mut i: usize = 0;
    while i < list.len() && left > 0
        invariant
            i <= list@.len(),
            text::texts(out@) + reachable(*env, list@, left as int, i as int) == reachable(
                *env,
                list@,
                limit as int,
                0,
            ),
        decreases list@.len() - i,
    {
        let ghost so_far = text::texts(out@);
        if env.permits(list[i].provenance.path.as_str()) {
            out.push(list[i].id.clone());
            left -= 1;
            assert(text::texts(out@) =~= so_far.push(list@[i as int].id@));
            assert(text::texts(out@) + reachable(*env, list@, left as int, i + 1) =~= so_far + (
            seq![list@[i as int].id@] + reachable(*env, list@, left as int, i + 1)));
        }
        i += 1;
    }
    assert(text::texts(out@) + reachable(*env, list@, left as int, i as int) =~= text::texts(out@));
    out
}

/// What becomes of a request for a definition by name.
pub open spec fn name_answer(o: Ontology, source: Snapshot, env: Envelope, name: Seq<char>) -> AnswerView {
    let list = named(o.entities@, name, NAME_CANDIDATES as int, 0);
    if list.len() == 0 {
        unanswered(
            ItemOutcome::NotFound,
            Seq::empty(),
            "no exact name, qualified-name or ID match"@,
        )
    } else if list.len() == 1 {
        symbol_answer(source, env, list[0])
    } else {
        AnswerView {
            outcome: ItemOutcome::Ambiguous,
            paths: Seq::empty(),
            candidates: reachable(env, list, SHOWN_CANDIDATES as int, 0),
            detail: Some(
                text::digits(list.len()) + " exact matches; request one by entity_id"@,
            ),
            item: None,
        }
    }
}

fn by_name(o: &Ontology, source: &Snapshot, env: &Envelope, index: usize, name: &str) -> (r: Result<
    Answer,
    Error,
>)
    requires
        all_lines_fit(*o, *source),
    ensures
        crate::error::settles(r, name_refusal(*o, *source, name@)),
        r matches Ok(a) ==> answer_is(a, index as int, name_answer(*o, *source, *env, name@)),
{
    let list: Vec<Entity> = exact_matches(&o.entities, name, NAME_CANDIDATES);
    if list.len() == 0 {
        return Ok(
            unresolved(
                index,
                ItemOutcome::NotFound,
                no_paths(),
                "no exact name, qualified-name or ID match",
            ),
        );
    }
    if list.len() == 1 {
        proof {
            lemma_named_fit(*o, *source, name@, NAME_CANDIDATES as int, 0, 0);
        }
        return symbol(source, env, index, &list[0]);
    }
    let count: String = text::decimal(list.len() as u64);
    let detail: String = text::join2(count.as_str(), " exact matches; request one by entity_id");
    Ok(
        Answer {
            resolution: ItemResolution {
                index,
                outcome: ItemOutcome::Ambiguous,
                bytes: 0,
                paths: no_paths(),
                candidates: reachable_ids(env, &list, SHOWN_CANDIDATES),
                detail: Some(detail),
            },
            item: None,
        },
    )
}

/// Why a request by name cannot be answered at all, if so.
pub open spec fn name_refusal(o: Ontology, source: Snapshot, name: Seq<char>) -> Option<Seq<char>> {
    let list = named(o.entities@, name, NAME_CANDIDATES as int, 0);
    if list.len() == 1 {
        context::definition_refusal(source, list[0])
    } else {
        None
    }
}

// ---------------------------------------------------------------------------
// Relations and tests
// ---------------------------------------------------------------------------

/// The paths of some neighbors.
pub open spec fn neighbor_paths(list: Seq<Neighbor>) -> Seq<Seq<char>> {
    list.map_values(|n: Neighbor| n.entity.provenance.path@)
}

/// What becomes of a request for the callers or callees of an entity.
pub open spec fn relations_answer(o: Ontology, env: Envelope, e: Entity, relation: RelationDirection) -> AnswerView {
    let incoming = relation == RelationDirection::Callers;
    let list = neighbors_of(o, e.id@, incoming, RELATION_RESULTS as int);
    finished(
        env,
        DeltaView::Relations {
            subject: e.id@,
            relation,
            found: list,
            truncated: crowded(o, e.id@, incoming, RELATION_RESULTS as int),
        },
        seq![e.provenance.path@] + neighbor_paths(list),
    )
}

fn relations(o: &Ontology, env: &Envelope, index: usize, e: &Entity, relation: RelationDirection) -> (r:
    Answer)
    ensures
        answer_is(r, index as int, relations_answer(*o, *env, *e, relation)),
{
    let incoming: bool = relation == RelationDirection::Callers;
    let (list, truncated) = neighbors(o, e.id.as_str(), incoming, RELATION_RESULTS);
    let mut touched: Vec<String> = one_path(&e.provenance.path);
    let mut shown: Vec<RelatedEntity> = Vec::new();
    let ghost paths = neighbor_paths(list@);
    let mut i: usize = 0;
    while i < list.len()
        invariant
            i <= list@.len(),
            paths == neighbor_paths(list@),
            text::texts(touched@) == seq![e.provenance.path@] + paths.take(i as int),
            shown@ == list@.map_values(
                |n: Neighbor| context::relates(n.entity, n.edge),
            ).take(i as int),
        decreases list@.len() - i,
    {
        let ghost so_far = text::texts(touched@);
        touched.push(list[i].entity.provenance.path.clone());
        shown.push(context::related(&list[i].entity, &list[i].edge));
        proof {
            assert(text::texts(touched@) =~= so_far.push(paths[i as int]));
            assert(so_far.push(paths[i as int]) =~= seq![e.provenance.path@] + paths.take(i + 1));
            assert(shown@ =~= list@.map_values(
                |n: Neighbor| context::relates(n.entity, n.edge),
            ).take(i + 1));
        }
        i += 1;
    }
    proof {
        assert(paths.take(i as int) =~= paths);
        assert(shown@ =~= list@.map_values(|n: Neighbor| context::relates(n.entity, n.edge)));
    }
    let ghost v = DeltaView::Relations {
        subject: e.id@,
        relation,
        found: list@,
        truncated,
    };
    let item: DeltaItem = DeltaItem::Relations {
        request_index: index,
        subject: e.id.clone(),
        relation,
        entities: shown,
        truncated,
    };
    finish(env, index, item, &touched, Ghost(v))
}

/// The first tests associated with an entity, at most `limit` of them, from the
/// `i`-th association on.
pub open spec fn associated(list: Seq<Association>, id: Seq<char>, limit: int, i: int) -> Seq<
    Association,
>
    decreases list.len() - i,
{
    if i < 0 || i >= list.len() || limit <= 0 {
        Seq::empty()
    } else if list[i].subject@ == id {
        seq![list[i]] + associated(list, id, limit - 1, i + 1)
    } else {
        associated(list, id, limit, i + 1)
    }
}

fn associated_tests(list: &Vec<Association>, id: &str, limit: usize) -> (r: Vec<Association>)
    ensures
        r@ == associated(list@, id@, limit as int, 0),
{
    let mut out: Vec<Association> = Vec::new();
    let mut left: usize = limit;
    let mut i: usize = 0;
    while i < list.len() && left > 0
        invariant
            i <= list@.len(),
            out@ + associated(list@, id@, left as int, i as int) == associated(
                list@,
                id@,
                limit as int,
                0,
            ),
        decreases list@.len() - i,
    {
        let ghost so_far = out@;
        if text::same(list[i].subject.as_str(), id) {
            let copy: Association = Association {
                subject: list[i].subject.clone(),
                test: list[i].test.clone(),
                basis: list[i].basis.clone(),
            };
            assert(copy == list@[i as int]);
            out.push(copy);
            left -= 1;
            assert(out@ + associated(list@, id@, left as int, i + 1) =~= so_far + (seq![
                list@[i as int],
            ] + associated(list@, id@, left as int, i + 1)));
        }
        i += 1;
    }
    assert(out@ + associated(list@, id@, left as int, i as int) =~= out@);
    out
}

proof fn lemma_associated_fit(o: Ontology, source: Snapshot, id: Seq<char>, limit: int, i: int, j: int)
    requires
        all_lines_fit(o, source),
        0 <= i,
        0 <= j < associated(o.associations@, id, limit, i).len(),
    ensures
        context::lines_fit(associated(o.associations@, id, limit, i)[j].test, source),
    decreases o.associations@.len() - i,
{
    if i < o.associations@.len() && limit > 0 {
        if o.associations@[i].subject@ == id {
            if j > 0 {
                lemma_associated_fit(o, source, id, limit - 1, i + 1, j - 1);
            }
        } else {
            lemma_associated_fit(o, source, id, limit, i + 1, j);
        }
    }
}

/// The definition of a test.
pub open spec fn test_definition(source: Snapshot, e: Entity) -> Option<SliceView> {
    context::definition_of(source, e, TEST_EXCERPT_BYTES as int, TEST_EXCERPT_LINES as int)
}

/// The first test from the `i`-th on whose definition cannot be shown.
pub open spec fn first_unshown(source: Snapshot, tests: Seq<Association>, i: int) -> Option<int>
    decreases tests.len() - i,
{
    if i < 0 || i >= tests.len() {
        None
    } else if test_definition(source, tests[i].test) is None || context::definition_refusal(
        source,
        tests[i].test,
    ) is Some {
        Some(i)
    } else {
        first_unshown(source, tests, i + 1)
    }
}

/// The tests that a request for related tests is answered with.
pub open spec fn shown_tests(o: Ontology, e: Entity) -> Seq<Association> {
    let list = associated(o.associations@, e.id@, TEST_RESULTS + 1, 0);
    if list.len() > TEST_RESULTS {
        list.take(TEST_RESULTS as int)
    } else {
        list
    }
}

/// Why a request for related tests cannot be answered at all, if so.
pub open spec fn tests_refusal(o: Ontology, source: Snapshot, e: Entity) -> Option<Seq<char>> {
    let tests = shown_tests(o, e);
    match first_unshown(source, tests, 0) {
        None => None,
        Some(i) => context::definition_refusal(source, tests[i].test),
    }
}

/// What becomes of a request for the tests related to an entity.
pub open spec fn tests_answer(o: Ontology, source: Snapshot, env: Envelope, e: Entity) -> AnswerView {
    let tests = shown_tests(o, e);
    match first_unshown(source, tests, 0) {
        Some(i) => unanswered(
            ItemOutcome::Stale,
            seq![tests[i].test.provenance.path@],
            "related test no longer matches captured source"@,
        ),
        None => finished(
            env,
            DeltaView::Tests {
                subject: e.id@,
                tests,
                definitions: tests.map_values(
                    |a: Association| test_definition(source, a.test)->0,
                ),
                truncated: associated(o.associations@, e.id@, TEST_RESULTS + 1, 0).len()
                    > TEST_RESULTS,
            },
            seq![e.provenance.path@] + tests.map_values(
                |a: Association| a.test.provenance.path@,
            ),
        ),
    }
}

fn related_tests(o: &Ontology, source: &Snapshot, env: &Envelope, index: usize, e: &Entity) -> (r: Result<
    Answer,
    Error,
>)
    requires
        all_lines_fit(*o, *source),
    ensures
        crate::error::settles(r, tests_refusal(*o, *source, *e)),
        r matches Ok(a) ==> answer_is(a, index as int, tests_answer(*o, *source, *env, *e)),
{
    let mut list: Vec<Association> = associated_tests(
        &o.associations,
        e.id.as_str(),
        TEST_RESULTS + 1,
    );
    let truncated: bool = list.len() > TEST_RESULTS;
    proof {
        assert forall|j: int| 0 <= j < list@.len() implies context::lines_fit(
            (#[trigger] list@[j]).test,
            *source,
        ) by {
            lemma_associated_fit(*o, *source, e.id@, TEST_RESULTS + 1, 0, j);
        }
    }
    if truncated {
        list.truncate(TEST_RESULTS);
    }
    let ghost tests = shown_tests(*o, *e);
    assert(list@ =~= tests);
    let ghost paths = tests.map_values(|a: Association| a.test.provenance.path@);
    let ghost definitions = tests.map_values(
        |a: Association| test_definition(*source, a.test)->0,
    );
    let mut touched: Vec<String> = one_path(&e.provenance.path);
    let mut items: Vec<TestItem> = Vec::new();
    let mut i: usize = 0;
    while i < list.len()
        invariant
            list@ == tests,
            tests == shown_tests(*o, *e),
            paths == tests.map_values(|a: Association| a.test.provenance.path@),
            definitions == tests.map_values(
                |a: Association| test_definition(*source, a.test)->0,
            ),
            forall|j: int|
                0 <= j < list@.len() ==> context::lines_fit((#[trigger] list@[j]).test, *source),
            i <= list@.len(),
            first_unshown(*source, tests, 0) == first_unshown(*source, tests, i as int),
            text::texts(touched@) == seq![e.provenance.path@] + paths.take(i as int),
            tests_are(items@, tests.take(i as int), definitions.take(i as int)),
        decreases list@.len() - i,
    {
        let test: &Entity = &list[i].test;
        let shown: Option<SourceText> = match context::definition(
            source,
            test,
            TEST_EXCERPT_BYTES,
            TEST_EXCERPT_LINES,
        ) {
            Ok(x) => x,
            Err(error) => return Err(error),
        };
        if shown.is_none() {
            return Ok(
                unresolved(
                    index,
                    ItemOutcome::Stale,
                    one_path(&test.provenance.path),
                    "related test no longer matches captured source",
                ),
            );
        }
        let ghost so_far = text::texts(touched@);
        touched.push(test.provenance.path.clone());
        let item: TestItem = TestItem {
            entity: EntityFacts::of(test),
            basis: list[i].basis.clone(),
            definition: shown,
        };
        let ghost before = items@;
        items.push(item);
        proof {
            assert(text::texts(touched@) =~= so_far.push(paths[i as int]));
            assert(so_far.push(paths[i as int]) =~= seq![e.provenance.path@] + paths.take(i + 1));
            assert forall|j: int| 0 <= j < items@.len() implies context::facts_of(
                (#[trigger] items@[j]).entity,
                tests.take(i + 1)[j].test,
            ) && items@[j].basis == tests.take(i + 1)[j].basis && (items@[j].definition matches Some(
                x,
            ) && context::slice_is(x, definitions.take(i + 1)[j])) by {
                if j < i {
                    assert(items@[j] == before[j]);
                    assert(tests.take(i + 1)[j] == tests.take(i as int)[j]);
                    assert(definitions.take(i + 1)[j] == definitions.take(i as int)[j]);
                }
            }
        }
        i += 1;
    }
    proof {
        assert(paths.take(i as int) =~= paths);
        assert(tests.take(i as int) =~= tests);
        assert(definitions.take(i as int) =~= definitions);
    }
    let ghost v = DeltaView::Tests { subject: e.id@, tests, definitions, truncated };
    let item: DeltaItem = DeltaItem::Tests {
        request_index: index,
        subject: e.id.clone(),
        tests: items,
        truncated,
    };
    Ok(finish(env, index, item, &touched, Ghost(v)))
}

// ---------------------------------------------------------------------------
// Neighborhoods
// ---------------------------------------------------------------------------

/// A relation under its identifier.
#[derive(Debug, PartialEq, Eq)]
pub struct Linked {
    pub edge_id: String,
    pub fact: RelationFact,
}

/// A neighborhood as it grows: its entities in the order in which they were
/// met, the relations between them, the entities met last, and whether anything
/// was left out.
#[derive(Debug)]
pub struct Web {
    pub order: Vec<Entity>,
    pub links: Vec<Linked>,
    pub next: Vec<String>,
    pub truncated: bool,
}

/// A neighborhood as it grows.
#[verifier::ext_equal]
pub struct WebView {
    pub order: Seq<Entity>,
    pub links: Seq<Linked>,
    pub next: Seq<String>,
    pub truncated: bool,
}

impl View for Web {
    type V = WebView;

    open spec fn view(&self) -> WebView {
        WebView {
            order: self.order@,
            links: self.links@,
            next: self.next@,
            truncated: self.truncated,
        }
    }
}

/// Whether an entity was met.
pub open spec fn met(order: Seq<Entity>, id: Seq<char>) -> bool {
    exists|i: int| 0 <= i < order.len() && (#[trigger] order[i]).id@ == id
}

fn is_met(order: &Vec<Entity>, id: &str) -> (r: bool)
    ensures
        r == met(order@, id@),
{
    let mut i: usize = 0;
    while i < order.len()
        invariant
            i <= order@.len(),
            forall|j: int| 0 <= j < i ==> (#[trigger] order@[j]).id@ != id@,
        decreases order@.len() - i,
    {
        if text::same(order[i].id.as_str(), id) {
            return true;
        }
        i += 1;
    }
    false
}

/// The relation that a neighbor of an entity was met by.
pub open spec fn link_of(id: String, incoming: bool, n: Neighbor) -> Linked {
    Linked {
        edge_id: n.edge.id,
        fact: RelationFact {
            source: if incoming {
                n.entity.id
            } else {
                id
            },
            target: if incoming {
                id
            } else {
                n.entity.id
            },
            kind: n.edge.kind,
            resolution: n.edge.resolution,
        },
    }
}

/// A neighborhood after one more neighbor of an entity: a new one joins while
/// there is room.
pub open spec fn joined(w: WebView, id: String, incoming: bool, n: Neighbor) -> WebView {
    if met(w.order, n.entity.id@) {
        WebView { links: w.links.push(link_of(id, incoming, n)), ..w }
    } else if w.order.len() >= NEIGHBORHOOD_NODES {
        WebView { truncated: true, ..w }
    } else {
        WebView {
            order: w.order.push(n.entity),
            links: w.links.push(link_of(id, incoming, n)),
            next: w.next.push(n.entity.id),
            truncated: w.truncated,
        }
    }
}

/// A neighborhood after the first `k` neighbors of an entity.
pub open spec fn joined_all(w: WebView, id: String, incoming: bool, list: Seq<Neighbor>, k: int) -> WebView
    decreases k,
{
    if k <= 0 {
        w
    } else {
        joined(joined_all(w, id, incoming, list, k - 1), id, incoming, list[k - 1])
    }
}

/// A neighborhood after all neighbors of an entity in one direction.
pub open spec fn swept(w: WebView, o: Ontology, id: String, incoming: bool) -> WebView {
    let list = neighbors_of(o, id@, incoming, EDGE_SCAN as int);
    joined_all(
        WebView { truncated: w.truncated || crowded(o, id@, incoming, EDGE_SCAN as int), ..w },
        id,
        incoming,
        list,
        list.len() as int,
    )
}

/// A neighborhood after both directions of the first `k` of some entities.
pub open spec fn visited(w: WebView, o: Ontology, frontier: Seq<String>, k: int) -> WebView
    decreases k,
{
    if k <= 0 {
        w
    } else {
        swept(
            swept(visited(w, o, frontier, k - 1), o, frontier[k - 1], true),
            o,
            frontier[k - 1],
            false,
        )
    }
}

/// A neighborhood after so many more levels.
pub open spec fn levels(w: WebView, o: Ontology, depth: int) -> WebView
    decreases depth,
{
    if depth <= 0 {
        w
    } else {
        levels(
            visited(
                WebView { next: Seq::empty(), ..w },
                o,
                w.next,
                w.next.len() as int,
            ),
            o,
            depth - 1,
        )
    }
}

fn join(w: &mut Web, id: &String, incoming: bool, n: &Neighbor)
    ensures
        final(w)@ == joined(old(w)@, *id, incoming, *n),
{
    let known: bool = is_met(&w.order, n.entity.id.as_str());
    if !known {
        if w.order.len() >= NEIGHBORHOOD_NODES {
            w.truncated = true;
            assert(w@ =~= joined(old(w)@, *id, incoming, *n));
            return ;
        }
        w.order.push(n.entity.clone());
        w.next.push(n.entity.id.clone());
    }
    let fact: RelationFact = RelationFact {
        source: if incoming {
            n.entity.id.clone()
        } else {
            id.clone()
        },
        target: if incoming {
            id.clone()
        } else {
            n.entity.id.clone()
        },
        kind: n.edge.kind.clone(),
        resolution: n.edge.resolution.clone(),
    };
    w.links.push(Linked { edge_id: n.edge.id.clone(), fact });
    assert(w@ =~= joined(old(w)@, *id, incoming, *n));
}

fn sweep(w: &mut Web, o: &Ontology, id: &String, incoming: bool)
    ensures
        final(w)@ == swept(old(w)@, *o, *id, incoming),
{
    let (list, cut) = neighbors(o, id.as_str(), incoming, EDGE_SCAN);
    w.truncated = w.truncated || cut;
    let ghost start = w@;
    assert(start =~= WebView {
        truncated: old(w)@.truncated || crowded(*o, id@, incoming, EDGE_SCAN as int),
        ..old(w)@
    });
    let mut k: usize = 0;
    while k < list.len()
        invariant
            k <= list@.len(),
            w@ == joined_all(start, *id, incoming, list@, k as int),
        decreases list@.len() - k,
    {
        join(w, id, incoming, &list[k]);
        k += 1;
    }
}

fn grow(w: &mut Web, o: &Ontology, depth: u8)
    ensures
        final(w)@ == levels(old(w)@, *o, depth as int),
{
    let mut left: u8 = depth;
    while left > 0
        invariant
            levels(old(w)@, *o, depth as int) == levels(w@, *o, left as int),
        decreases left,
    {
        let ghost before = w@;
        let frontier: Vec<String> = text::copied(&w.next);
        w.next = Vec::new();
        let ghost start = w@;
        assert(start =~= WebView { next: Seq::empty(), ..before });
        let mut k: usize = 0;
        while k < frontier.len()
            invariant
                k <= frontier@.len(),
                w@ == visited(start, *o, frontier@, k as int),
            decreases frontier@.len() - k,
        {
            sweep(w, o, &frontier[k], true);
            sweep(w, o, &frontier[k], false);
            k += 1;
        }
        left -= 1;
    }
}

/// The identifiers of some links.
pub open spec fn link_ids(links: Seq<Linked>) -> Seq<Seq<char>> {
    links.map_values(|l: Linked| l.edge_id@)
}

/// The last of the first `k` facts under an identifier.
pub open spec fn last_fact(links: Seq<Linked>, id: Seq<char>, k: int) -> Option<RelationFact>
    decreases k,
{
    if k <= 0 {
        None
    } else if links[k - 1].edge_id@ == id {
        Some(links[k - 1].fact)
    } else {
        last_fact(links, id, k - 1)
    }
}

/// The facts of some links, each identifier once and in order.
pub open spec fn ordered_facts(links: Seq<Linked>) -> Seq<RelationFact> {
    text::in_order(link_ids(links)).map_values(
        |id: Seq<char>| last_fact(links, id, links.len() as int)->0,
    )
}

fn copy_fact(f: &RelationFact) -> (r: RelationFact)
    ensures
        r == *f,
{
    RelationFact {
        source: f.source.clone(),
        target: f.target.clone(),
        kind: f.kind.clone(),
        resolution: f.resolution.clone(),
    }
}

fn find_fact(links: &Vec<Linked>, id: &str) -> (r: Option<RelationFact>)
    ensures
        r == last_fact(links@, id@, links@.len() as int),
        link_ids(links@).contains(id@) ==> r is Some,
{
    let mut i: usize = links.len();
    while i > 0
        invariant
            i <= links@.len(),
            last_fact(links@, id@, links@.len() as int) == last_fact(links@, id@, i as int),
            forall|j: int| i <= j < links@.len() ==> (#[trigger] links@[j]).edge_id@ != id@,
        decreases i,
    {
        i -= 1;
        if text::same(links[i].edge_id.as_str(), id) {
            return Some(copy_fact(&links[i].fact));
        }
    }
    proof {
        if link_ids(links@).contains(id@) {
            let j = choose|j: int|
                0 <= j < link_ids(links@).len() && link_ids(links@)[j] == id@;
            assert(links@[j].edge_id@ == id@);
        }
    }
    None
}

fn order_facts(links: &Vec<Linked>) -> (r: Vec<RelationFact>)
    ensures
        r@ == ordered_facts(links@),
{
    let mut names: Vec<String> = Vec::new();
    let mut i: usize = 0;
    while i < links.len()
        invariant
            i <= links@.len(),
            names@.len() == i,
            forall|j: int| 0 <= j < i ==> (#[trigger] names@[j])@ == links@[j].edge_id@,
        decreases links@.len() - i,
    {
        names.push(links[i].edge_id.clone());
        i += 1;
    }
    assert(text::texts(names@) =~= link_ids(links@));
    let set: Vec<String> = text::set_of(&names);
    proof {
        text::lemma_in_order(text::texts(set@), link_ids(links@));
    }
    let ghost ids = text::texts(set@);
    let mut out: Vec<RelationFact> = Vec::new();
    let mut i: usize = 0;
    while i < set.len()
        invariant
            i <= set@.len(),
            ids == text::texts(set@),
            forall|t: Seq<char>| #[trigger] ids.contains(t) <==> link_ids(links@).contains(t),
            out@.len() == i,
            forall|j: int|
                0 <= j < i ==> #[trigger] out@[j] == last_fact(
                    links@,
                    ids[j],
                    links@.len() as int,
                )->0,
        decreases set@.len() - i,
    {
        assert(ids[i as int] == set@[i as int]@);
        assert(ids.contains(ids[i as int]));
        out.push(find_fact(links, set[i].as_str()).unwrap());
        i += 1;
    }
    assert(out@ =~= ordered_facts(links@));
    out
}

/// The neighborhood of an entity up to a depth.
pub open spec fn web_of(o: Ontology, e: Entity, depth: int) -> WebView {
    levels(
        WebView {
            order: seq![e],
            links: Seq::empty(),
            next: seq![e.id],
            truncated: false,
        },
        o,
        depth,
    )
}

/// What becomes of a request for the neighborhood of an entity.
pub open spec fn neighborhood_answer(o: Ontology, env: Envelope, e: Entity, depth: u8) -> AnswerView {
    let w = web_of(o, e, depth as int);
    finished(
        env,
        DeltaView::Neighborhood {
            subject: e.id@,
            depth,
            entities: w.order,
            relations: ordered_facts(w.links),
            truncated: w.truncated,
        },
        w.order.map_values(|n: Entity| n.provenance.path@),
    )
}

fn neighborhood(o: &Ontology, env: &Envelope, index: usize, e: &Entity, depth: u8) -> (r: Answer)
    ensures
        answer_is(r, index as int, neighborhood_answer(*o, *env, *e, depth)),
{
    let mut w: Web = Web {
        order: Vec::new(),
        links: Vec::new(),
        next: Vec::new(),
        truncated: false,
    };
    w.order.push(e.clone());
    w.next.push(e.id.clone());
    assert(w@ =~= WebView {
        order: seq![*e],
        links: Seq::empty(),
        next: seq![e.id],
        truncated: false,
    });
    grow(&mut w, o, depth);
    let ghost web = w@;
    let ghost paths = web.order.map_values(|n: Entity| n.provenance.path@);
    let mut touched: Vec<String> = no_paths();
    let mut shown: Vec<EntityFacts> = Vec::new();
    let mut i: usize = 0;
    while i < w.order.len()
        invariant
            w@ == web,
            paths == web.order.map_values(|n: Entity| n.provenance.path@),
            i <= w.order@.len(),
            text::texts(touched@) == paths.take(i as int),
            shown@.len() == i,
            forall|j: int|
                0 <= j < i ==> context::facts_of(#[trigger] shown@[j], web.order[j]),
        decreases w.order@.len() - i,
    {
        let ghost so_far = text::texts(touched@);
        touched.push(w.order[i].provenance.path.clone());
        shown.push(EntityFacts::of(&w.order[i]));
        proof {
            assert(text::texts(touched@) =~= so_far.push(paths[i as int]));
            assert(so_far.push(paths[i as int]) =~= paths.take(i + 1));
        }
        i += 1;
    }
    assert(paths.take(i as int) =~= paths);
    let truncated: bool = w.truncated;
    let facts: Vec<RelationFact> = order_facts(&w.links);
    let ghost v = DeltaView::Neighborhood {
        subject: e.id@,
        depth,
        entities: web.order,
        relations: facts@,
        truncated,
    };
    let item: DeltaItem = DeltaItem::Neighborhood {
        request_index: index,
        subject: e.id.clone(),
        depth,
        entities: shown,
        relations: facts,
        truncated,
    };
    finish(env, index, item, &touched, Ghost(v))
}

/// Whether both ends of every relation of a neighborhood, and what was met
/// last, were met.
pub open spec fn closed(w: WebView) -> bool {
    &&& w.order.len() <= NEIGHBORHOOD_NODES
    &&& forall|i: int|
        0 <= i < w.links.len() ==> met(w.order, (#[trigger] w.links[i]).fact.source@) && met(
            w.order,
            w.links[i].fact.target@,
        )
    &&& forall|i: int| 0 <= i < w.next.len() ==> met(w.order, (#[trigger] w.next[i])@)
}

proof fn lemma_met_grows(a: Seq<Entity>, b: Seq<Entity>, id: Seq<char>)
    requires
        a.len() <= b.len(),
        forall|i: int| 0 <= i < a.len() ==> #[trigger] b[i] == a[i],
        met(a, id),
    ensures
        met(b, id),
{
    let i = choose|i: int| 0 <= i < a.len() && (#[trigger] a[i]).id@ == id;
    assert(b[i].id@ == id);
}

proof fn lemma_join_closed(w: WebView, id: String, incoming: bool, n: Neighbor)
    requires
        closed(w),
        met(w.order, id@),
    ensures
        closed(joined(w, id, incoming, n)),
        w.order.len() <= joined(w, id, incoming, n).order.len(),
        forall|i: int|
            0 <= i < w.order.len() ==> #[trigger] joined(w, id, incoming, n).order[i] == w.order[i],
{
    let v = joined(w, id, incoming, n);
    if !met(w.order, n.entity.id@) && w.order.len() < NEIGHBORHOOD_NODES {
        assert(v.order[w.order.len() as int].id@ == n.entity.id@);
    }
    assert forall|i: int| 0 <= i < v.links.len() implies met(
        v.order,
        (#[trigger] v.links[i]).fact.source@,
    ) && met(v.order, v.links[i].fact.target@) by {
        if i < w.links.len() {
            assert(v.links[i] == w.links[i]);
            lemma_met_grows(w.order, v.order, w.links[i].fact.source@);
            lemma_met_grows(w.order, v.order, w.links[i].fact.target@);
        } else {
            lemma_met_grows(w.order, v.order, id@);
        }
    }
    assert forall|i: int| 0 <= i < v.next.len() implies met(v.order, (#[trigger] v.next[i])@) by {
        if i < w.next.len() {
            assert(v.next[i] == w.next[i]);
            lemma_met_grows(w.order, v.order, w.next[i]@);
        }
    }
}

proof fn lemma_join_all_closed(w: WebView, id: String, incoming: bool, list: Seq<Neighbor>, k: int)
    requires
        closed(w),
        met(w.order, id@),
        0 <= k <= list.len(),
    ensures
        closed(joined_all(w, id, incoming, list, k)),
        w.order.len() <= joined_all(w, id, incoming, list, k).order.len(),
        forall|i: int|
            0 <= i < w.order.len() ==> #[trigger] joined_all(w, id, incoming, list, k).order[i]
                == w.order[i],
    decreases k,
{
    if k > 0 {
        lemma_join_all_closed(w, id, incoming, list, k - 1);
        let v = joined_all(w, id, incoming, list, k - 1);
        lemma_met_grows(w.order, v.order, id@);
        lemma_join_closed(v, id, incoming, list[k - 1]);
    }
}

proof fn lemma_sweep_closed(w: WebView, o: Ontology, id: String, incoming: bool)
    requires
        closed(w),
        met(w.order, id@),
    ensures
        closed(swept(w, o, id, incoming)),
        w.order.len() <= swept(w, o, id, incoming).order.len(),
        forall|i: int|
            0 <= i < w.order.len() ==> #[trigger] swept(w, o, id, incoming).order[i] == w.order[i],
{
    let list = neighbors_of(o, id@, incoming, EDGE_SCAN as int);
    let v = WebView {
        truncated: w.truncated || crowded(o, id@, incoming, EDGE_SCAN as int),
        ..w
    };
    assert(closed(v));
    lemma_join_all_closed(v, id, incoming, list, list.len() as int);
}

proof fn lemma_visit_closed(w: WebView, o: Ontology, frontier: Seq<String>, k: int)
    requires
        closed(w),
        0 <= k <= frontier.len(),
        forall|i: int| 0 <= i < frontier.len() ==> met(w.order, (#[trigger] frontier[i])@),
    ensures
        closed(visited(w, o, frontier, k)),
        w.order.len() <= visited(w, o, frontier, k).order.len(),
        forall|i: int|
            0 <= i < w.order.len() ==> #[trigger] visited(w, o, frontier, k).order[i] == w.order[i],
    decreases k,
{
    if k > 0 {
        lemma_visit_closed(w, o, frontier, k - 1);
        let v = visited(w, o, frontier, k - 1);
        lemma_met_grows(w.order, v.order, frontier[k - 1]@);
        lemma_sweep_closed(v, o, frontier[k - 1], true);
        let u = swept(v, o, frontier[k - 1], true);
        lemma_met_grows(v.order, u.order, frontier[k - 1]@);
        lemma_sweep_closed(u, o, frontier[k - 1], false);
    }
}

proof fn lemma_levels_closed(w: WebView, o: Ontology, depth: int)
    requires
        closed(w),
    ensures
        closed(levels(w, o, depth)),
    decreases depth,
{
    if depth > 0 {
        let v = WebView { next: Seq::empty(), ..w };
        assert(closed(v));
        lemma_visit_closed(v, o, w.next, w.next.len() as int);
        lemma_levels_closed(visited(v, o, w.next, w.next.len() as int), o, depth - 1);
    }
}

/// A neighborhood never holds more entities than its bound, and both ends of
/// every relation in it are among its entities.
pub proof fn law_neighborhoods_are_bounded_and_closed(o: Ontology, e: Entity, depth: int)
    ensures
        closed(web_of(o, e, depth)),
{
    let w = WebView { order: seq![e], links: Seq::empty(), next: seq![e.id], truncated: false };
    assert(w.order[0].id@ == e.id@);
    assert(closed(w));
    lemma_levels_closed(w, o, depth);
}

// ---------------------------------------------------------------------------
// File ranges
// ---------------------------------------------------------------------------

/// Where the line after the first `n` lines of a text starts.
pub open spec fn line_start(bytes: Seq<u8>, n: int) -> int {
    if n <= 0 {
        0
    } else {
        excerpt::line_end(bytes, 0, bytes.len() as int, n)
    }
}

proof fn lemma_line_end_monotonic(bytes: Seq<u8>, at: int, end: int, n: int, m: int)
    requires
        0 <= at <= end,
        0 < n <= m,
    ensures
        at <= excerpt::line_end(bytes, at, end, n) <= excerpt::line_end(bytes, at, end, m) <= end,
    decreases end - at,
{
    if at < end {
        if bytes[at] == 10u8 {
            if n > 1 {
                lemma_line_end_monotonic(bytes, at + 1, end, n - 1, m - 1);
            } else if m > 1 {
                lemma_line_end_monotonic(bytes, at + 1, end, m - 1, m - 1);
            }
        } else {
            lemma_line_end_monotonic(bytes, at + 1, end, n, m);
        }
    }
}

fn find_line_start(s: &str, n: usize) -> (r: usize)
    ensures
        r == line_start(s.spec_bytes(), n as int),
        r <= s.spec_bytes().len(),
        is_char_boundary(s.spec_bytes(), r as int),
{
    let len: usize = text::byte_len(s);
    proof {
        encode_utf8_valid_utf8(s@);
        is_char_boundary_start_end_of_seq(s.spec_bytes());
    }
    if n == 0 {
        0
    } else {
        excerpt::find_line_end(s, 0, len, n)
    }
}

/// What becomes of a request for lines of a file.
pub open spec fn range_answer(source: Snapshot, env: Envelope, path: Seq<char>, start_line: int, end_line: int) -> AnswerView {
    match context::file_at(source.files@, path, 0) {
        None => if text::texts(source.ignored@).contains(path) {
            unanswered(
                ItemOutcome::NotSource,
                seq![path],
                "ignored files are observed by metadata only"@,
            )
        } else {
            unanswered(
                ItemOutcome::NotFound,
                seq![path],
                "no captured source file at this path"@,
            )
        },
        Some(k) => {
            let bytes = source.files@[k].content@;
            let count = excerpt::lines(bytes);
            if !valid_utf8(bytes) {
                unanswered(
                    ItemOutcome::Binary,
                    seq![path],
                    "binary content is not issued as text"@,
                )
            } else if start_line > count {
                unanswered(
                    ItemOutcome::OutOfRange,
                    seq![path],
                    "file has "@ + text::digits(count as nat) + " lines"@,
                )
            } else {
                let last = if end_line < count {
                    end_line
                } else {
                    count
                };
                finished(
                    env,
                    DeltaView::FileRange {
                        path,
                        hash: source.files@[k].hash@,
                        start_line,
                        end_line: last,
                        bytes: bytes.subrange(
                            line_start(bytes, start_line - 1),
                            line_start(bytes, last),
                        ),
                    },
                    seq![path],
                )
            }
        },
    }
}

fn file_range(
    source: &Snapshot,
    env: &Envelope,
    index: usize,
    path: &String,
    start_line: u32,
    end_line: u32,
) -> (r: Answer)
    requires
        1 <= start_line <= end_line,
    ensures
        answer_is(
            r,
            index as int,
            range_answer(*source, *env, path@, start_line as int, end_line as int),
        ),
{
    let touched: Vec<String> = one_path(path);
    let k: usize = match context::find_file(&source.files, path.as_str()) {
        Some(k) => k,
        None => {
            return if text::among(&source.ignored, path.as_str()) {
                unresolved(
                    index,
                    ItemOutcome::NotSource,
                    touched,
                    "ignored files are observed by metadata only",
                )
            } else {
                unresolved(
                    index,
                    ItemOutcome::NotFound,
                    touched,
                    "no captured source file at this path",
                )
            };
        },
    };
    let file: &CapturedFile = &source.files[k];
    let content: String = match context::content_text(&file.content) {
        Some(t) => t,
        None => {
            return unresolved(
                index,
                ItemOutcome::Binary,
                touched,
                "binary content is not issued as text",
            );
        },
    };
    let ghost bytes = file.content@;
    let count: usize = excerpt::line_count(content.as_str());
    let first: usize = start_line as usize;
    if first > count {
        let shown: String = text::decimal(count as u64);
        let detail: String = text::join3("file has ", shown.as_str(), " lines");
        return unresolved(index, ItemOutcome::OutOfRange, touched, detail.as_str());
    }
    let last: u32 = if (end_line as usize) < count {
        end_line
    } else {
        count as u32
    };
    let from: usize = find_line_start(content.as_str(), first - 1);
    let to: usize = find_line_start(content.as_str(), last as usize);
    proof {
        if first > 1 {
            lemma_line_end_monotonic(bytes, 0, bytes.len() as int, first - 1, last as int);
        }
    }
    let shown: &str = excerpt::part(content.as_str(), from, to);
    let ghost v = DeltaView::FileRange {
        path: path@,
        hash: file.hash@,
        start_line: start_line as int,
        end_line: last as int,
        bytes: bytes.subrange(from as int, to as int),
    };
    let item: DeltaItem = DeltaItem::FileRange {
        request_index: index,
        path: path.clone(),
        content_hash: file.hash.clone(),
        start_line,
        end_line: last,
        text: shown.to_owned(),
    };
    finish(env, index, item, &touched, Ghost(v))
}

// ---------------------------------------------------------------------------
// Memory
// ---------------------------------------------------------------------------

/// The paths that the links of a memory touch, from the `i`-th on.
pub open spec fn link_paths(o: Ontology, links: Seq<MemoryLink>, i: int) -> Seq<Seq<char>>
    decreases links.len() - i,
{
    if i < 0 || i >= links.len() {
        Seq::empty()
    } else {
        match links[i] {
            MemoryLink::File { path } => seq![path@] + link_paths(o, links, i + 1),
            MemoryLink::Graph { id } => match plan::entity_at(o.entities@, id@, 0) {
                Some(n) => seq![o.entities@[n].provenance.path@] + link_paths(o, links, i + 1),
                None => link_paths(o, links, i + 1),
            },
            MemoryLink::Other => link_paths(o, links, i + 1),
        }
    }
}

fn linked_paths(o: &Ontology, links: &Vec<MemoryLink>) -> (r: Vec<String>)
    ensures
        text::texts(r@) == link_paths(*o, links@, 0),
{
    let mut out: Vec<String> = no_paths();
    let mut i: usize = 0;
    while i < links.len()
        invariant
            i <= links@.len(),
            text::texts(out@) + link_paths(*o, links@, i as int) == link_paths(*o, links@, 0),
        decreases links@.len() - i,
    {
        let ghost so_far = text::texts(out@);
        let ghost rest = link_paths(*o, links@, i + 1);
        match &links[i] {
            MemoryLink::File { path } => {
                out.push(path.clone());
                assert(text::texts(out@) =~= so_far.push(path@));
                assert(so_far.push(path@) + rest =~= so_far + (seq![path@] + rest));
            },
            MemoryLink::Graph { id } => {
                if let Some(n) = find_entity(&o.entities, id.as_str()) {
                    let ghost path = o.entities@[n as int].provenance.path@;
                    out.push(o.entities[n].provenance.path.clone());
                    assert(text::texts(out@) =~= so_far.push(path));
                    assert(so_far.push(path) + rest =~= so_far + (seq![path] + rest));
                }
            },
            MemoryLink::Other => {},
        }
        i += 1;
    }
    assert(text::texts(out@) + link_paths(*o, links@, i as int) =~= text::texts(out@));
    out
}

/// An answer that only a planner can release.
pub open spec fn withheld(v: DeltaView, detail: Seq<char>) -> AnswerView {
    AnswerView {
        outcome: ItemOutcome::OutsideEnvelope,
        paths: Seq::empty(),
        candidates: Seq::empty(),
        detail: Some(detail),
        item: Some(v),
    }
}

/// What becomes of a request for a memory.
pub open spec fn memory_answer(
    o: Ontology,
    memory: Seq<MemoryRecord>,
    env: Envelope,
    id: Seq<char>,
) -> AnswerView {
    match context::memory_at(memory, id, 0) {
        None => unanswered(
            ItemOutcome::NotFound,
            Seq::empty(),
            "memory is absent from this workspace"@,
        ),
        Some(k) => {
            let m = memory[k];
            let v = DeltaView::Memory { record: m };
            if !m.active || m.stale {
                unanswered(ItemOutcome::Stale, Seq::empty(), "memory is inactive or stale"@)
            } else if text::texts(env.memory@).contains(id) {
                finished(env, v, Seq::empty())
            } else if m.agent_note {
                withheld(v, "agent notes require explicit planner selection"@)
            } else if link_paths(o, m.links@, 0).len() == 0 {
                withheld(v, "memory has no repository link inside the envelope"@)
            } else {
                finished(env, v, link_paths(o, m.links@, 0))
            }
        },
    }
}

fn withhold(index: usize, item: DeltaItem, detail: &str, Ghost(v): Ghost<DeltaView>) -> (r: Answer)
    requires
        delta_is(item, index as int, v),
    ensures
        answer_is(r, index as int, withheld(v, detail@)),
{
    Answer {
        resolution: ItemResolution {
            index,
            outcome: ItemOutcome::OutsideEnvelope,
            bytes: 0,
            paths: no_paths(),
            candidates: no_paths(),
            detail: Some(detail.to_owned()),
        },
        item: Some(item),
    }
}

fn memory_item(
    o: &Ontology,
    memory: &Vec<MemoryRecord>,
    env: &Envelope,
    index: usize,
    id: &str,
) -> (r: Answer)
    ensures
        answer_is(r, index as int, memory_answer(*o, memory@, *env, id@)),
{
    let k: usize = match context::find_memory(memory, id) {
        Some(k) => k,
        None => {
            return unresolved(
                index,
                ItemOutcome::NotFound,
                no_paths(),
                "memory is absent from this workspace",
            );
        },
    };
    let m: &MemoryRecord = &memory[k];
    if !m.active || m.stale {
        return unresolved(index, ItemOutcome::Stale, no_paths(), "memory is inactive or stale");
    }
    let ghost v = DeltaView::Memory { record: *m };
    let item: DeltaItem = DeltaItem::Memory {
        request_index: index,
        memory: context::issued_memory(m),
    };
    if text::among(&env.memory, id) {
        return finish(env, index, item, &no_paths(), Ghost(v));
    }
    if m.agent_note {
        return withhold(
            index,
            item,
            "agent notes require explicit planner selection",
            Ghost(v),
        );
    }
    let touched: Vec<String> = linked_paths(o, &m.links);
    assert(text::texts(touched@).len() == touched@.len());
    if touched.len() == 0 {
        return withhold(
            index,
            item,
            "memory has no repository link inside the envelope",
            Ghost(v),
        );
    }
    finish(env, index, item, &touched, Ghost(v))
}

// ---------------------------------------------------------------------------
// Whole requests
// ---------------------------------------------------------------------------

pub const ABSENT: &'static str = "entity is absent from the current ontology";

/// Whether a request item is well-formed: lines count from one and do not run
/// backwards.
pub open spec fn well_formed(item: ContextRequestItem) -> bool {
    match item {
        ContextRequestItem::FileRange { start_line, end_line, .. } => 1 <= start_line <= end_line,
        _ => true,
    }
}

/// Why a request item cannot be answered at all, if so.
pub open spec fn item_refusal(o: Ontology, source: Snapshot, item: ContextRequestItem) -> Option<
    Seq<char>,
> {
    match item {
        ContextRequestItem::SymbolDefinition { entity_id } => match plan::entity_at(
            o.entities@,
            entity_id@,
            0,
        ) {
            Some(n) => context::definition_refusal(source, o.entities@[n]),
            None => None,
        },
        ContextRequestItem::SymbolByName { name } => name_refusal(o, source, name@),
        ContextRequestItem::RelatedTests { entity_id } => match plan::entity_at(
            o.entities@,
            entity_id@,
            0,
        ) {
            Some(n) => tests_refusal(o, source, o.entities@[n]),
            None => None,
        },
        _ => None,
    }
}

/// What becomes of one request item.
pub open spec fn item_answer(
    o: Ontology,
    source: Snapshot,
    memory: Seq<MemoryRecord>,
    env: Envelope,
    item: ContextRequestItem,
) -> AnswerView {
    let absent = unanswered(ItemOutcome::NotFound, Seq::empty(), ABSENT@);
    match item {
        ContextRequestItem::SymbolDefinition { entity_id } => match plan::entity_at(
            o.entities@,
            entity_id@,
            0,
        ) {
            Some(n) => symbol_answer(source, env, o.entities@[n]),
            None => absent,
        },
        ContextRequestItem::SymbolByName { name } => name_answer(o, source, env, name@),
        ContextRequestItem::SymbolRelations { entity_id, relation } => match plan::entity_at(
            o.entities@,
            entity_id@,
            0,
        ) {
            Some(n) => relations_answer(o, env, o.entities@[n], relation),
            None => absent,
        },
        ContextRequestItem::RelatedTests { entity_id } => match plan::entity_at(
            o.entities@,
            entity_id@,
            0,
        ) {
            Some(n) => tests_answer(o, source, env, o.entities@[n]),
            None => absent,
        },
        ContextRequestItem::Neighborhood { entity_id, depth } => match plan::entity_at(
            o.entities@,
            entity_id@,
            0,
        ) {
            Some(n) => neighborhood_answer(o, env, o.entities@[n], depth),
            None => absent,
        },
        ContextRequestItem::FileRange { path, start_line, end_line } => range_answer(
            source,
            env,
            path@,
            start_line as int,
            end_line as int,
        ),
        ContextRequestItem::Memory { memory_id } => memory_answer(o, memory, env, memory_id@),
    }
}

fn absent(index: usize) -> (r: Answer)
    ensures
        answer_is(
            r,
            index as int,
            unanswered(ItemOutcome::NotFound, Seq::empty(), ABSENT@),
        ),
{
    unresolved(index, ItemOutcome::NotFound, no_paths(), ABSENT)
}

/// Answers one request item.
pub fn resolve_item(
    o: &Ontology,
    source: &Snapshot,
    memory: &Vec<MemoryRecord>,
    env: &Envelope,
    index: usize,
    item: &ContextRequestItem,
) -> (r: Result<Answer, Error>)
    requires
        all_lines_fit(*o, *source),
        well_formed(*item),
    ensures
        crate::error::settles(r, item_refusal(*o, *source, *item)),
        r matches Ok(a) ==> answer_is(
            a,
            index as int,
            item_answer(*o, *source, memory@, *env, *item),
        ),
{
    match item {
        ContextRequestItem::SymbolDefinition { entity_id } => match find_entity(
            &o.entities,
            entity_id.as_str(),
        ) {
            Some(n) => symbol(source, env, index, &o.entities[n]),
            None => Ok(absent(index)),
        },
        ContextRequestItem::SymbolByName { name } => by_name(
            o,
            source,
            env,
            index,
            name.as_str(),
        ),
        ContextRequestItem::SymbolRelations { entity_id, relation } => match find_entity(
            &o.entities,
            entity_id.as_str(),
        ) {
            Some(n) => Ok(relations(o, env, index, &o.entities[n], *relation)),
            None => Ok(absent(index)),
        },
        ContextRequestItem::RelatedTests { entity_id } => match find_entity(
            &o.entities,
            entity_id.as_str(),
        ) {
            Some(n) => related_tests(o, source, env, index, &o.entities[n]),
            None => Ok(absent(index)),
        },
        ContextRequestItem::Neighborhood { entity_id, depth } => match find_entity(
            &o.entities,
            entity_id.as_str(),
        ) {
            Some(n) => Ok(neighborhood(o, env, index, &o.entities[n], *depth)),
            None => Ok(absent(index)),
        },
        ContextRequestItem::FileRange { path, start_line, end_line } => Ok(
            file_range(source, env, index, path, *start_line, *end_line),
        ),
        ContextRequestItem::Memory { memory_id } => Ok(
            memory_item(o, memory, env, index, memory_id.as_str()),
        ),
    }
}

/// A granted answer touches no path outside the envelope.
pub proof fn law_granted_answers_stay_in_the_envelope(
    o: Ontology,
    source: Snapshot,
    memory: Seq<MemoryRecord>,
    env: Envelope,
    item: ContextRequestItem,
    i: int,
)
    requires
        item_answer(o, source, memory, env, item).outcome == ItemOutcome::Granted,
        0 <= i < item_answer(o, source, memory, env, item).paths.len(),
    ensures
        env.reaches(item_answer(o, source, memory, env, item).paths[i]),
{
    let a = item_answer(o, source, memory, env, item);
    lemma_nothing_outside(env, a.paths, 0, i);
}

proof fn lemma_nothing_outside(env: Envelope, paths: Seq<Seq<char>>, from: int, i: int)
    requires
        0 <= from <= i < paths.len(),
        outside(env, paths, from).len() == 0,
    ensures
        env.reaches(paths[i]),
    decreases i - from,
{
    if from < i {
        lemma_nothing_outside(env, paths, from + 1, i);
    }
}

/// Why the request items from the `i`-th on cannot be answered at all.
pub open spec fn items_refusal(
    o: Ontology,
    source: Snapshot,
    items: Seq<ContextRequestItem>,
    i: int,
) -> Option<Seq<char>>
    decreases items.len() - i,
{
    if i < 0 || i >= items.len() {
        None
    } else {
        crate::error::either(
            item_refusal(o, source, items[i]),
            items_refusal(o, source, items, i + 1),
        )
    }
}

/// Whether answers are those of the first `k` request items, in order.
pub open spec fn answers_are(
    answers: Seq<Answer>,
    o: Ontology,
    source: Snapshot,
    memory: Seq<MemoryRecord>,
    env: Envelope,
    items: Seq<ContextRequestItem>,
) -> bool {
    &&& answers.len() == items.len()
    &&& forall|i: int|
        0 <= i < answers.len() ==> answer_is(
            #[trigger] answers[i],
            i,
            item_answer(o, source, memory, env, items[i]),
        )
}

pub const GENERATION_DRIFT: &'static str =
    "SOURCE_DRIFT: ontology generation changed between context rounds; replan required";

/// Answers every item of a request, in request order. The ontology must be the
/// generation that earlier rounds saw.
pub fn answer_all(
    o: &Ontology,
    source: &Snapshot,
    memory: &Vec<MemoryRecord>,
    env: &Envelope,
    expected: &Option<GraphGeneration>,
    items: &Vec<ContextRequestItem>,
) -> (r: Result<Vec<Answer>, Error>)
    requires
        all_lines_fit(*o, *source),
        forall|i: int| 0 <= i < items@.len() ==> well_formed(#[trigger] items@[i]),
    ensures
        crate::error::settles(
            r,
            if !crate::graph::same_generation(o.generation, *expected) {
                Some(GENERATION_DRIFT@)
            } else {
                items_refusal(*o, *source, items@, 0)
            },
        ),
        r matches Ok(v) ==> answers_are(v@, *o, *source, memory@, *env, items@),
{
    if !crate::graph::generation_same(&o.generation, expected) {
        return invalid(GENERATION_DRIFT);
    }
    let mut out: Vec<Answer> = Vec::new();
    let mut i: usize = 0;
    while i < items.len()
        invariant
            all_lines_fit(*o, *source),
            crate::graph::same_generation(o.generation, *expected),
            forall|j: int| 0 <= j < items@.len() ==> well_formed(#[trigger] items@[j]),
            i <= items@.len(),
            items_refusal(*o, *source, items@, 0) == items_refusal(
                *o,
                *source,
                items@,
                i as int,
            ),
            out@.len() == i,
            forall|j: int|
                0 <= j < i ==> answer_is(
                    #[trigger] out@[j],
                    j,
                    item_answer(*o, *source, memory@, *env, items@[j]),
                ),
        decreases items@.len() - i,
    {
        match resolve_item(o, source, memory, env, i, &items[i]) {
            Ok(a) => out.push(a),
            Err(e) => return Err(e),
        }
        i += 1;
    }
    Ok(out)
}

/// Whether an outcome can lead to context at all.
pub open spec fn answered(o: ItemOutcome) -> bool {
    o == ItemOutcome::Granted || o == ItemOutcome::OutsideEnvelope
}

/// Whether every item has an answer.
pub open spec fn all_answered(items: Seq<ItemResolution>) -> bool {
    forall|i: int| 0 <= i < items.len() ==> answered((#[trigger] items[i]).outcome)
}

/// Whether every item is granted.
pub open spec fn all_granted(items: Seq<ItemResolution>) -> bool {
    forall|i: int| 0 <= i < items.len() ==> (#[trigger] items[i]).outcome == ItemOutcome::Granted
}

/// The verdict on a request, and the code of a denial: no round may be left, an
/// item may have no answer, or the answers may be too large for the round or the
/// task. Only what is within every budget is escalated where it needs a path
/// outside the envelope.
pub open spec fn verdict_of(items: Seq<ItemResolution>, bytes: int, b: Budget) -> (
    Verdict,
    Option<Seq<char>>,
) {
    if b.rounds_used >= b.max_rounds {
        (Verdict::Denied, Some("ROUNDS_EXHAUSTED"@))
    } else if !all_answered(items) {
        (Verdict::Denied, Some("ITEM_UNRESOLVABLE"@))
    } else if bytes > b.round_limit {
        (Verdict::Denied, Some("ROUND_BUDGET_EXCEEDED"@))
    } else if bytes > b.task_remaining {
        (Verdict::Denied, Some("TASK_BUDGET_EXHAUSTED"@))
    } else if !all_granted(items) {
        if b.escalations_used < b.max_escalations {
            (Verdict::Escalate, None)
        } else if b.max_escalations == 0 {
            (Verdict::Denied, Some("ESCALATION_NOT_PERMITTED"@))
        } else {
            (Verdict::Denied, Some("ESCALATIONS_EXHAUSTED"@))
        }
    } else {
        (Verdict::Granted, None)
    }
}

/// The verdict on a request. `bytes` is the size of all its answers as compact
/// JSON.
pub fn verdict(items: &Vec<ItemResolution>, bytes: usize, b: &Budget) -> (r: (
    Verdict,
    Option<String>,
))
    ensures
        r.0 == verdict_of(items@, bytes as int, *b).0,
        validation::message(r.1) == verdict_of(items@, bytes as int, *b).1,
{
    if b.rounds_used >= b.max_rounds {
        return (Verdict::Denied, Some("ROUNDS_EXHAUSTED".to_owned()));
    }
    let mut resolved: bool = true;
    let mut granted: bool = true;
    let mut i: usize = 0;
    while i < items.len()
        invariant
            i <= items@.len(),
            resolved == (forall|j: int|
                0 <= j < i ==> answered((#[trigger] items@[j]).outcome)),
            granted == (forall|j: int|
                0 <= j < i ==> (#[trigger] items@[j]).outcome == ItemOutcome::Granted),
        decreases items@.len() - i,
    {
        match items[i].outcome {
            ItemOutcome::Granted => {},
            ItemOutcome::OutsideEnvelope => {
                granted = false;
            },
            _ => {
                granted = false;
                resolved = false;
            },
        }
        i += 1;
    }
    if !resolved {
        return (Verdict::Denied, Some("ITEM_UNRESOLVABLE".to_owned()));
    }
    if bytes > b.round_limit {
        return (Verdict::Denied, Some("ROUND_BUDGET_EXCEEDED".to_owned()));
    }
    if bytes > b.task_remaining {
        return (Verdict::Denied, Some("TASK_BUDGET_EXHAUSTED".to_owned()));
    }
    if granted {
        (Verdict::Granted, None)
    } else if b.escalations_used < b.max_escalations {
        (Verdict::Escalate, None)
    } else if b.max_escalations == 0 {
        (Verdict::Denied, Some("ESCALATION_NOT_PERMITTED".to_owned()))
    } else {
        (Verdict::Denied, Some("ESCALATIONS_EXHAUSTED".to_owned()))
    }
}

/// A request is granted only while rounds are left, only where every item is
/// granted, and only within the budgets of the round and the task.
pub proof fn law_grants_respect_every_budget(items: Seq<ItemResolution>, bytes: int, b: Budget)
    requires
        verdict_of(items, bytes, b).0 == Verdict::Granted,
    ensures
        b.rounds_used < b.max_rounds,
        all_granted(items),
        bytes <= b.round_limit,
        bytes <= b.task_remaining,
        verdict_of(items, bytes, b).1 is None,
{
}

/// A request is escalated only while rounds and escalations are left, only where
/// every item has an answer and one of them lies outside the envelope, and only
/// within the budgets of the round and the task. A budget that is exceeded denies
/// it first.
pub proof fn law_escalations_respect_every_budget(items: Seq<ItemResolution>, bytes: int, b: Budget)
    requires
        verdict_of(items, bytes, b).0 == Verdict::Escalate,
    ensures
        b.rounds_used < b.max_rounds,
        b.escalations_used < b.max_escalations,
        all_answered(items),
        !all_granted(items),
        bytes <= b.round_limit,
        bytes <= b.task_remaining,
        verdict_of(items, bytes, b).1 is None,
{
}

/// A request that needs anything outside the envelope is never granted.
pub proof fn law_nothing_outside_is_granted_automatically(
    items: Seq<ItemResolution>,
    bytes: int,
    b: Budget,
    i: int,
)
    requires
        0 <= i < items.len(),
        items[i].outcome == ItemOutcome::OutsideEnvelope,
    ensures
        verdict_of(items, bytes, b).0 != Verdict::Granted,
{
}

/// What a worker's request is resolved for.
#[derive(Debug)]
pub struct Subject {
    pub subject: String,
    pub request_hash: String,
}

/// Whether a resolution records answers, their measures and the verdict.
pub open spec fn records(
    res: ContextResolution,
    of: Subject,
    o: Ontology,
    source: Snapshot,
    env: Envelope,
    answers: Seq<Answer>,
    sizes: Seq<usize>,
    bytes: int,
    b: Budget,
) -> bool {
    &&& res.version@ == context::RESOLUTION_VERSION@
    &&& res.subject@ == of.subject@
    &&& res.request_hash@ == of.request_hash@
    &&& res.graph_generation == o.generation
    &&& res.source_hash == source.hash
    &&& res.envelope@ == env.scopes@
    &&& res.budget == b
    &&& if b.rounds_used >= b.max_rounds {
        res.items@.len() == 0 && res.bytes == 0 && res.verdict == Verdict::Denied
            && validation::message(res.code) == Some("ROUNDS_EXHAUSTED"@)
    } else {
        &&& res.bytes == bytes
        &&& res.items@.len() == answers.len()
        &&& forall|i: int|
            0 <= i < answers.len() ==> {
                &&& (#[trigger] res.items@[i]).index == answers[i].resolution.index
                &&& res.items@[i].outcome == answers[i].resolution.outcome
                &&& res.items@[i].paths == answers[i].resolution.paths
                &&& res.items@[i].candidates == answers[i].resolution.candidates
                &&& res.items@[i].detail == answers[i].resolution.detail
                &&& res.items@[i].bytes == if answers[i].item is Some {
                    sizes[i]
                } else {
                    0
                }
            }
        &&& res.verdict == verdict_of(res.items@, bytes, b).0
        &&& validation::message(res.code) == verdict_of(res.items@, bytes, b).1
    }
}

/// The answers that there are, in order.
pub open spec fn given(answers: Seq<Answer>) -> Seq<DeltaItem>
    decreases answers.len(),
{
    if answers.len() == 0 {
        Seq::empty()
    } else {
        match answers[0].item {
            Some(x) => seq![x] + given(answers.drop_first()),
            None => given(answers.drop_first()),
        }
    }
}

/// Settles a request: records what became of each item and gives the verdict.
/// `sizes` are the bytes of each answer as compact JSON and `bytes` those of all
/// of them. Only a GRANTED verdict returns any answer.
pub fn settle(
    of: Subject,
    o: &Ontology,
    source: &Snapshot,
    env: &Envelope,
    answers: Vec<Answer>,
    sizes: &Vec<usize>,
    bytes: usize,
    b: &Budget,
) -> (r: (ContextResolution, Vec<DeltaItem>))
    requires
        sizes@.len() == answers@.len(),
    ensures
        records(r.0, of, *o, *source, *env, answers@, sizes@, bytes as int, *b),
        r.1@ == if r.0.verdict == Verdict::Granted {
            given(answers@)
        } else {
            Seq::empty()
        },
{
    let generation: Option<GraphGeneration> = match &o.generation {
        Some(g) => Some(g.clone()),
        None => None,
    };
    let mut res: ContextResolution = ContextResolution {
        version: context::RESOLUTION_VERSION.to_owned(),
        subject: of.subject,
        request_hash: of.request_hash,
        graph_generation: generation,
        source_hash: source.hash.clone(),
        envelope: crate::planning::scope::copied(&env.scopes),
        items: Vec::new(),
        verdict: Verdict::Denied,
        code: None,
        bytes: 0,
        budget: *b,
    };
    if b.rounds_used >= b.max_rounds {
        res.code = Some("ROUNDS_EXHAUSTED".to_owned());
        return (res, Vec::new());
    }
    let ghost all = answers@;
    let mut rest: Vec<Answer> = answers;
    let mut items: Vec<ItemResolution> = Vec::new();
    let mut out: Vec<DeltaItem> = Vec::new();
    let count: usize = rest.len();
    let mut i: usize = 0;
    assert(all.skip(0) =~= all);
    while i < count
        invariant
            i <= count,
            count == all.len(),
            sizes@.len() == all.len(),
            rest@ == all.skip(i as int),
            items@.len() == i,
            forall|j: int|
                0 <= j < i ==> {
                    &&& (#[trigger] items@[j]).index == all[j].resolution.index
                    &&& items@[j].outcome == all[j].resolution.outcome
                    &&& items@[j].paths == all[j].resolution.paths
                    &&& items@[j].candidates == all[j].resolution.candidates
                    &&& items@[j].detail == all[j].resolution.detail
                    &&& items@[j].bytes == if all[j].item is Some {
                        sizes@[j]
                    } else {
                        0
                    }
                },
            out@ + given(all.skip(i as int)) == given(all),
        decreases count - i,
    {
        let ghost so_far = out@;
        let ghost next = all.skip(i + 1);
        let a: Answer = rest.remove(0);
        assert(rest@ =~= next);
        assert(all.skip(i as int).drop_first() =~= next);
        let mut item: ItemResolution = a.resolution;
        match a.item {
            Some(x) => {
                item.bytes = sizes[i];
                out.push(x);
                assert(out@ + given(next) =~= so_far + (seq![x] + given(next)));
            },
            None => {
                item.bytes = 0;
            },
        }
        items.push(item);
        i += 1;
    }
    proof {
        assert(all.skip(i as int) =~= Seq::empty());
        assert(out@ + given(all.skip(i as int)) =~= out@);
    }
    let (v, code) = verdict(&items, bytes, b);
    res.items = items;
    res.bytes = bytes;
    res.verdict = v;
    res.code = code;
    if v != Verdict::Granted {
        out = Vec::new();
    }
    (res, out)
}

// ---------------------------------------------------------------------------
// Deltas
// ---------------------------------------------------------------------------

pub const HASH_PREFIX: &'static str = "blake3:";

/// The identifier of a delta, from the hash of what it answers.
pub open spec fn delta_id_of(hash: Seq<char>) -> Seq<char> {
    "delta:"@ + (if text::begins(hash, HASH_PREFIX@) {
        hash.subrange(HASH_PREFIX@.len() as int, hash.len() as int)
    } else {
        hash
    }).take(32)
}

fn delta_id(hash: &str) -> (r: String)
    requires
        hash@.len() >= 39,
    ensures
        r@ == delta_id_of(hash@),
{
    proof {
        reveal_strlit("blake3:");
        assert("blake3:"@.len() == 7);
    }
    let len: usize = hash.unicode_len();
    if text::starts_with(hash, HASH_PREFIX) {
        let hex: &str = hash.substring_char(7, 39);
        assert(hex@ =~= hash@.subrange(7, hash@.len() as int).take(32));
        text::join2("delta:", hex)
    } else {
        let hex: &str = hash.substring_char(0, 32);
        assert(hex@ =~= hash@.take(32));
        text::join2("delta:", hex)
    }
}

/// Assembles the delta of a granted resolution. `hash` is the hash of what the
/// delta answers, and `bytes` the size of its items as compact JSON.
pub fn delta(
    plan_id: &str,
    task_id: &Option<String>,
    role: AgentRole,
    parent_job_id: &str,
    round: u32,
    resolution: &ContextResolution,
    grant: Grant,
    items: Vec<DeltaItem>,
    hash: &str,
    bytes: usize,
) -> (r: Result<ContextDelta, Error>)
    requires
        hash@.len() >= 39,
    ensures
        crate::error::settles(
            r,
            if resolution.verdict == Verdict::Granted {
                None
            } else {
                Some("only a granted resolution yields a context delta"@)
            },
        ),
        r matches Ok(d) ==> {
            &&& d.version@ == context::DELTA_VERSION@
            &&& d.delta_id@ == delta_id_of(hash@)
            &&& d.plan_id@ == plan_id@
            &&& d.task_id == *task_id
            &&& d.role == role
            &&& d.parent_job_id@ == parent_job_id@
            &&& d.request_hash == resolution.request_hash
            &&& d.round == round
            &&& d.graph_generation == resolution.graph_generation
            &&& d.source_hash == resolution.source_hash
            &&& d.grant == grant
            &&& d.items == items
            &&& d.bytes == bytes
        },
{
    if resolution.verdict != Verdict::Granted {
        return invalid("only a granted resolution yields a context delta");
    }
    let generation: Option<GraphGeneration> = match &resolution.graph_generation {
        Some(g) => Some(g.clone()),
        None => None,
    };
    Ok(
        ContextDelta {
            version: context::DELTA_VERSION.to_owned(),
            delta_id: delta_id(hash),
            plan_id: plan_id.to_owned(),
            task_id: task_id.clone(),
            role,
            parent_job_id: parent_job_id.to_owned(),
            request_hash: resolution.request_hash.clone(),
            round,
            graph_generation: generation,
            source_hash: resolution.source_hash.clone(),
            grant,
            items,
            bytes,
        },
    )
}

} // verus!
