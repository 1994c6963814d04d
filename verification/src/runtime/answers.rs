//! What the answers to context requests hold, told by what was captured and by the
//! ontology alone.
use crate::excerpt;
use crate::graph::{Edge, Entity};
use crate::planning::plan;
use crate::planning::scope;
use crate::runtime::context;
use crate::runtime::context::{
    ContextRequestItem, Envelope, ItemOutcome, MemoryLink, MemoryRecord, RelationDirection,
    Snapshot,
};
use crate::runtime::resolve;
use crate::runtime::resolve::{Association, DeltaView, Neighbor, Ontology};
use crate::text;
use vstd::prelude::*;
use vstd::utf8::*;

verus! {

// ---------------------------------------------------------------------------
// Lookups
// ---------------------------------------------------------------------------

pub proof fn lemma_entity_at(entities: Seq<Entity>, id: Seq<char>, i: int)
    requires
        0 <= i,
    ensures
        match plan::entity_at(entities, id, i) {
            Some(k) => i <= k < entities.len() && entities[k].id@ == id && forall|j: int|
                i <= j < k ==> (#[trigger] entities[j]).id@ != id,
            None => forall|j: int| i <= j < entities.len() ==> (#[trigger] entities[j]).id@ != id,
        },
    decreases entities.len() - i,
{
    if i < entities.len() {
        lemma_entity_at(entities, id, i + 1);
    }
}

pub proof fn lemma_file_at(files: Seq<context::CapturedFile>, path: Seq<char>, i: int)
    requires
        0 <= i,
    ensures
        match context::file_at(files, path, i) {
            Some(k) => i <= k < files.len() && files[k].path@ == path && forall|j: int|
                i <= j < k ==> (#[trigger] files[j]).path@ != path,
            None => forall|j: int| i <= j < files.len() ==> (#[trigger] files[j]).path@ != path,
        },
    decreases files.len() - i,
{
    if i < files.len() {
        lemma_file_at(files, path, i + 1);
    }
}

pub proof fn lemma_memory_at(list: Seq<MemoryRecord>, id: Seq<char>, i: int)
    requires
        0 <= i,
    ensures
        match context::memory_at(list, id, i) {
            Some(k) => i <= k < list.len() && list[k].id@ == id && forall|j: int|
                i <= j < k ==> (#[trigger] list[j]).id@ != id,
            None => forall|j: int| i <= j < list.len() ==> (#[trigger] list[j]).id@ != id,
        },
    decreases list.len() - i,
{
    if i < list.len() {
        lemma_memory_at(list, id, i + 1);
    }
}

// ---------------------------------------------------------------------------
// Inside the envelope
// ---------------------------------------------------------------------------

proof fn lemma_outside(env: Envelope, paths: Seq<Seq<char>>, i: int)
    requires
        0 <= i,
    ensures
        ({
            let out = resolve::outside(env, paths, i);
            &&& forall|t: Seq<char>| #[trigger]
                out.contains(t) <==> exists|k: int|
                    i <= k < paths.len() && #[trigger] paths[k] == t && !env.reaches(t)
            &&& out.len() == 0 <==> forall|k: int|
                i <= k < paths.len() ==> env.reaches(#[trigger] paths[k])
        }),
    decreases paths.len() - i,
{
    if i < paths.len() {
        lemma_outside(env, paths, i + 1);
        let rest = resolve::outside(env, paths, i + 1);
        let out = resolve::outside(env, paths, i);
        if !env.reaches(paths[i]) {
            assert(out[0] == paths[i]);
            assert forall|t: Seq<char>| #[trigger] out.contains(t) <==> exists|k: int|
                i <= k < paths.len() && #[trigger] paths[k] == t && !env.reaches(t) by {
                if rest.contains(t) {
                    let m = choose|m: int| 0 <= m < rest.len() && rest[m] == t;
                    assert(out[m + 1] == t);
                }
                if out.contains(t) {
                    let m = choose|m: int| 0 <= m < out.len() && out[m] == t;
                    if m > 0 {
                        assert(rest[m - 1] == t);
                        assert(rest.contains(t));
                    } else {
                        assert(paths[i] == t);
                    }
                }
            }
        }
    }
}

/// What is answered is granted if and only if everything it touches lies inside the
/// envelope, and what is told otherwise are exactly the paths outside, in order.
proof fn lemma_finished(env: Envelope, v: DeltaView, touched: Seq<Seq<char>>)
    ensures
        ({
            let a = resolve::finished(env, v, touched);
            &&& a.item == Some(v)
            &&& a.outcome == ItemOutcome::Granted || a.outcome == ItemOutcome::OutsideEnvelope
            &&& a.outcome == ItemOutcome::Granted <==> forall|k: int|
                0 <= k < touched.len() ==> env.reaches(#[trigger] touched[k])
            &&& a.outcome == ItemOutcome::OutsideEnvelope ==> forall|t: Seq<char>| #[trigger]
                a.paths.contains(t) <==> touched.contains(t) && !env.reaches(t)
            &&& a.outcome == ItemOutcome::Granted ==> forall|t: Seq<char>| #[trigger]
                a.paths.contains(t) <==> touched.contains(t)
        }),
{
    let all = text::in_order(touched);
    text::law_texts_can_be_ordered(touched);
    lemma_outside(env, all, 0);
    let out = resolve::outside(env, all, 0);
    assert forall|t: Seq<char>| #[trigger] out.contains(t) <==> touched.contains(t)
        && !env.reaches(t) by {
        if touched.contains(t) && !env.reaches(t) {
            assert(all.contains(t));
            let k = choose|k: int| 0 <= k < all.len() && all[k] == t;
            assert(all[k] == t);
        }
        if out.contains(t) {
            let k = choose|k: int| 0 <= k < all.len() && #[trigger] all[k] == t && !env.reaches(t);
            assert(all.contains(t));
        }
    }
    if out.len() == 0 {
        assert forall|k: int| 0 <= k < touched.len() implies env.reaches(#[trigger] touched[k]) by {
            assert(touched.contains(touched[k]));
            assert(all.contains(touched[k]));
            let m = choose|m: int| 0 <= m < all.len() && all[m] == touched[k];
            assert(env.reaches(all[m]));
        }
    } else {
        assert(out.contains(out[0]));
        let k = choose|k: int| 0 <= k < touched.len() && touched[k] == out[0];
        assert(!env.reaches(touched[k]));
    }
}

// ---------------------------------------------------------------------------
// Relations
// ---------------------------------------------------------------------------

proof fn lemma_scanned(edges: Seq<Edge>, id: Seq<char>, incoming: bool, limit: int, i: int)
    requires
        0 <= i,
    ensures
        ({
            let list = resolve::scanned(edges, id, incoming, limit, i);
            &&& list.len() <= limit || list.len() == 0
            &&& forall|m: int|
                0 <= m < list.len() ==> resolve::touches(#[trigger] list[m], id, incoming)
                    && exists|j: int| i <= j < edges.len() && #[trigger] edges[j] == list[m]
            &&& list.len() < limit ==> forall|j: int|
                i <= j < edges.len() && resolve::touches(#[trigger] edges[j], id, incoming)
                    ==> list.contains(edges[j])
        }),
    decreases edges.len() - i,
{
    let list = resolve::scanned(edges, id, incoming, limit, i);
    if i < edges.len() && limit > 0 {
        if resolve::touches(edges[i], id, incoming) {
            lemma_scanned(edges, id, incoming, limit - 1, i + 1);
            let rest = resolve::scanned(edges, id, incoming, limit - 1, i + 1);
            assert(list[0] == edges[i]);
            assert forall|m: int| 0 <= m < list.len() implies resolve::touches(
                #[trigger] list[m],
                id,
                incoming,
            ) && exists|j: int| i <= j < edges.len() && #[trigger] edges[j] == list[m] by {
                if m > 0 {
                    assert(list[m] == rest[m - 1]);
                }
            }
            if list.len() < limit {
                assert forall|j: int|
                    i <= j < edges.len() && resolve::touches(
                        #[trigger] edges[j],
                        id,
                        incoming,
                    ) implies list.contains(edges[j]) by {
                    if j > i {
                        assert(rest.contains(edges[j]));
                        let m = choose|m: int| 0 <= m < rest.len() && rest[m] == edges[j];
                        assert(list[m + 1] == edges[j]);
                    }
                }
            }
        } else {
            lemma_scanned(edges, id, incoming, limit, i + 1);
        }
    }
}

proof fn lemma_found_is(
    list: Seq<Edge>,
    entities: Seq<Entity>,
    id: Seq<char>,
    incoming: bool,
    k: int,
    n: int,
) -> (at: (int, int))
    requires
        0 <= k <= list.len(),
        0 <= n < resolve::found(list, entities, id, incoming, k).len(),
    ensures
        ({
            let x = resolve::found(list, entities, id, incoming, k)[n];
            &&& 0 <= at.0 < k
            &&& list[at.0] == x.edge
            &&& 0 <= at.1 < entities.len()
            &&& entities[at.1] == x.entity
            &&& x.entity.id@ != id
            &&& resolve::far_end(x.edge, incoming) == Some(x.entity.id@)
        }),
    decreases k,
{
    let so_far = resolve::found(list, entities, id, incoming, k - 1);
    if k > 0 && n < so_far.len() {
        assert(resolve::found(list, entities, id, incoming, k)[n] == so_far[n]);
        lemma_found_is(list, entities, id, incoming, k - 1, n)
    } else {
        let other = resolve::far_end(list[k - 1], incoming)->0;
        lemma_entity_at(entities, other, 0);
        (k - 1, plan::entity_at(entities, other, 0)->0)
    }
}

proof fn lemma_found_apart(
    list: Seq<Edge>,
    entities: Seq<Entity>,
    id: Seq<char>,
    incoming: bool,
    k: int,
    n: int,
    m: int,
)
    requires
        0 <= k <= list.len(),
        0 <= n < m < resolve::found(list, entities, id, incoming, k).len(),
    ensures
        ({
            let all = resolve::found(list, entities, id, incoming, k);
            all[n].entity.id@ != all[m].entity.id@
        }),
    decreases k,
{
    let so_far = resolve::found(list, entities, id, incoming, k - 1);
    if m < so_far.len() {
        lemma_found_apart(list, entities, id, incoming, k - 1, n, m);
    } else {
        let other = resolve::far_end(list[k - 1], incoming)->0;
        lemma_entity_at(entities, other, 0);
        let (j, _) = lemma_found_is(list, entities, id, incoming, k - 1, n);
        assert(resolve::far_end(list[j], incoming) != Some(other));
    }
}

proof fn lemma_found_all(
    list: Seq<Edge>,
    entities: Seq<Entity>,
    id: Seq<char>,
    incoming: bool,
    k: int,
    j: int,
    e: int,
) -> (n: int)
    requires
        0 <= j < k <= list.len(),
        0 <= e < entities.len(),
        resolve::far_end(list[j], incoming) == Some(entities[e].id@),
        entities[e].id@ != id,
    ensures
        0 <= n < resolve::found(list, entities, id, incoming, k).len(),
        resolve::found(list, entities, id, incoming, k)[n].entity.id@ == entities[e].id@,
    decreases k,
{
    let so_far = resolve::found(list, entities, id, incoming, k - 1);
    let t = entities[e].id@;
    if !resolve::unseen(list, incoming, t, k - 1) {
        let i = choose|i: int| 0 <= i < k - 1 && resolve::far_end(#[trigger] list[i], incoming)
            == Some(t);
        let n = lemma_found_all(list, entities, id, incoming, k - 1, i, e);
        assert(resolve::found(list, entities, id, incoming, k)[n] == so_far[n]);
        n
    } else {
        lemma_entity_at(entities, t, 0);
        so_far.len() as int
    }
}

/// What a request for callers or callees is answered with: of a callee the asked
/// entity is the source, and of a caller the target, by an edge of the ontology. Each
/// is an entity of the ontology and another one than was asked about, and comes once.
pub proof fn law_relations_go_the_way_that_was_asked(
    o: Ontology,
    source: Snapshot,
    memory: Seq<MemoryRecord>,
    env: Envelope,
    entity_id: String,
    relation: RelationDirection,
    known: int,
    n: int,
    m: int,
)
    requires
        0 <= known < o.entities@.len(),
        o.entities@[known].id@ == entity_id@,
    ensures
        ({
            let a = resolve::item_answer(
                o,
                source,
                memory,
                env,
                (ContextRequestItem::SymbolRelations { entity_id, relation }),
            );
            &&& a.item matches Some(DeltaView::Relations { subject, relation: way, found, truncated })
            &&& subject == entity_id@
            &&& way == relation
            &&& 0 <= n < found.len() && relation == RelationDirection::Callees ==> exists|j: int|
                {
                    &&& 0 <= j < o.edges@.len()
                    &&& found[n].edge == #[trigger] o.edges@[j]
                    &&& o.edges@[j].source@ == entity_id@
                    &&& o.edges@[j].target is Some
                    &&& o.edges@[j].target->0@ == found[n].entity.id@
                }
            &&& 0 <= n < found.len() && relation == RelationDirection::Callers ==> exists|j: int|
                {
                    &&& 0 <= j < o.edges@.len()
                    &&& found[n].edge == #[trigger] o.edges@[j]
                    &&& o.edges@[j].source@ == found[n].entity.id@
                    &&& o.edges@[j].target is Some
                    &&& o.edges@[j].target->0@ == entity_id@
                }
            &&& 0 <= n < found.len() ==> found[n].entity.id@ != entity_id@ && exists|e: int|
                0 <= e < o.entities@.len() && found[n].entity == #[trigger] o.entities@[e]
            &&& 0 <= n < m < found.len() ==> found[n].entity.id@ != found[m].entity.id@
        }),
{
    lemma_entity_at(o.entities@, entity_id@, 0);
    let id = entity_id@;
    let incoming = relation == RelationDirection::Callers;
    let limit = resolve::RELATION_RESULTS as int;
    let list = resolve::scanned(o.edges@, id, incoming, limit + 1, 0);
    let k = if list.len() > limit {
        limit
    } else {
        list.len() as int
    };
    lemma_scanned(o.edges@, id, incoming, limit + 1, 0);
    let found = resolve::neighbors_of(o, id, incoming, limit);
    if 0 <= n < found.len() {
        let (at, e) = lemma_found_is(list, o.entities@, id, incoming, k, n);
        assert(resolve::touches(list[at], id, incoming));
        let j = choose|j: int| 0 <= j < o.edges@.len() && #[trigger] o.edges@[j] == list[at];
        assert(found[n].edge == o.edges@[j]);
        assert(found[n].entity == o.entities@[e]);
        if n < m < found.len() {
            lemma_found_apart(list, o.entities@, id, incoming, k, n, m);
        }
    }
}

/// An answer on callers or callees that does not say that it was cut leaves none of
/// them out: whatever entity `e` of the ontology an edge `j` of it leads to from the
/// asked one, or from to the asked one, is in it.
pub proof fn law_uncut_relations_are_complete(
    o: Ontology,
    source: Snapshot,
    memory: Seq<MemoryRecord>,
    env: Envelope,
    entity_id: String,
    relation: RelationDirection,
    known: int,
    j: int,
    e: int,
)
    requires
        0 <= known < o.entities@.len(),
        o.entities@[known].id@ == entity_id@,
        0 <= j < o.edges@.len(),
        0 <= e < o.entities@.len(),
        o.entities@[e].id@ != entity_id@,
        o.edges@[j].target is Some,
        relation == RelationDirection::Callees ==> o.edges@[j].source@ == entity_id@
            && o.edges@[j].target->0@ == o.entities@[e].id@,
        relation == RelationDirection::Callers ==> o.edges@[j].target->0@ == entity_id@
            && o.edges@[j].source@ == o.entities@[e].id@,
    ensures
        ({
            let a = resolve::item_answer(
                o,
                source,
                memory,
                env,
                (ContextRequestItem::SymbolRelations { entity_id, relation }),
            );
            &&& a.item matches Some(DeltaView::Relations { subject, relation: way, found, truncated })
            &&& !truncated ==> exists|n: int|
                0 <= n < found.len() && (#[trigger] found[n]).entity.id@ == o.entities@[e].id@
        }),
{
    lemma_entity_at(o.entities@, entity_id@, 0);
    let id = entity_id@;
    let incoming = relation == RelationDirection::Callers;
    let limit = resolve::RELATION_RESULTS as int;
    let list = resolve::scanned(o.edges@, id, incoming, limit + 1, 0);
    let found = resolve::neighbors_of(o, id, incoming, limit);
    let a = resolve::item_answer(
        o,
        source,
        memory,
        env,
        (ContextRequestItem::SymbolRelations { entity_id, relation }),
    );
    assert(a.item == Some(
        DeltaView::Relations {
            subject: id,
            relation,
            found,
            truncated: resolve::crowded(o, id, incoming, limit),
        },
    ));
    lemma_scanned(o.edges@, id, incoming, limit + 1, 0);
    if list.len() <= limit {
        assert(resolve::touches(o.edges@[j], id, incoming));
        assert(list.contains(o.edges@[j]));
        let at = choose|at: int| 0 <= at < list.len() && list[at] == o.edges@[j];
        let n = lemma_found_all(list, o.entities@, id, incoming, list.len() as int, at, e);
        assert(found[n].entity.id@ == o.entities@[e].id@);
        assert(exists|n: int|
            0 <= n < found.len() && (#[trigger] found[n]).entity.id@ == o.entities@[e].id@);
    } else {
        assert(resolve::crowded(o, id, incoming, limit));
    }
    match a.item {
        Some(DeltaView::Relations { subject, relation: way, found: all, truncated }) => {
            assert(all == found);
            assert(truncated == resolve::crowded(o, id, incoming, limit));
        },
        _ => {},
    }
}

// ---------------------------------------------------------------------------
// Definitions
// ---------------------------------------------------------------------------

/// Whether a slice is exactly the part of the captured file of an entity that the
/// entity covers, from its start on, cut to at most `max` bytes, and says whether it
/// was cut. The file is the one that the entity was derived from.
pub open spec fn defines(source: Snapshot, e: Entity, d: context::SliceView, max: int) -> bool {
    exists|k: int|
        {
            let file = #[trigger] source.files@[k];
            let (from, to) = (e.range.start_byte as int, e.range.end_byte as int);
            &&& 0 <= k < source.files@.len()
            &&& file.path@ == e.provenance.path@
            &&& forall|j: int| 0 <= j < k ==> (#[trigger] source.files@[j]).path@ != file.path@
            &&& file.hash@ == e.provenance.content_hash@
            &&& valid_utf8(file.content@)
            &&& 0 <= from <= to <= file.content@.len()
            &&& d.start_line == e.range.start_line
            &&& d.bytes.len() <= max
            &&& d.bytes.len() <= to - from
            &&& d.bytes == file.content@.subrange(from, from + d.bytes.len())
            &&& d.truncated <==> d.bytes.len() < to - from
        }
}

/// Whether the file that an entity was derived from was captured.
pub open spec fn captured(source: Snapshot, e: Entity) -> bool {
    exists|k: int|
        {
            &&& 0 <= k < source.files@.len()
            &&& (#[trigger] source.files@[k]).path@ == e.provenance.path@
            &&& forall|j: int|
                0 <= j < k ==> (#[trigger] source.files@[j]).path@ != e.provenance.path@
            &&& source.files@[k].hash@ == e.provenance.content_hash@
            &&& valid_utf8(source.files@[k].content@)
        }
}

proof fn lemma_defines(source: Snapshot, e: Entity, max_bytes: int, max_lines: int)
    requires
        0 <= max_bytes,
        0 <= max_lines,
        context::definition_refusal(source, e) is None,
    ensures
        context::definition_of(source, e, max_bytes, max_lines) is Some == captured(source, e),
        context::definition_of(source, e, max_bytes, max_lines) matches Some(d) ==> defines(
            source,
            e,
            d,
            max_bytes,
        ),
{
    lemma_file_at(source.files@, e.provenance.path@, 0);
    match context::file_at(source.files@, e.provenance.path@, 0) {
        None => {},
        Some(k) => {
            let file = source.files@[k];
            if captured(source, e) {
                let j = choose|j: int|
                    {
                        &&& 0 <= j < source.files@.len()
                        &&& (#[trigger] source.files@[j]).path@ == e.provenance.path@
                        &&& forall|i: int|
                            0 <= i < j ==> (#[trigger] source.files@[i]).path@ != e.provenance.path@
                        &&& source.files@[j].hash@ == e.provenance.content_hash@
                        &&& valid_utf8(source.files@[j].content@)
                    };
                assert(source.files@[k].path@ == e.provenance.path@);
                assert(j == k);
            }
            if let Some(d) = context::definition_of(source, e, max_bytes, max_lines) {
                assert(file.path@ == e.provenance.path@);
                assert(captured(source, e));
                let (from, to) = (e.range.start_byte as int, e.range.end_byte as int);
                excerpt::law_a_bounded_part_is_bounded(
                    file.content@,
                    from,
                    to,
                    max_bytes,
                    max_lines,
                );
                let cut = excerpt::bounded_end(file.content@, from, to, max_bytes, max_lines);
                assert(d.bytes =~= file.content@.subrange(from, from + d.bytes.len()));
                assert(defines(source, e, d, max_bytes)) by {
                    assert(source.files@[k].path@ == e.provenance.path@);
                }
            }
        },
    }
}

/// A request for the definition of an entity is answered with exactly that entity of
/// the ontology, and with the captured source it was derived from. It is not found
/// where the ontology has no such entity, and stale where its source was not captured.
/// It is granted if and only if its file lies in a scope of the envelope.
pub proof fn law_definitions_are_the_captured_source(
    o: Ontology,
    source: Snapshot,
    memory: Seq<MemoryRecord>,
    env: Envelope,
    entity_id: String,
)
    requires
        resolve::item_refusal(
            o,
            source,
            (ContextRequestItem::SymbolDefinition { entity_id }),
        ) is None,
    ensures
        ({
            let a = resolve::item_answer(
                o,
                source,
                memory,
                env,
                (ContextRequestItem::SymbolDefinition { entity_id }),
            );
            &&& a.outcome == ItemOutcome::NotFound <==> forall|i: int|
                0 <= i < o.entities@.len() ==> (#[trigger] o.entities@[i]).id@ != entity_id@
            &&& a.item is None <==> a.outcome == ItemOutcome::NotFound || a.outcome
                == ItemOutcome::Stale
            &&& a.outcome != ItemOutcome::NotFound ==> exists|i: int|
                {
                    let e = #[trigger] o.entities@[i];
                    &&& 0 <= i < o.entities@.len()
                    &&& e.id@ == entity_id@
                    &&& a.outcome == ItemOutcome::Stale <==> !captured(source, e)
                    &&& a.item is Some ==> symbol_of(source, e, a.item->0)
                    &&& a.item is Some ==> (a.outcome == ItemOutcome::Granted <==> allowed(
                        env,
                        e.provenance.path@,
                    ))
                }
        }),
{
    lemma_entity_at(o.entities@, entity_id@, 0);
    if let Some(i) = plan::entity_at(o.entities@, entity_id@, 0) {
        assert(o.entities@[i].id@ == entity_id@);
        lemma_symbol(source, env, o.entities@[i]);
    }
}

/// Whether a scope of the envelope allows a path.
pub open spec fn allowed(env: Envelope, path: Seq<char>) -> bool {
    exists|r: int| 0 <= r < env.scopes@.len() && scope::allows(#[trigger] env.scopes@[r], path)
}

/// Whether an answer is an entity and its captured definition.
pub open spec fn symbol_of(source: Snapshot, e: Entity, v: DeltaView) -> bool {
    match v {
        DeltaView::Symbol { entity, definition } => entity == e && defines(
            source,
            e,
            definition,
            resolve::DELTA_DEFINITION_BYTES as int,
        ),
        _ => false,
    }
}

proof fn lemma_symbol(source: Snapshot, env: Envelope, e: Entity)
    requires
        context::definition_refusal(source, e) is None,
    ensures
        ({
            let a = resolve::symbol_answer(source, env, e);
            &&& a.outcome != ItemOutcome::NotFound
            &&& a.outcome == ItemOutcome::Stale <==> !captured(source, e)
            &&& a.item is None <==> a.outcome == ItemOutcome::Stale
            &&& a.item is Some ==> symbol_of(source, e, a.item->0)
            &&& a.item is Some ==> (a.outcome == ItemOutcome::Granted <==> allowed(
                env,
                e.provenance.path@,
            ))
            &&& a.item is Some ==> a.outcome == ItemOutcome::Granted || a.outcome
                == ItemOutcome::OutsideEnvelope
        }),
{
    let (b, l) = (
        resolve::DELTA_DEFINITION_BYTES as int,
        resolve::DELTA_DEFINITION_LINES as int,
    );
    lemma_defines(source, e, b, l);
    if let Some(d) = context::definition_of(source, e, b, l) {
        let touched = seq![e.provenance.path@];
        lemma_finished(env, DeltaView::Symbol { entity: e, definition: d }, touched);
        assert(touched[0] == e.provenance.path@);
        assert(env.reaches(e.provenance.path@) == allowed(env, e.provenance.path@));
    }
}

// ---------------------------------------------------------------------------
// Names
// ---------------------------------------------------------------------------

proof fn lemma_named(entities: Seq<Entity>, name: Seq<char>, limit: int, i: int)
    requires
        0 <= i,
    ensures
        ({
            let list = resolve::named(entities, name, limit, i);
            &&& list.len() <= limit || list.len() == 0
            &&& forall|n: int|
                0 <= n < list.len() ==> resolve::goes_by(#[trigger] list[n], name)
                    && entities.contains(list[n])
            &&& list.len() < limit ==> forall|k: int|
                i <= k < entities.len() && resolve::goes_by(#[trigger] entities[k], name)
                    ==> list.contains(entities[k])
            &&& list.len() == 0 && limit > 0 ==> forall|k: int|
                i <= k < entities.len() ==> !resolve::goes_by(#[trigger] entities[k], name)
            &&& list.len() == 1 && limit > 1 ==> exists|k: int|
                i <= k < entities.len() && #[trigger] entities[k] == list[0] && forall|j: int|
                    i <= j < entities.len() && j != k ==> !resolve::goes_by(
                        #[trigger] entities[j],
                        name,
                    )
            &&& list.len() >= 2 ==> exists|k: int, j: int|
                i <= k < j < entities.len() && resolve::goes_by(#[trigger] entities[k], name)
                    && resolve::goes_by(#[trigger] entities[j], name)
        }),
    decreases entities.len() - i,
{
    let list = resolve::named(entities, name, limit, i);
    if i < entities.len() && limit > 0 {
        if resolve::goes_by(entities[i], name) {
            lemma_named(entities, name, limit - 1, i + 1);
            let rest = resolve::named(entities, name, limit - 1, i + 1);
            assert(list[0] == entities[i]);
            assert forall|n: int| 0 <= n < list.len() implies resolve::goes_by(
                #[trigger] list[n],
                name,
            ) && entities.contains(list[n]) by {
                if n > 0 {
                    assert(list[n] == rest[n - 1]);
                }
            }
            if list.len() < limit {
                assert forall|k: int|
                    i <= k < entities.len() && resolve::goes_by(
                        #[trigger] entities[k],
                        name,
                    ) implies list.contains(entities[k]) by {
                    if k > i {
                        assert(rest.contains(entities[k]));
                        let m = choose|m: int| 0 <= m < rest.len() && rest[m] == entities[k];
                        assert(list[m + 1] == entities[k]);
                    }
                }
            }
            if list.len() == 1 && limit > 1 {
                assert(rest.len() == 0);
                assert(entities[i] == list[0]);
            }
            if list.len() >= 2 {
                assert(rest.len() >= 1);
                lemma_named_first(entities, name, limit - 1, i + 1);
                let j = choose|j: int|
                    i + 1 <= j < entities.len() && #[trigger] entities[j] == rest[0];
                assert(resolve::goes_by(entities[i], name) && resolve::goes_by(
                    entities[j],
                    name,
                ));
            }
        } else {
            lemma_named(entities, name, limit, i + 1);
            if list.len() == 1 && limit > 1 {
                let k = choose|k: int|
                    i + 1 <= k < entities.len() && #[trigger] entities[k] == list[0]
                        && forall|j: int|
                        i + 1 <= j < entities.len() && j != k ==> !resolve::goes_by(
                            #[trigger] entities[j],
                            name,
                        );
                assert(entities[k] == list[0]);
            }
        }
    }
}

proof fn lemma_named_first(entities: Seq<Entity>, name: Seq<char>, limit: int, i: int)
    requires
        0 <= i,
        resolve::named(entities, name, limit, i).len() >= 1,
    ensures
        exists|j: int|
            i <= j < entities.len() && #[trigger] entities[j] == resolve::named(
                entities,
                name,
                limit,
                i,
            )[0],
    decreases entities.len() - i,
{
    if resolve::goes_by(entities[i], name) {
        assert(entities[i] == resolve::named(entities, name, limit, i)[0]);
    } else {
        lemma_named_first(entities, name, limit, i + 1);
    }
}

/// Whether an entity has exactly this identifier, name or qualified name.
pub open spec fn is_called(e: Entity, name: Seq<char>) -> bool {
    ||| e.id@ == name
    ||| e.name@ == name
    ||| e.qualified_name@ == name
}

/// A request by name is answered where exactly one entity of the ontology is called
/// so, and with that entity and its captured source. It is not found where none is,
/// and ambiguous where several are.
pub proof fn law_names_are_answered_where_they_are_unique(
    o: Ontology,
    source: Snapshot,
    memory: Seq<MemoryRecord>,
    env: Envelope,
    name: String,
)
    requires
        resolve::item_refusal(o, source, (ContextRequestItem::SymbolByName { name })) is None,
    ensures
        ({
            let a = resolve::item_answer(
                o,
                source,
                memory,
                env,
                (ContextRequestItem::SymbolByName { name }),
            );
            &&& a.outcome == ItemOutcome::NotFound <==> forall|i: int|
                0 <= i < o.entities@.len() ==> !is_called(#[trigger] o.entities@[i], name@)
            &&& a.outcome == ItemOutcome::Ambiguous <==> exists|i: int, j: int|
                0 <= i < j < o.entities@.len() && is_called(#[trigger] o.entities@[i], name@)
                    && is_called(#[trigger] o.entities@[j], name@)
            &&& a.outcome == ItemOutcome::NotFound || a.outcome == ItemOutcome::Ambiguous
                ==> a.item is None
            &&& a.item is Some ==> exists|i: int|
                {
                    &&& 0 <= i < o.entities@.len()
                    &&& is_called(#[trigger] o.entities@[i], name@)
                    &&& symbol_of(source, o.entities@[i], a.item->0)
                    &&& a.outcome == ItemOutcome::Granted <==> allowed(
                        env,
                        o.entities@[i].provenance.path@,
                    )
                }
        }),
{
    let limit = resolve::NAME_CANDIDATES as int;
    let list = resolve::named(o.entities@, name@, limit, 0);
    lemma_named(o.entities@, name@, limit, 0);
    assert forall|e: Entity| resolve::goes_by(e, name@) == #[trigger] is_called(e, name@) by {}
    if list.len() == 1 {
        lemma_symbol(source, env, list[0]);
        let k = choose|k: int|
            0 <= k < o.entities@.len() && #[trigger] o.entities@[k] == list[0] && forall|j: int|
                0 <= j < o.entities@.len() && j != k ==> !resolve::goes_by(
                    #[trigger] o.entities@[j],
                    name@,
                );
        assert(is_called(o.entities@[k], name@));
    } else if list.len() >= 2 {
        let (k, j) = choose|k: int, j: int|
            0 <= k < j < o.entities@.len() && resolve::goes_by(#[trigger] o.entities@[k], name@)
                && resolve::goes_by(#[trigger] o.entities@[j], name@);
        assert(is_called(o.entities@[k], name@) && is_called(o.entities@[j], name@));
    }
}

// ---------------------------------------------------------------------------
// Memory
// ---------------------------------------------------------------------------

/// Whether a linked file, or the file of a linked entity of the ontology, is at a path.
pub open spec fn links_to(o: Ontology, m: MemoryRecord, path: Seq<char>) -> bool {
    exists|i: int|
        0 <= i < m.links@.len() && match #[trigger] m.links@[i] {
            MemoryLink::File { path: p } => p@ == path,
            MemoryLink::Graph { id } => match plan::entity_at(o.entities@, id@, 0) {
                Some(n) => o.entities@[n].provenance.path@ == path,
                None => false,
            },
            MemoryLink::Other => false,
        }
}

proof fn lemma_link_paths(o: Ontology, links: Seq<MemoryLink>, i: int, path: Seq<char>)
    requires
        0 <= i,
    ensures
        resolve::link_paths(o, links, i).contains(path) <==> exists|k: int|
            i <= k < links.len() && match #[trigger] links[k] {
                MemoryLink::File { path: p } => p@ == path,
                MemoryLink::Graph { id } => match plan::entity_at(o.entities@, id@, 0) {
                    Some(n) => o.entities@[n].provenance.path@ == path,
                    None => false,
                },
                MemoryLink::Other => false,
            },
    decreases links.len() - i,
{
    if i < links.len() {
        lemma_link_paths(o, links, i + 1, path);
        let all = resolve::link_paths(o, links, i);
        let rest = resolve::link_paths(o, links, i + 1);
        if all.len() > rest.len() {
            if rest.contains(path) {
                let m = choose|m: int| 0 <= m < rest.len() && rest[m] == path;
                assert(all[m + 1] == path);
            }
            if all.contains(path) {
                let m = choose|m: int| 0 <= m < all.len() && all[m] == path;
                if m > 0 {
                    assert(rest[m - 1] == path);
                    assert(rest.contains(path));
                } else {
                    assert(all[0] == path);
                    assert(match links[i] {
                        MemoryLink::File { path: p } => p@ == path,
                        MemoryLink::Graph { id } => match plan::entity_at(o.entities@, id@, 0) {
                            Some(n) => o.entities@[n].provenance.path@ == path,
                            None => false,
                        },
                        MemoryLink::Other => false,
                    });
                }
            }
            assert(all[0] == all[0]);
        }
    }
}

/// A memory is granted only where it is active and not stale, and either the planner
/// named it, or it is no agent's note, is linked to some file, and every file it is
/// linked to lies in a scope of the envelope. Nothing is said of it where it is absent
/// or stale, and what is said is the record itself.
pub proof fn law_memory_is_granted_by_name_or_by_its_links(
    o: Ontology,
    source: Snapshot,
    memory: Seq<MemoryRecord>,
    env: Envelope,
    memory_id: String,
    path: Seq<char>,
)
    ensures
        ({
            let a = resolve::item_answer(
                o,
                source,
                memory,
                env,
                (ContextRequestItem::Memory { memory_id }),
            );
            &&& a.outcome == ItemOutcome::NotFound <==> forall|i: int|
                0 <= i < memory.len() ==> (#[trigger] memory[i]).id@ != memory_id@
            &&& a.outcome != ItemOutcome::NotFound ==> exists|i: int|
                {
                    let m = #[trigger] memory[i];
                    let selected = exists|k: int|
                        0 <= k < env.memory@.len() && (#[trigger] env.memory@[k])@ == memory_id@;
                    &&& 0 <= i < memory.len()
                    &&& m.id@ == memory_id@
                    &&& a.outcome == ItemOutcome::Stale <==> !m.active || m.stale
                    &&& a.item is Some <==> m.active && !m.stale
                    &&& a.item is Some ==> a.item->0 == (DeltaView::Memory { record: m })
                    &&& m.active && !m.stale && selected ==> a.outcome == ItemOutcome::Granted
                    &&& a.outcome == ItemOutcome::Granted && !selected ==> !m.agent_note && (
                    links_to(o, m, path) ==> allowed(env, path)) && exists|p: Seq<char>| #[trigger]
                        links_to(o, m, p)
                }
        }),
{
    lemma_memory_at(memory, memory_id@, 0);
    if let Some(k) = context::memory_at(memory, memory_id@, 0) {
        let m = memory[k];
        let v = DeltaView::Memory { record: m };
        assert(m.id@ == memory_id@);
        let listed = text::texts(env.memory@);
        assert(listed.contains(memory_id@) <==> exists|j: int|
            0 <= j < env.memory@.len() && (#[trigger] env.memory@[j])@ == memory_id@) by {
            if listed.contains(memory_id@) {
                let j = choose|j: int| 0 <= j < listed.len() && listed[j] == memory_id@;
                assert(env.memory@[j]@ == memory_id@);
            }
            if exists|j: int| 0 <= j < env.memory@.len() && (#[trigger] env.memory@[j])@ == memory_id@ {
                let j = choose|j: int|
                    0 <= j < env.memory@.len() && (#[trigger] env.memory@[j])@ == memory_id@;
                assert(listed[j] == memory_id@);
            }
        }
        lemma_finished(env, v, Seq::empty());
        let touched = resolve::link_paths(o, m.links@, 0);
        lemma_finished(env, v, touched);
        lemma_link_paths(o, m.links@, 0, path);
        if touched.len() > 0 {
            lemma_link_paths(o, m.links@, 0, touched[0]);
            assert(touched.contains(touched[0]));
            assert(links_to(o, m, touched[0]));
        }
        if links_to(o, m, path) && resolve::finished(env, v, touched).outcome
            == ItemOutcome::Granted {
            assert(touched.contains(path));
            let j = choose|j: int| 0 <= j < touched.len() && touched[j] == path;
            assert(env.reaches(touched[j]));
            assert(allowed(env, path));
        }
    }
}

// ---------------------------------------------------------------------------
// What relations touch, and tests
// ---------------------------------------------------------------------------

/// Callers or callees are granted if and only if the files of the asked entity and of
/// every one that is found lie in scopes of the envelope.
pub proof fn law_relations_are_granted_inside_the_envelope(
    o: Ontology,
    source: Snapshot,
    memory: Seq<MemoryRecord>,
    env: Envelope,
    entity_id: String,
    relation: RelationDirection,
)
    ensures
        ({
            let a = resolve::item_answer(
                o,
                source,
                memory,
                env,
                (ContextRequestItem::SymbolRelations { entity_id, relation }),
            );
            &&& a.outcome == ItemOutcome::NotFound <==> forall|i: int|
                0 <= i < o.entities@.len() ==> (#[trigger] o.entities@[i]).id@ != entity_id@
            &&& a.item is None <==> a.outcome == ItemOutcome::NotFound
            &&& a.item is Some ==> exists|i: int|
                {
                    &&& 0 <= i < o.entities@.len()
                    &&& (#[trigger] o.entities@[i]).id@ == entity_id@
                    &&& a.item matches Some(DeltaView::Relations { found, .. })
                    &&& a.outcome == ItemOutcome::Granted <==> (allowed(
                        env,
                        o.entities@[i].provenance.path@,
                    ) && forall|n: int|
                        0 <= n < found.len() ==> allowed(
                            env,
                            (#[trigger] found[n]).entity.provenance.path@,
                        ))
                }
        }),
{
    lemma_entity_at(o.entities@, entity_id@, 0);
    if let Some(i) = plan::entity_at(o.entities@, entity_id@, 0) {
        let e = o.entities@[i];
        assert(e.id@ == entity_id@);
        let incoming = relation == RelationDirection::Callers;
        let found = resolve::neighbors_of(o, e.id@, incoming, resolve::RELATION_RESULTS as int);
        let paths = resolve::neighbor_paths(found);
        let touched = seq![e.provenance.path@] + paths;
        let v = DeltaView::Relations {
            subject: e.id@,
            relation,
            found,
            truncated: resolve::crowded(o, e.id@, incoming, resolve::RELATION_RESULTS as int),
        };
        lemma_finished(env, v, touched);
        assert forall|p: Seq<char>| env.reaches(p) == #[trigger] allowed(env, p) by {}
        assert(touched[0] == e.provenance.path@);
        if allowed(env, e.provenance.path@) && forall|n: int|
            0 <= n < found.len() ==> allowed(env, (#[trigger] found[n]).entity.provenance.path@) {
            assert forall|k: int| 0 <= k < touched.len() implies env.reaches(
                #[trigger] touched[k],
            ) by {
                if k > 0 {
                    assert(touched[k] == found[k - 1].entity.provenance.path@);
                    assert(allowed(env, found[k - 1].entity.provenance.path@));
                } else {
                    assert(allowed(env, touched[0]));
                }
            }
        }
        if forall|k: int| 0 <= k < touched.len() ==> env.reaches(#[trigger] touched[k]) {
            assert(env.reaches(touched[0]));
            assert forall|n: int| 0 <= n < found.len() implies allowed(
                env,
                (#[trigger] found[n]).entity.provenance.path@,
            ) by {
                assert(touched[n + 1] == found[n].entity.provenance.path@);
                assert(env.reaches(touched[n + 1]));
            }
        }
    }
}

proof fn lemma_associated(list: Seq<Association>, id: Seq<char>, limit: int, i: int)
    requires
        0 <= i,
    ensures
        ({
            let all = resolve::associated(list, id, limit, i);
            &&& all.len() <= limit || all.len() == 0
            &&& forall|n: int|
                0 <= n < all.len() ==> (#[trigger] all[n]).subject@ == id && list.contains(all[n])
            &&& all.len() < limit ==> forall|k: int|
                i <= k < list.len() && (#[trigger] list[k]).subject@ == id ==> all.contains(list[k])
        }),
    decreases list.len() - i,
{
    let all = resolve::associated(list, id, limit, i);
    if i < list.len() && limit > 0 {
        if list[i].subject@ == id {
            lemma_associated(list, id, limit - 1, i + 1);
            let rest = resolve::associated(list, id, limit - 1, i + 1);
            assert(all[0] == list[i]);
            assert forall|n: int| 0 <= n < all.len() implies (#[trigger] all[n]).subject@ == id
                && list.contains(all[n]) by {
                if n > 0 {
                    assert(all[n] == rest[n - 1]);
                }
            }
            if all.len() < limit {
                assert forall|k: int|
                    i <= k < list.len() && (
                    #[trigger] list[k]).subject@ == id implies all.contains(list[k]) by {
                    if k > i {
                        assert(rest.contains(list[k]));
                        let m = choose|m: int| 0 <= m < rest.len() && rest[m] == list[k];
                        assert(all[m + 1] == list[k]);
                    }
                }
            }
        } else {
            lemma_associated(list, id, limit, i + 1);
        }
    }
}

/// A request for related tests is answered with tests that the ontology associates
/// with the asked entity, at most so many; and where the answer does not say that it
/// was cut, with all of them. Each comes with its captured definition.
pub proof fn law_related_tests_are_the_associated_ones(
    o: Ontology,
    source: Snapshot,
    memory: Seq<MemoryRecord>,
    env: Envelope,
    entity_id: String,
    n: int,
    k: int,
)
    requires
        resolve::item_refusal(o, source, (ContextRequestItem::RelatedTests { entity_id })) is None,
    ensures
        ({
            let a = resolve::item_answer(
                o,
                source,
                memory,
                env,
                (ContextRequestItem::RelatedTests { entity_id }),
            );
            &&& a.outcome == ItemOutcome::NotFound <==> forall|i: int|
                0 <= i < o.entities@.len() ==> (#[trigger] o.entities@[i]).id@ != entity_id@
            &&& a.item is Some ==> {
                &&& a.item matches Some(DeltaView::Tests { subject, tests, definitions, truncated })
                &&& subject == entity_id@
                &&& tests.len() == definitions.len() <= resolve::TEST_RESULTS
                &&& 0 <= n < tests.len() ==> tests[n].subject@ == entity_id@
                    && o.associations@.contains(tests[n]) && defines(
                    source,
                    tests[n].test,
                    definitions[n],
                    resolve::TEST_EXCERPT_BYTES as int,
                )
                &&& 0 <= n < tests.len() && a.outcome == ItemOutcome::Granted ==> allowed(
                    env,
                    tests[n].test.provenance.path@,
                )
                &&& 0 <= k < o.associations@.len() && o.associations@[k].subject@ == entity_id@
                    && !truncated ==> tests.contains(o.associations@[k])
            }
        }),
{
    lemma_entity_at(o.entities@, entity_id@, 0);
    if let Some(i) = plan::entity_at(o.entities@, entity_id@, 0) {
        let e = o.entities@[i];
        assert(e.id@ == entity_id@);
        let limit = resolve::TEST_RESULTS + 1;
        let list = resolve::associated(o.associations@, e.id@, limit, 0);
        let tests = resolve::shown_tests(o, e);
        lemma_associated(o.associations@, e.id@, limit, 0);
        if resolve::first_unshown(source, tests, 0) is None {
            let definitions = tests.map_values(
                |a: Association| resolve::test_definition(source, a.test)->0,
            );
            let paths = tests.map_values(|a: Association| a.test.provenance.path@);
            let touched = seq![e.provenance.path@] + paths;
            let v = DeltaView::Tests {
                subject: e.id@,
                tests,
                definitions,
                truncated: list.len() > resolve::TEST_RESULTS,
            };
            lemma_finished(env, v, touched);
            if 0 <= n < tests.len() {
                assert(tests[n] == list[n]);
                lemma_unshown(source, tests, 0, n);
                lemma_defines(
                    source,
                    tests[n].test,
                    resolve::TEST_EXCERPT_BYTES as int,
                    resolve::TEST_EXCERPT_LINES as int,
                );
                assert(touched[n + 1] == tests[n].test.provenance.path@);
                assert(env.reaches(touched[n + 1]) == allowed(
                    env,
                    tests[n].test.provenance.path@,
                ));
            }
        }
    }
}

proof fn lemma_unshown(source: Snapshot, tests: Seq<Association>, i: int, n: int)
    requires
        0 <= i <= n < tests.len(),
        resolve::first_unshown(source, tests, i) is None,
    ensures
        resolve::test_definition(source, tests[n].test) is Some,
        context::definition_refusal(source, tests[n].test) is None,
    decreases n - i,
{
    if i < n {
        lemma_unshown(source, tests, i + 1, n);
    }
}

// ---------------------------------------------------------------------------
// Lines of a file
// ---------------------------------------------------------------------------

/// How many line breaks there are among the first `k` bytes.
pub open spec fn newlines(bytes: Seq<u8>, k: int) -> int
    decreases k,
{
    if k <= 0 {
        0
    } else {
        newlines(bytes, k - 1) + if bytes[k - 1] == 10u8 {
            1int
        } else {
            0
        }
    }
}

/// How many lines there are: one for every line break, and one for what follows the
/// last of them.
pub open spec fn line_count(bytes: Seq<u8>) -> int {
    newlines(bytes, bytes.len() as int) + if bytes.len() > 0 && bytes[bytes.len() - 1] != 10u8 {
        1int
    } else {
        0
    }
}

proof fn lemma_newlines_grow(bytes: Seq<u8>, a: int, b: int)
    requires
        0 <= a <= b,
    ensures
        newlines(bytes, a) <= newlines(bytes, b),
    decreases b,
{
    if a < b {
        lemma_newlines_grow(bytes, a, b - 1);
    }
}

proof fn lemma_breaks(bytes: Seq<u8>, at: int, end: int)
    requires
        0 <= at <= end,
    ensures
        excerpt::breaks(bytes, at, end) == newlines(bytes, end) - newlines(bytes, at),
    decreases end - at,
{
    if at < end {
        lemma_breaks(bytes, at + 1, end);
    }
}

proof fn lemma_line_end(bytes: Seq<u8>, at: int, end: int, lines: int)
    requires
        0 <= at <= end <= bytes.len(),
        lines > 0,
    ensures
        ({
            let e = excerpt::line_end(bytes, at, end, lines);
            &&& at <= e <= end
            &&& newlines(bytes, e) - newlines(bytes, at) <= lines
            &&& newlines(bytes, end) - newlines(bytes, at) >= lines ==> newlines(bytes, e)
                - newlines(bytes, at) == lines && e > 0 && bytes[e - 1] == 10u8
            &&& newlines(bytes, end) - newlines(bytes, at) < lines ==> e == end
        }),
    decreases end - at,
{
    if at < end {
        lemma_newlines_grow(bytes, at + 1, end);
        if bytes[at] == 10u8 {
            if lines > 1 {
                lemma_line_end(bytes, at + 1, end, lines - 1);
            }
        } else {
            lemma_line_end(bytes, at + 1, end, lines);
        }
    }
}

/// A request for lines of a captured text file is answered with exactly those lines:
/// what is shown starts after as many line breaks as there are lines before it, and
/// ends with the last line that was asked for and that there is. It is out of range
/// where the file has fewer lines than the first one asked for, and granted if and
/// only if the file lies in a scope of the envelope.
pub proof fn law_file_ranges_are_the_asked_lines(
    o: Ontology,
    source: Snapshot,
    memory: Seq<MemoryRecord>,
    env: Envelope,
    path: String,
    start_line: u32,
    end_line: u32,
    k: int,
)
    requires
        1 <= start_line <= end_line,
        0 <= k < source.files@.len(),
        source.files@[k].path@ == path@,
        forall|j: int| 0 <= j < k ==> (#[trigger] source.files@[j]).path@ != path@,
    ensures
        ({
            let bytes = source.files@[k].content@;
            let a = resolve::item_answer(
                o,
                source,
                memory,
                env,
                (ContextRequestItem::FileRange { path, start_line, end_line }),
            );
            &&& a.outcome == ItemOutcome::Binary <==> !valid_utf8(bytes)
            &&& a.outcome == ItemOutcome::OutOfRange <==> valid_utf8(bytes) && start_line
                > line_count(bytes)
            &&& a.outcome == ItemOutcome::Granted <==> valid_utf8(bytes) && start_line
                <= line_count(bytes) && allowed(env, path@)
            &&& a.item is Some ==> {
                &&& a.item matches Some(
                    DeltaView::FileRange { path: p, hash, start_line: from, end_line: to, bytes: part },
                )
                &&& p == path@
                &&& hash == source.files@[k].hash@
                &&& from == start_line
                &&& to == if end_line < line_count(bytes) {
                    end_line as int
                } else {
                    line_count(bytes)
                }
                &&& exists|x: int, y: int|
                    {
                        &&& 0 <= x <= y <= bytes.len()
                        &&& part == #[trigger] bytes.subrange(x, y)
                        &&& newlines(bytes, x) == start_line - 1
                        &&& x > 0 ==> bytes[x - 1] == 10u8
                        &&& y < bytes.len() ==> newlines(bytes, y) == to && bytes[y - 1] == 10u8
                        &&& end_line >= line_count(bytes) ==> y == bytes.len()
                    }
            }
        }),
{
    let bytes = source.files@[k].content@;
    let n = bytes.len() as int;
    lemma_file_at(source.files@, path@, 0);
    assert(context::file_at(source.files@, path@, 0) == Some(k));
    lemma_breaks(bytes, 0, n);
    assert(bytes.len() > 0 ==> bytes.last() == bytes[n - 1]);
    let count = excerpt::lines(bytes);
    assert(count == line_count(bytes));
    if valid_utf8(bytes) && start_line <= count {
        let last = if end_line < count {
            end_line as int
        } else {
            count
        };
        let x = resolve::line_start(bytes, start_line - 1);
        let y = resolve::line_start(bytes, last);
        if start_line > 1 {
            lemma_line_end(bytes, 0, n, start_line - 1);
        }
        lemma_line_end(bytes, 0, n, last);
        if start_line > 1 && newlines(bytes, n) < start_line - 1 {
            assert(false);
        }
        lemma_order(bytes, x, y, start_line as int, last);
        let part = bytes.subrange(x, y);
        let v = DeltaView::FileRange {
            path: path@,
            hash: source.files@[k].hash@,
            start_line: start_line as int,
            end_line: last,
            bytes: part,
        };
        lemma_finished(env, v, seq![path@]);
        assert(seq![path@][0] == path@);
        assert(env.reaches(path@) == allowed(env, path@));
        if end_line >= count && y < n {
            assert(newlines(bytes, y) == count);
            lemma_newlines_grow(bytes, y, n - 1);
            assert(false);
        }
        assert(part == bytes.subrange(x, y));
    }
}

proof fn lemma_order(bytes: Seq<u8>, x: int, y: int, first: int, last: int)
    requires
        1 <= first <= last,
        0 <= x <= bytes.len(),
        0 <= y <= bytes.len(),
        newlines(bytes, x) == first - 1,
        y == bytes.len() || newlines(bytes, y) == last,
    ensures
        x <= y,
{
    if y < x {
        lemma_newlines_grow(bytes, y, x);
    }
}

// ---------------------------------------------------------------------------
// Neighborhoods
// ---------------------------------------------------------------------------

/// Whether a web is drawn from the ontology: its entities are the one it starts from
/// and others of the ontology, and every link of it is an edge, from its source to its
/// target.
spec fn drawn(w: resolve::WebView, o: Ontology, e: Entity) -> bool {
    &&& w.order.len() > 0
    &&& w.order[0] == e
    &&& forall|i: int|
        0 < i < w.order.len() ==> o.entities@.contains(#[trigger] w.order[i])
    &&& forall|i: int| 0 <= i < w.links.len() ==> links_by(o, #[trigger] w.links[i])
}

/// Whether a link is an edge of the ontology.
pub open spec fn links_by(o: Ontology, l: resolve::Linked) -> bool {
    exists|j: int|
        {
            let edge = #[trigger] o.edges@[j];
            &&& 0 <= j < o.edges@.len()
            &&& edge.id@ == l.edge_id@
            &&& edge.source@ == l.fact.source@
            &&& edge.target is Some
            &&& edge.target->0@ == l.fact.target@
            &&& edge.kind == l.fact.kind
            &&& edge.resolution == l.fact.resolution
        }
}

proof fn lemma_joined(
    w: resolve::WebView,
    o: Ontology,
    e: Entity,
    id: String,
    incoming: bool,
    n: Neighbor,
)
    requires
        drawn(w, o, e),
        o.entities@.contains(n.entity),
        resolve::far_end(n.edge, incoming) == Some(n.entity.id@),
        resolve::touches(n.edge, id@, incoming),
        exists|j: int| 0 <= j < o.edges@.len() && #[trigger] o.edges@[j] == n.edge,
    ensures
        drawn(resolve::joined(w, id, incoming, n), o, e),
{
    let l = resolve::link_of(id, incoming, n);
    let j = choose|j: int| 0 <= j < o.edges@.len() && #[trigger] o.edges@[j] == n.edge;
    assert(o.edges@[j].id@ == l.edge_id@);
    assert(links_by(o, l));
    let q = resolve::joined(w, id, incoming, n);
    assert forall|i: int| 0 < i < q.order.len() implies o.entities@.contains(
        #[trigger] q.order[i],
    ) by {
        if i < w.order.len() {
            assert(q.order[i] == w.order[i]);
        }
    }
    assert forall|i: int| 0 <= i < q.links.len() implies links_by(o, #[trigger] q.links[i]) by {
        if i < w.links.len() {
            assert(q.links[i] == w.links[i]);
        }
    }
}

proof fn lemma_joined_all(
    w: resolve::WebView,
    o: Ontology,
    e: Entity,
    id: String,
    incoming: bool,
    limit: int,
    k: int,
)
    requires
        drawn(w, o, e),
        0 <= limit,
        0 <= k <= resolve::neighbors_of(o, id@, incoming, limit).len(),
    ensures
        drawn(
            resolve::joined_all(w, id, incoming, resolve::neighbors_of(o, id@, incoming, limit), k),
            o,
            e,
        ),
    decreases k,
{
    if k > 0 {
        lemma_joined_all(w, o, e, id, incoming, limit, k - 1);
        let all = resolve::neighbors_of(o, id@, incoming, limit);
        let before = resolve::joined_all(w, id, incoming, all, k - 1);
        let list = resolve::scanned(o.edges@, id@, incoming, limit + 1, 0);
        let count = if list.len() > limit {
            limit
        } else {
            list.len() as int
        };
        lemma_scanned(o.edges@, id@, incoming, limit + 1, 0);
        let (at, x) = lemma_found_is(list, o.entities@, id@, incoming, count, k - 1);
        assert(resolve::touches(list[at], id@, incoming));
        assert(o.entities@[x] == all[k - 1].entity);
        lemma_joined(before, o, e, id, incoming, all[k - 1]);
    }
}

proof fn lemma_visited(w: resolve::WebView, o: Ontology, e: Entity, frontier: Seq<String>, k: int)
    requires
        drawn(w, o, e),
        0 <= k <= frontier.len(),
    ensures
        drawn(resolve::visited(w, o, frontier, k), o, e),
    decreases k,
{
    if k > 0 {
        lemma_visited(w, o, e, frontier, k - 1);
        let before = resolve::visited(w, o, frontier, k - 1);
        let id = frontier[k - 1];
        lemma_swept(before, o, e, id, true);
        lemma_swept(resolve::swept(before, o, id, true), o, e, id, false);
    }
}

proof fn lemma_swept(w: resolve::WebView, o: Ontology, e: Entity, id: String, incoming: bool)
    requires
        drawn(w, o, e),
    ensures
        drawn(resolve::swept(w, o, id, incoming), o, e),
{
    let limit = resolve::EDGE_SCAN as int;
    let start = resolve::WebView {
        truncated: w.truncated || resolve::crowded(o, id@, incoming, limit),
        ..w
    };
    let all = resolve::neighbors_of(o, id@, incoming, limit);
    lemma_joined_all(start, o, e, id, incoming, limit, all.len() as int);
}

proof fn lemma_levels(w: resolve::WebView, o: Ontology, e: Entity, depth: int)
    requires
        drawn(w, o, e),
    ensures
        drawn(resolve::levels(w, o, depth), o, e),
    decreases depth,
{
    if depth > 0 {
        let start = resolve::WebView { next: Seq::empty(), ..w };
        lemma_visited(start, o, e, w.next, w.next.len() as int);
        lemma_levels(
            resolve::visited(start, o, w.next, w.next.len() as int),
            o,
            e,
            depth - 1,
        );
    }
}

proof fn lemma_last_fact(links: Seq<resolve::Linked>, id: Seq<char>, k: int)
    requires
        0 <= k <= links.len(),
    ensures
        match resolve::last_fact(links, id, k) {
            Some(f) => exists|i: int|
                0 <= i < k && (#[trigger] links[i]).edge_id@ == id && links[i].fact == f,
            None => forall|i: int| 0 <= i < k ==> (#[trigger] links[i]).edge_id@ != id,
        },
    decreases k,
{
    if k > 0 {
        lemma_last_fact(links, id, k - 1);
        if links[k - 1].edge_id@ == id {
            assert(links[k - 1].fact == resolve::last_fact(links, id, k)->0);
        }
    }
}

/// A neighborhood starts with the asked entity and holds other entities of the
/// ontology, no more than so many; and each of its relations is an edge of the
/// ontology, told from its source to its target. It is granted if and only if the
/// files of all its entities lie in scopes of the envelope.
pub proof fn law_neighborhoods_are_drawn_from_the_ontology(
    o: Ontology,
    source: Snapshot,
    memory: Seq<MemoryRecord>,
    env: Envelope,
    entity_id: String,
    depth: u8,
    n: int,
    f: int,
)
    ensures
        ({
            let a = resolve::item_answer(
                o,
                source,
                memory,
                env,
                (ContextRequestItem::Neighborhood { entity_id, depth }),
            );
            &&& a.outcome == ItemOutcome::NotFound <==> forall|i: int|
                0 <= i < o.entities@.len() ==> (#[trigger] o.entities@[i]).id@ != entity_id@
            &&& a.item is Some ==> {
                &&& a.item matches Some(
                    DeltaView::Neighborhood { subject, depth: d, entities, relations, truncated },
                )
                &&& subject == entity_id@
                &&& d == depth
                &&& 0 < entities.len() <= resolve::NEIGHBORHOOD_NODES
                &&& entities[0].id@ == entity_id@
                &&& 0 <= n < entities.len() ==> o.entities@.contains(entities[n])
                &&& a.outcome == ItemOutcome::Granted <==> forall|i: int|
                    0 <= i < entities.len() ==> allowed(
                        env,
                        (#[trigger] entities[i]).provenance.path@,
                    )
                &&& 0 <= f < relations.len() ==> exists|j: int|
                    {
                        &&& 0 <= j < o.edges@.len()
                        &&& (#[trigger] o.edges@[j]).source@ == relations[f].source@
                        &&& o.edges@[j].target is Some
                        &&& o.edges@[j].target->0@ == relations[f].target@
                        &&& o.edges@[j].kind == relations[f].kind
                        &&& o.edges@[j].resolution == relations[f].resolution
                    }
            }
        }),
{
    lemma_entity_at(o.entities@, entity_id@, 0);
    if let Some(i) = plan::entity_at(o.entities@, entity_id@, 0) {
        let e = o.entities@[i];
        assert(e.id@ == entity_id@);
        let start = resolve::WebView {
            order: seq![e],
            links: Seq::empty(),
            next: seq![e.id],
            truncated: false,
        };
        assert(drawn(start, o, e));
        lemma_levels(start, o, e, depth as int);
        let w = resolve::web_of(o, e, depth as int);
        resolve::law_neighborhoods_are_bounded_and_closed(o, e, depth as int);
        let facts = resolve::ordered_facts(w.links);
        let v = DeltaView::Neighborhood {
            subject: e.id@,
            depth,
            entities: w.order,
            relations: facts,
            truncated: w.truncated,
        };
        let touched = w.order.map_values(|x: Entity| x.provenance.path@);
        lemma_finished(env, v, touched);
        assert forall|p: Seq<char>| env.reaches(p) == #[trigger] allowed(env, p) by {}
        if forall|x: int|
            0 <= x < w.order.len() ==> allowed(env, (#[trigger] w.order[x]).provenance.path@) {
            assert forall|x: int| 0 <= x < touched.len() implies env.reaches(
                #[trigger] touched[x],
            ) by {
                assert(touched[x] == w.order[x].provenance.path@);
                assert(allowed(env, w.order[x].provenance.path@));
            }
        }
        if forall|x: int| 0 <= x < touched.len() ==> env.reaches(#[trigger] touched[x]) {
            assert forall|x: int| 0 <= x < w.order.len() implies allowed(
                env,
                (#[trigger] w.order[x]).provenance.path@,
            ) by {
                assert(touched[x] == w.order[x].provenance.path@);
                assert(env.reaches(touched[x]));
            }
        }
        if 0 <= f < facts.len() {
            let ids = resolve::link_ids(w.links);
            let order = text::in_order(ids);
            text::law_texts_can_be_ordered(ids);
            assert(order.contains(order[f]));
            assert(ids.contains(order[f]));
            let m = choose|m: int| 0 <= m < ids.len() && ids[m] == order[f];
            assert(w.links[m].edge_id@ == order[f]);
            lemma_last_fact(w.links, order[f], w.links.len() as int);
            let l = choose|l: int|
                0 <= l < w.links.len() && (#[trigger] w.links[l]).edge_id@ == order[f]
                    && w.links[l].fact == facts[f];
            assert(links_by(o, w.links[l]));
            let j = choose|j: int|
                {
                    let edge = #[trigger] o.edges@[j];
                    &&& 0 <= j < o.edges@.len()
                    &&& edge.id@ == w.links[l].edge_id@
                    &&& edge.source@ == w.links[l].fact.source@
                    &&& edge.target is Some
                    &&& edge.target->0@ == w.links[l].fact.target@
                    &&& edge.kind == w.links[l].fact.kind
                    &&& edge.resolution == w.links[l].fact.resolution
                };
            assert(o.edges@[j].source@ == facts[f].source@);
        }
    }
}

/// Whether a web has grown: what was met is met still, and what was cut stays so.
spec fn grown(a: resolve::WebView, b: resolve::WebView) -> bool {
    &&& a.truncated ==> b.truncated
    &&& forall|id: Seq<char>| #[trigger] resolve::met(a.order, id) ==> resolve::met(b.order, id)
}

proof fn lemma_grown(a: resolve::WebView, b: resolve::WebView, c: resolve::WebView)
    requires
        a.truncated ==> b.truncated,
        a.order == b.order || grown(a, b),
        grown(b, c),
    ensures
        grown(a, c),
{
    assert forall|id: Seq<char>| #[trigger] resolve::met(a.order, id) implies resolve::met(
        c.order,
        id,
    ) by {
        assert(resolve::met(b.order, id));
    }
}

proof fn lemma_joined_grows(w: resolve::WebView, id: String, incoming: bool, n: Neighbor)
    ensures
        grown(w, resolve::joined(w, id, incoming, n)),
        ({
            let q = resolve::joined(w, id, incoming, n);
            q.truncated || resolve::met(q.order, n.entity.id@)
        }),
{
    let q = resolve::joined(w, id, incoming, n);
    assert forall|t: Seq<char>| #[trigger] resolve::met(w.order, t) implies resolve::met(
        q.order,
        t,
    ) by {
        let i = choose|i: int| 0 <= i < w.order.len() && (#[trigger] w.order[i]).id@ == t;
        assert(q.order[i].id@ == t);
    }
    if !resolve::met(w.order, n.entity.id@) && w.order.len() < resolve::NEIGHBORHOOD_NODES {
        assert(q.order[q.order.len() - 1].id@ == n.entity.id@);
    }
}

proof fn lemma_joined_all_grows(
    w: resolve::WebView,
    id: String,
    incoming: bool,
    list: Seq<Neighbor>,
    k: int,
    n: int,
)
    requires
        0 <= k <= list.len(),
    ensures
        grown(w, resolve::joined_all(w, id, incoming, list, k)),
        0 <= n < k ==> ({
            let q = resolve::joined_all(w, id, incoming, list, k);
            q.truncated || resolve::met(q.order, list[n].entity.id@)
        }),
    decreases k,
{
    if k > 0 {
        lemma_joined_all_grows(w, id, incoming, list, k - 1, n);
        let before = resolve::joined_all(w, id, incoming, list, k - 1);
        lemma_joined_grows(before, id, incoming, list[k - 1]);
        lemma_grown(w, before, resolve::joined_all(w, id, incoming, list, k));
    }
}

proof fn lemma_swept_grows(w: resolve::WebView, o: Ontology, id: String, incoming: bool, n: int)
    ensures
        grown(w, resolve::swept(w, o, id, incoming)),
        ({
            let q = resolve::swept(w, o, id, incoming);
            let list = resolve::neighbors_of(o, id@, incoming, resolve::EDGE_SCAN as int);
            &&& 0 <= n < list.len() ==> q.truncated || resolve::met(q.order, list[n].entity.id@)
            &&& resolve::crowded(o, id@, incoming, resolve::EDGE_SCAN as int) ==> q.truncated
        }),
{
    let limit = resolve::EDGE_SCAN as int;
    let start = resolve::WebView {
        truncated: w.truncated || resolve::crowded(o, id@, incoming, limit),
        ..w
    };
    let list = resolve::neighbors_of(o, id@, incoming, limit);
    lemma_joined_all_grows(start, id, incoming, list, list.len() as int, n);
    lemma_grown(w, start, resolve::swept(w, o, id, incoming));
}

proof fn lemma_visited_grows(w: resolve::WebView, o: Ontology, frontier: Seq<String>, k: int)
    ensures
        grown(w, resolve::visited(w, o, frontier, k)),
    decreases k,
{
    if k > 0 {
        lemma_visited_grows(w, o, frontier, k - 1);
        let before = resolve::visited(w, o, frontier, k - 1);
        lemma_swept_grows(before, o, frontier[k - 1], true, 0);
        let between = resolve::swept(before, o, frontier[k - 1], true);
        lemma_swept_grows(between, o, frontier[k - 1], false, 0);
        lemma_grown(w, before, between);
        lemma_grown(w, between, resolve::visited(w, o, frontier, k));
    }
}

proof fn lemma_levels_grow(w: resolve::WebView, o: Ontology, depth: int)
    ensures
        grown(w, resolve::levels(w, o, depth)),
    decreases depth,
{
    if depth > 0 {
        let start = resolve::WebView { next: Seq::empty(), ..w };
        let next = resolve::visited(start, o, w.next, w.next.len() as int);
        lemma_visited_grows(start, o, w.next, w.next.len() as int);
        lemma_grown(w, start, next);
        lemma_levels_grow(next, o, depth - 1);
        lemma_grown(w, next, resolve::levels(w, o, depth));
    }
}

/// A neighborhood that does not say that it was cut holds every entity that an edge of
/// the ontology leads to from the asked one, or from to the asked one.
pub proof fn law_uncut_neighborhoods_hold_both_ends(
    o: Ontology,
    source: Snapshot,
    memory: Seq<MemoryRecord>,
    env: Envelope,
    entity_id: String,
    depth: u8,
    known: int,
    j: int,
    e: int,
)
    requires
        depth >= 1,
        0 <= known < o.entities@.len(),
        o.entities@[known].id@ == entity_id@,
        0 <= j < o.edges@.len(),
        0 <= e < o.entities@.len(),
        o.entities@[e].id@ != entity_id@,
        o.edges@[j].target is Some,
        (o.edges@[j].source@ == entity_id@ && o.edges@[j].target->0@ == o.entities@[e].id@) || (
        o.edges@[j].target->0@ == entity_id@ && o.edges@[j].source@ == o.entities@[e].id@),
    ensures
        ({
            let a = resolve::item_answer(
                o,
                source,
                memory,
                env,
                (ContextRequestItem::Neighborhood { entity_id, depth }),
            );
            &&& a.item matches Some(
                DeltaView::Neighborhood { subject, depth: d, entities, relations, truncated },
            )
            &&& !truncated ==> exists|n: int|
                0 <= n < entities.len() && (#[trigger] entities[n]).id@ == o.entities@[e].id@
        }),
{
    lemma_entity_at(o.entities@, entity_id@, 0);
    let x = o.entities@[plan::entity_at(o.entities@, entity_id@, 0)->0];
    let id = x.id@;
    let incoming = !(o.edges@[j].source@ == id && o.edges@[j].target->0@ == o.entities@[e].id@);
    let limit = resolve::EDGE_SCAN as int;
    let list = resolve::scanned(o.edges@, id, incoming, limit + 1, 0);
    let found = resolve::neighbors_of(o, id, incoming, limit);
    lemma_scanned(o.edges@, id, incoming, limit + 1, 0);
    let start = resolve::WebView {
        order: seq![x],
        links: Seq::empty(),
        next: seq![x.id],
        truncated: false,
    };
    let fresh = resolve::WebView { next: Seq::empty(), ..start };
    let first = resolve::swept(fresh, o, x.id, true);
    let second = resolve::swept(first, o, x.id, false);
    reveal_with_fuel(resolve::visited, 2);
    assert(resolve::visited(fresh, o, start.next, 1) == second);
    let w = resolve::web_of(o, x, depth as int);
    assert(w == resolve::levels(second, o, depth - 1));
    lemma_levels_grow(second, o, depth - 1);
    let n = if list.len() <= limit {
        assert(resolve::touches(o.edges@[j], id, incoming));
        assert(list.contains(o.edges@[j]));
        let at = choose|at: int| 0 <= at < list.len() && list[at] == o.edges@[j];
        lemma_found_all(list, o.entities@, id, incoming, list.len() as int, at, e)
    } else {
        0
    };
    lemma_swept_grows(fresh, o, x.id, true, n);
    lemma_swept_grows(first, o, x.id, false, n);
    let a = resolve::item_answer(
        o,
        source,
        memory,
        env,
        (ContextRequestItem::Neighborhood { entity_id, depth }),
    );
    match a.item {
        Some(DeltaView::Neighborhood { subject, depth: d, entities, relations, truncated }) => {
            assert(entities == w.order);
            assert(truncated == w.truncated);
            if !truncated {
                assert(resolve::met(w.order, o.entities@[e].id@));
                let m = choose|m: int|
                    0 <= m < w.order.len() && (#[trigger] w.order[m]).id@ == o.entities@[e].id@;
                assert(entities[m].id@ == o.entities@[e].id@);
            }
        },
        _ => {},
    }
}

} // verus!
