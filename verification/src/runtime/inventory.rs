//! The inventory of what a job is issued: every item traced to its authority
//! with its exact bytes.
use crate::graph::GraphGeneration;
use crate::manifest::{
    Authority, ContextInventory, DeltaManifest, IssuedItem, SuppliedKind, SuppliedSource,
};
use crate::planning::validation;
use crate::runtime::context;
use crate::runtime::context::{
    ContextDelta, DeltaItem, EntityFacts, Grant, IssuedContext, IssuedSymbol, RelatedEntity,
    SourceText, TestItem,
};
use crate::source::ArtifactRef;
use vstd::prelude::*;

verus! {

/// The compact JSON bytes of each part of a base context.
#[derive(Debug)]
pub struct BaseSizes {
    pub symbols: Vec<usize>,
    pub files: Vec<usize>,
    pub memory: Vec<usize>,
    pub checks: Vec<usize>,
}

/// A delta with its artifact and the compact JSON bytes of each of its items.
#[derive(Debug)]
pub struct MeasuredDelta {
    pub delta: ContextDelta,
    pub artifact: ArtifactRef,
    pub sizes: Vec<usize>,
}

/// What an inventory gains.
#[verifier::ext_equal]
pub struct Gain {
    pub issued: Seq<IssuedItem>,
    pub entities: Seq<String>,
    pub paths: Seq<SuppliedSource>,
    pub memory: Seq<String>,
    pub truncated: bool,
}

pub open spec fn nothing() -> Gain {
    Gain {
        issued: Seq::empty(),
        entities: Seq::empty(),
        paths: Seq::empty(),
        memory: Seq::empty(),
        truncated: false,
    }
}

pub open spec fn both(a: Gain, b: Gain) -> Gain {
    Gain {
        issued: a.issued + b.issued,
        entities: a.entities + b.entities,
        paths: a.paths + b.paths,
        memory: a.memory + b.memory,
        truncated: a.truncated || b.truncated,
    }
}

/// What an inventory holds.
pub open spec fn held(i: ContextInventory) -> Gain {
    Gain {
        issued: i.issued@,
        entities: i.graph_entities@,
        paths: i.paths@,
        memory: i.memory@,
        truncated: i.truncated,
    }
}

/// Whether an inventory differs in what it holds alone.
pub open spec fn same_frame(a: ContextInventory, b: ContextInventory) -> bool {
    &&& a.round == b.round
    &&& a.graph_generation == b.graph_generation
    &&& a.graph_version == b.graph_version
    &&& a.deltas == b.deltas
}

/// The source that an excerpt of an entity supplies.
pub open spec fn excerpt_of(entity: EntityFacts, d: SourceText) -> SuppliedSource {
    SuppliedSource {
        path: entity.path,
        kind: SuppliedKind::Excerpt,
        start_line: Some(d.start_line),
        end_line: Some(d.end_line),
        content_hash: Some(entity.content_hash),
        truncated: d.truncated,
    }
}

pub fn excerpt_source(entity: &EntityFacts, d: &SourceText) -> (r: SuppliedSource)
    ensures
        r == excerpt_of(*entity, *d),
{
    SuppliedSource {
        path: entity.path.clone(),
        kind: SuppliedKind::Excerpt,
        start_line: Some(d.start_line),
        end_line: Some(d.end_line),
        content_hash: Some(entity.content_hash.clone()),
        truncated: d.truncated,
    }
}

/// The source that facts alone are supplied of.
pub open spec fn facts_from(path: String, hash: String) -> SuppliedSource {
    SuppliedSource {
        path,
        kind: SuppliedKind::GraphFacts,
        start_line: None,
        end_line: None,
        content_hash: Some(hash),
        truncated: false,
    }
}

pub fn facts_source(path: &String, hash: &String) -> (r: SuppliedSource)
    ensures
        r == facts_from(*path, *hash),
{
    SuppliedSource {
        path: path.clone(),
        kind: SuppliedKind::GraphFacts,
        start_line: None,
        end_line: None,
        content_hash: Some(hash.clone()),
        truncated: false,
    }
}

/// What related entities add.
pub open spec fn related_gain(list: Seq<RelatedEntity>) -> Gain {
    Gain {
        entities: list.map_values(|r: RelatedEntity| r.id),
        paths: list.map_values(|r: RelatedEntity| facts_from(r.path, r.content_hash)),
        ..nothing()
    }
}

fn push_related(i: &mut ContextInventory, list: &Vec<RelatedEntity>)
    ensures
        held(*final(i)) == both(held(*old(i)), related_gain(list@)),
        same_frame(*old(i), *final(i)),
{
    let ghost start = held(*i);
    let ghost gain = related_gain(list@);
    let mut k: usize = 0;
    while k < list.len()
        invariant
            k <= list@.len(),
            start == held(*old(i)),
            gain == related_gain(list@),
            same_frame(*old(i), *i),
            i.issued@ == start.issued,
            i.memory@ == start.memory,
            i.truncated == start.truncated,
            i.graph_entities@ == start.entities + gain.entities.take(k as int),
            i.paths@ == start.paths + gain.paths.take(k as int),
        decreases list@.len() - k,
    {
        i.graph_entities.push(list[k].id.clone());
        i.paths.push(facts_source(&list[k].path, &list[k].content_hash));
        k += 1;
        assert(i.graph_entities@ =~= start.entities + gain.entities.take(k as int));
        assert(i.paths@ =~= start.paths + gain.paths.take(k as int));
    }
    proof {
        assert(gain.entities.take(k as int) =~= gain.entities);
        assert(gain.paths.take(k as int) =~= gain.paths);
        assert(held(*i) =~= both(start, gain));
    }
}

fn issue(i: &mut ContextInventory, authority: Authority, reference: String, delta_id: Option<String>, bytes: usize)
    ensures
        held(*final(i)) == both(
            held(*old(i)),
            (Gain {
                issued: seq![IssuedItem { authority, reference, delta_id, bytes }],
                ..nothing()
            }),
        ),
        same_frame(*old(i), *final(i)),
{
    let ghost item = IssuedItem { authority, reference, delta_id, bytes };
    i.issued.push(IssuedItem { authority, reference, delta_id, bytes });
    assert(held(*i) =~= both(held(*old(i)), Gain { issued: seq![item], ..nothing() }));
}

/// What one selected entity adds: itself with its definition, and the entities
/// it is related to.
pub open spec fn symbol_gain(s: IssuedSymbol, bytes: usize) -> Gain {
    both(
        both(
            Gain {
                issued: seq![
                    IssuedItem {
                        authority: Authority::PlannerGraphEntity,
                        reference: s.entity.id,
                        delta_id: None,
                        bytes,
                    },
                ],
                entities: seq![s.entity.id],
                paths: match s.definition {
                    Some(d) => seq![excerpt_of(s.entity, d)],
                    None => Seq::empty(),
                },
                ..nothing()
            },
            related_gain(s.callers@),
        ),
        related_gain(s.callees@),
    )
}

fn push_symbol(i: &mut ContextInventory, s: &IssuedSymbol, bytes: usize)
    ensures
        held(*final(i)) == both(held(*old(i)), symbol_gain(*s, bytes)),
        same_frame(*old(i), *final(i)),
{
    let ghost start = held(*i);
    issue(i, Authority::PlannerGraphEntity, s.entity.id.clone(), None, bytes);
    i.graph_entities.push(s.entity.id.clone());
    if let Some(d) = &s.definition {
        i.paths.push(excerpt_source(&s.entity, d));
    }
    push_related(i, &s.callers);
    push_related(i, &s.callees);
    assert(held(*i) =~= both(start, symbol_gain(*s, bytes)));
}

/// What the first `k` selected entities add.
pub open spec fn symbols_gain(list: Seq<IssuedSymbol>, sizes: Seq<usize>, k: int) -> Gain
    decreases k,
{
    if k <= 0 {
        nothing()
    } else {
        both(symbols_gain(list, sizes, k - 1), symbol_gain(list[k - 1], sizes[k - 1]))
    }
}

/// What one named file adds.
pub open spec fn file_gain(f: context::IssuedFile, bytes: usize) -> Gain {
    Gain {
        issued: seq![
            IssuedItem { authority: f.authority, reference: f.path, delta_id: None, bytes },
        ],
        paths: if f.text is Some {
            seq![
                SuppliedSource {
                    path: f.path,
                    kind: SuppliedKind::File,
                    start_line: None,
                    end_line: None,
                    content_hash: f.content_hash,
                    truncated: f.truncated,
                },
            ]
        } else {
            Seq::empty()
        },
        ..nothing()
    }
}

/// What the first `k` named files add.
pub open spec fn files_gain(list: Seq<context::IssuedFile>, sizes: Seq<usize>, k: int) -> Gain
    decreases k,
{
    if k <= 0 {
        nothing()
    } else {
        both(files_gain(list, sizes, k - 1), file_gain(list[k - 1], sizes[k - 1]))
    }
}

/// What the first `k` memories add.
pub open spec fn memories_gain(list: Seq<context::IssuedMemory>, sizes: Seq<usize>, k: int) -> Gain
    decreases k,
{
    if k <= 0 {
        nothing()
    } else {
        both(
            memories_gain(list, sizes, k - 1),
            Gain {
                issued: seq![
                    IssuedItem {
                        authority: Authority::PlannerMemoryRef,
                        reference: list[k - 1].id,
                        delta_id: None,
                        bytes: sizes[k - 1],
                    },
                ],
                memory: seq![list[k - 1].id],
                ..nothing()
            },
        )
    }
}

/// What the first `k` checks add.
pub open spec fn checks_gain(list: Seq<context::IssuedCheck>, sizes: Seq<usize>, k: int) -> Gain
    decreases k,
{
    if k <= 0 {
        nothing()
    } else {
        both(
            checks_gain(list, sizes, k - 1),
            Gain {
                issued: seq![
                    IssuedItem {
                        authority: Authority::PlannerVerificationRef,
                        reference: list[k - 1].requirement,
                        delta_id: None,
                        bytes: sizes[k - 1],
                    },
                ],
                ..nothing()
            },
        )
    }
}

/// Whether sizes belong to a base context.
pub open spec fn measures(base: IssuedContext, sizes: BaseSizes) -> bool {
    &&& sizes.symbols@.len() == base.symbols@.len()
    &&& sizes.files@.len() == base.files@.len()
    &&& sizes.memory@.len() == base.memory@.len()
    &&& sizes.checks@.len() == base.checks@.len()
}

/// What a base context adds.
pub open spec fn base_gain(base: IssuedContext, sizes: BaseSizes) -> Gain {
    both(
        both(
            both(
                both(
                    Gain { truncated: base.truncated, ..nothing() },
                    symbols_gain(base.symbols@, sizes.symbols@, base.symbols@.len() as int),
                ),
                files_gain(base.files@, sizes.files@, base.files@.len() as int),
            ),
            memories_gain(base.memory@, sizes.memory@, base.memory@.len() as int),
        ),
        checks_gain(base.checks@, sizes.checks@, base.checks@.len() as int),
    )
}

proof fn lemma_both_associates(a: Gain, b: Gain, c: Gain)
    ensures
        both(both(a, b), c) == both(a, both(b, c)),
{
    assert(both(both(a, b), c) =~= both(a, both(b, c)));
}

fn push_symbols(i: &mut ContextInventory, list: &Vec<IssuedSymbol>, sizes: &Vec<usize>)
    requires
        sizes@.len() == list@.len(),
    ensures
        held(*final(i)) == both(
            held(*old(i)),
            symbols_gain(list@, sizes@, list@.len() as int),
        ),
        same_frame(*old(i), *final(i)),
{
    let ghost start = held(*i);
    let mut k: usize = 0;
    assert(held(*i) =~= both(start, nothing()));
    while k < list.len()
        invariant
            sizes@.len() == list@.len(),
            k <= list@.len(),
            same_frame(*old(i), *i),
            held(*i) == both(start, symbols_gain(list@, sizes@, k as int)),
        decreases list@.len() - k,
    {
        push_symbol(i, &list[k], sizes[k]);
        proof {
            lemma_both_associates(
                start,
                symbols_gain(list@, sizes@, k as int),
                symbol_gain(list@[k as int], sizes@[k as int]),
            );
        }
        k += 1;
    }
}

fn push_files(i: &mut ContextInventory, list: &Vec<context::IssuedFile>, sizes: &Vec<usize>)
    requires
        sizes@.len() == list@.len(),
    ensures
        held(*final(i)) == both(held(*old(i)), files_gain(list@, sizes@, list@.len() as int)),
        same_frame(*old(i), *final(i)),
{
    let ghost start = held(*i);
    let mut k: usize = 0;
    assert(held(*i) =~= both(start, nothing()));
    while k < list.len()
        invariant
            sizes@.len() == list@.len(),
            k <= list@.len(),
            same_frame(*old(i), *i),
            held(*i) == both(start, files_gain(list@, sizes@, k as int)),
        decreases list@.len() - k,
    {
        let f: &context::IssuedFile = &list[k];
        let ghost before = held(*i);
        issue(i, f.authority, f.path.clone(), None, sizes[k]);
        if f.text.is_some() {
            i.paths.push(
                SuppliedSource {
                    path: f.path.clone(),
                    kind: SuppliedKind::File,
                    start_line: None,
                    end_line: None,
                    content_hash: f.content_hash.clone(),
                    truncated: f.truncated,
                },
            );
        }
        proof {
            assert(held(*i) =~= both(before, file_gain(*f, sizes@[k as int])));
            lemma_both_associates(
                start,
                files_gain(list@, sizes@, k as int),
                file_gain(*f, sizes@[k as int]),
            );
        }
        k += 1;
    }
}

fn push_memories(i: &mut ContextInventory, list: &Vec<context::IssuedMemory>, sizes: &Vec<usize>)
    requires
        sizes@.len() == list@.len(),
    ensures
        held(*final(i)) == both(
            held(*old(i)),
            memories_gain(list@, sizes@, list@.len() as int),
        ),
        same_frame(*old(i), *final(i)),
{
    let ghost start = held(*i);
    let mut k: usize = 0;
    assert(held(*i) =~= both(start, nothing()));
    while k < list.len()
        invariant
            sizes@.len() == list@.len(),
            k <= list@.len(),
            same_frame(*old(i), *i),
            held(*i) == both(start, memories_gain(list@, sizes@, k as int)),
        decreases list@.len() - k,
    {
        let ghost before = held(*i);
        issue(i, Authority::PlannerMemoryRef, list[k].id.clone(), None, sizes[k]);
        i.memory.push(list[k].id.clone());
        proof {
            let gain = Gain {
                issued: seq![
                    IssuedItem {
                        authority: Authority::PlannerMemoryRef,
                        reference: list@[k as int].id,
                        delta_id: None,
                        bytes: sizes@[k as int],
                    },
                ],
                memory: seq![list@[k as int].id],
                ..nothing()
            };
            assert(held(*i) =~= both(before, gain));
            lemma_both_associates(start, memories_gain(list@, sizes@, k as int), gain);
        }
        k += 1;
    }
}

fn push_checks(i: &mut ContextInventory, list: &Vec<context::IssuedCheck>, sizes: &Vec<usize>)
    requires
        sizes@.len() == list@.len(),
    ensures
        held(*final(i)) == both(held(*old(i)), checks_gain(list@, sizes@, list@.len() as int)),
        same_frame(*old(i), *final(i)),
{
    let ghost start = held(*i);
    let mut k: usize = 0;
    assert(held(*i) =~= both(start, nothing()));
    while k < list.len()
        invariant
            sizes@.len() == list@.len(),
            k <= list@.len(),
            same_frame(*old(i), *i),
            held(*i) == both(start, checks_gain(list@, sizes@, k as int)),
        decreases list@.len() - k,
    {
        issue(
            i,
            Authority::PlannerVerificationRef,
            list[k].requirement.clone(),
            None,
            sizes[k],
        );
        proof {
            lemma_both_associates(
                start,
                checks_gain(list@, sizes@, k as int),
                Gain {
                    issued: seq![
                        IssuedItem {
                            authority: Authority::PlannerVerificationRef,
                            reference: list@[k as int].requirement,
                            delta_id: None,
                            bytes: sizes@[k as int],
                        },
                    ],
                    ..nothing()
                },
            );
        }
        k += 1;
    }
}

fn push_base(i: &mut ContextInventory, base: &IssuedContext, sizes: &BaseSizes)
    requires
        measures(*base, *sizes),
    ensures
        held(*final(i)) == both(held(*old(i)), base_gain(*base, *sizes)),
        same_frame(*old(i), *final(i)),
{
    let ghost start = held(*i);
    i.truncated = i.truncated || base.truncated;
    let ghost first = Gain { truncated: base.truncated, ..nothing() };
    assert(held(*i) =~= both(start, first));
    push_symbols(i, &base.symbols, &sizes.symbols);
    push_files(i, &base.files, &sizes.files);
    push_memories(i, &base.memory, &sizes.memory);
    push_checks(i, &base.checks, &sizes.checks);
    proof {
        let s = symbols_gain(base.symbols@, sizes.symbols@, base.symbols@.len() as int);
        let f = files_gain(base.files@, sizes.files@, base.files@.len() as int);
        let m = memories_gain(base.memory@, sizes.memory@, base.memory@.len() as int);
        let c = checks_gain(base.checks@, sizes.checks@, base.checks@.len() as int);
        lemma_both_associates(start, first, s);
        lemma_both_associates(start, both(first, s), f);
        lemma_both_associates(start, both(both(first, s), f), m);
        lemma_both_associates(start, both(both(both(first, s), f), m), c);
    }
}

// ---------------------------------------------------------------------------
// Deltas
// ---------------------------------------------------------------------------

/// What one related test adds.
pub open spec fn test_gain(t: TestItem) -> Gain {
    Gain {
        entities: seq![t.entity.id],
        paths: match t.definition {
            Some(d) => seq![excerpt_of(t.entity, d)],
            None => seq![facts_from(t.entity.path, t.entity.content_hash)],
        },
        ..nothing()
    }
}

/// What the first `k` related tests add.
pub open spec fn tests_gain(list: Seq<TestItem>, k: int) -> Gain
    decreases k,
{
    if k <= 0 {
        nothing()
    } else {
        both(tests_gain(list, k - 1), test_gain(list[k - 1]))
    }
}

/// What the entities of a neighborhood add.
pub open spec fn entities_gain(list: Seq<EntityFacts>) -> Gain {
    Gain {
        entities: list.map_values(|e: EntityFacts| e.id),
        paths: list.map_values(|e: EntityFacts| facts_from(e.path, e.content_hash)),
        ..nothing()
    }
}

/// What the content of an answer adds.
pub open spec fn content_gain(item: DeltaItem) -> Gain {
    match item {
        DeltaItem::Symbol { entity, definition, .. } => Gain {
            entities: seq![entity.id],
            paths: match definition {
                Some(d) => seq![excerpt_of(entity, d)],
                None => Seq::empty(),
            },
            truncated: definition matches Some(d) && d.truncated,
            ..nothing()
        },
        DeltaItem::Relations { entities, truncated, .. } => both(
            Gain { truncated, ..nothing() },
            related_gain(entities@),
        ),
        DeltaItem::Tests { tests, truncated, .. } => both(
            Gain { truncated, ..nothing() },
            tests_gain(tests@, tests@.len() as int),
        ),
        DeltaItem::Neighborhood { entities, truncated, .. } => both(
            Gain { truncated, ..nothing() },
            entities_gain(entities@),
        ),
        DeltaItem::FileRange { path, content_hash, start_line, end_line, .. } => Gain {
            paths: seq![
                SuppliedSource {
                    path,
                    kind: SuppliedKind::Excerpt,
                    start_line: Some(start_line as usize),
                    end_line: Some(end_line as usize),
                    content_hash: Some(content_hash),
                    truncated: false,
                },
            ],
            ..nothing()
        },
        DeltaItem::Memory { memory, .. } => Gain { memory: seq![memory.id], ..nothing() },
    }
}

/// What one answer adds.
pub open spec fn item_gain(delta_id: String, item: DeltaItem, bytes: usize) -> Gain {
    both(
        Gain {
            issued: seq![
                IssuedItem {
                    authority: Authority::ContextDelta,
                    reference: context::reference_of(item),
                    delta_id: Some(delta_id),
                    bytes,
                },
            ],
            ..nothing()
        },
        content_gain(item),
    )
}

/// What the first `k` answers of a delta add.
pub open spec fn items_gain(d: MeasuredDelta, k: int) -> Gain
    decreases k,
{
    if k <= 0 {
        nothing()
    } else {
        both(
            items_gain(d, k - 1),
            item_gain(d.delta.delta_id, d.delta.items@[k - 1], d.sizes@[k - 1]),
        )
    }
}

fn push_tests(i: &mut ContextInventory, tests: &Vec<TestItem>)
    ensures
        held(*final(i)) == both(held(*old(i)), tests_gain(tests@, tests@.len() as int)),
        same_frame(*old(i), *final(i)),
{
    let ghost start = held(*i);
    let mut k: usize = 0;
    assert(held(*i) =~= both(start, nothing()));
    while k < tests.len()
        invariant
            k <= tests@.len(),
            start == held(*old(i)),
            same_frame(*old(i), *i),
            held(*i) == both(start, tests_gain(tests@, k as int)),
        decreases tests@.len() - k,
    {
        let t: &TestItem = &tests[k];
        let ghost before = held(*i);
        i.graph_entities.push(t.entity.id.clone());
        match &t.definition {
            Some(d) => i.paths.push(excerpt_source(&t.entity, d)),
            None => i.paths.push(facts_source(&t.entity.path, &t.entity.content_hash)),
        }
        proof {
            assert(held(*i) =~= both(before, test_gain(*t)));
            lemma_both_associates(start, tests_gain(tests@, k as int), test_gain(*t));
        }
        k += 1;
    }
}

fn push_entities(i: &mut ContextInventory, list: &Vec<EntityFacts>)
    ensures
        held(*final(i)) == both(held(*old(i)), entities_gain(list@)),
        same_frame(*old(i), *final(i)),
{
    let ghost start = held(*i);
    let ghost gain = entities_gain(list@);
    let mut k: usize = 0;
    while k < list.len()
        invariant
            k <= list@.len(),
            start == held(*old(i)),
            gain == entities_gain(list@),
            same_frame(*old(i), *i),
            i.issued@ == start.issued,
            i.memory@ == start.memory,
            i.truncated == start.truncated,
            i.graph_entities@ == start.entities + gain.entities.take(k as int),
            i.paths@ == start.paths + gain.paths.take(k as int),
        decreases list@.len() - k,
    {
        i.graph_entities.push(list[k].id.clone());
        i.paths.push(facts_source(&list[k].path, &list[k].content_hash));
        k += 1;
        assert(i.graph_entities@ =~= start.entities + gain.entities.take(k as int));
        assert(i.paths@ =~= start.paths + gain.paths.take(k as int));
    }
    proof {
        assert(gain.entities.take(k as int) =~= gain.entities);
        assert(gain.paths.take(k as int) =~= gain.paths);
        assert(held(*i) =~= both(start, gain));
    }
}

fn push_content(i: &mut ContextInventory, item: &DeltaItem)
    ensures
        held(*final(i)) == both(held(*old(i)), content_gain(*item)),
        same_frame(*old(i), *final(i)),
{
    let ghost start = held(*i);
    match item {
        DeltaItem::Symbol { entity, definition, .. } => {
            i.graph_entities.push(entity.id.clone());
            if let Some(d) = definition {
                i.paths.push(excerpt_source(entity, d));
                i.truncated = i.truncated || d.truncated;
            }
        },
        DeltaItem::Relations { entities, truncated, .. } => {
            i.truncated = i.truncated || *truncated;
            push_related(i, entities);
        },
        DeltaItem::Tests { tests, truncated, .. } => {
            i.truncated = i.truncated || *truncated;
            push_tests(i, tests);
        },
        DeltaItem::Neighborhood { entities, truncated, .. } => {
            i.truncated = i.truncated || *truncated;
            push_entities(i, entities);
        },
        DeltaItem::FileRange { path, content_hash, start_line, end_line, .. } => {
            i.paths.push(
                SuppliedSource {
                    path: path.clone(),
                    kind: SuppliedKind::Excerpt,
                    start_line: Some(*start_line as usize),
                    end_line: Some(*end_line as usize),
                    content_hash: Some(content_hash.clone()),
                    truncated: false,
                },
            );
        },
        DeltaItem::Memory { memory, .. } => {
            i.memory.push(memory.id.clone());
        },
    }
    assert(held(*i) =~= both(start, content_gain(*item)));
}

/// What the first `k` deltas add.
pub open spec fn deltas_gain(list: Seq<MeasuredDelta>, k: int) -> Gain
    decreases k,
{
    if k <= 0 {
        nothing()
    } else {
        both(
            deltas_gain(list, k - 1),
            items_gain(list[k - 1], list[k - 1].delta.items@.len() as int),
        )
    }
}

/// A delta as a manifest names it.
pub open spec fn delta_entry(d: MeasuredDelta) -> DeltaManifest {
    DeltaManifest {
        delta_id: d.delta.delta_id,
        hash: d.artifact.hash,
        bytes: d.delta.bytes,
        round: d.delta.round,
        parent_job_id: d.delta.parent_job_id,
        planner_approved: d.delta.grant is PlannerApproved,
    }
}

/// The first of the first `k` deltas' generations, where none is known yet.
pub open spec fn generation_after(start: Option<GraphGeneration>, list: Seq<MeasuredDelta>, k: int) -> Option<
    GraphGeneration,
>
    decreases k,
{
    if k <= 0 {
        start
    } else {
        match generation_after(start, list, k - 1) {
            Some(g) => Some(g),
            None => list[k - 1].delta.graph_generation,
        }
    }
}

/// Whether one of the first `k` deltas was the first to tell a generation.
pub open spec fn version_told(start: Option<GraphGeneration>, list: Seq<MeasuredDelta>, k: int) -> bool
    decreases k,
{
    k > 0 && (version_told(start, list, k - 1) || generation_after(start, list, k - 1) is None)
}

fn push_delta(i: &mut ContextInventory, d: &MeasuredDelta)
    requires
        d.sizes@.len() == d.delta.items@.len(),
    ensures
        held(*final(i)) == both(held(*old(i)), items_gain(*d, d.delta.items@.len() as int)),
        same_frame(*old(i), *final(i)),
{
    let ghost start = held(*i);
    let mut k: usize = 0;
    assert(held(*i) =~= both(start, nothing()));
    while k < d.delta.items.len()
        invariant
            d.sizes@.len() == d.delta.items@.len(),
            k <= d.delta.items@.len(),
            start == held(*old(i)),
            same_frame(*old(i), *i),
            held(*i) == both(start, items_gain(*d, k as int)),
        decreases d.delta.items@.len() - k,
    {
        let item: &DeltaItem = &d.delta.items[k];
        let ghost before = held(*i);
        let ghost gain = item_gain(d.delta.delta_id, *item, d.sizes@[k as int]);
        issue(
            i,
            Authority::ContextDelta,
            item.reference(),
            Some(d.delta.delta_id.clone()),
            d.sizes[k],
        );
        push_content(i, item);
        proof {
            assert(held(*i) =~= both(before, gain));
            lemma_both_associates(start, items_gain(*d, k as int), gain);
        }
        k += 1;
    }
}

/// Adds what a base context and its deltas supply to an inventory.
pub fn inventory(
    i: &mut ContextInventory,
    base: Option<(&IssuedContext, &BaseSizes)>,
    deltas: &Vec<MeasuredDelta>,
    round: u32,
    index_version: &str,
)
    requires
        base matches Some(b) ==> measures(*b.0, *b.1),
        forall|k: int|
            0 <= k < deltas@.len() ==> (#[trigger] deltas@[k]).sizes@.len()
                == deltas@[k].delta.items@.len(),
    ensures
        final(i).round == Some(round),
        held(*final(i)) == both(
            both(
                held(*old(i)),
                match base {
                    Some(b) => base_gain(*b.0, *b.1),
                    None => nothing(),
                },
            ),
            deltas_gain(deltas@, deltas@.len() as int),
        ),
        final(i).deltas@ == old(i).deltas@ + deltas@.map_values(
            |d: MeasuredDelta| delta_entry(d),
        ),
        final(i).graph_generation == generation_after(
            match base {
                Some(b) => b.0.graph_generation,
                None => old(i).graph_generation,
            },
            deltas@,
            deltas@.len() as int,
        ),
        base is Some || version_told(old(i).graph_generation, deltas@, deltas@.len() as int)
            ==> validation::is_text(final(i).graph_version, index_version@),
        base is None && !version_told(old(i).graph_generation, deltas@, deltas@.len() as int)
            ==> final(i).graph_version == old(i).graph_version,
{
    let ghost start = held(*i);
    i.round = Some(round);
    let ghost first = match base {
        Some(b) => base_gain(*b.0, *b.1),
        None => nothing(),
    };
    let ghost known = match base {
        Some(b) => b.0.graph_generation,
        None => i.graph_generation,
    };
    assert(held(*i) =~= both(start, nothing()));
    if let Some((b, sizes)) = base {
        i.graph_generation = match &b.graph_generation {
            Some(g) => Some(g.clone()),
            None => None,
        };
        i.graph_version = Some(index_version.to_owned());
        assert(held(*i) =~= start);
        push_base(i, b, sizes);
    }
    let ghost entries = deltas@.map_values(|d: MeasuredDelta| delta_entry(d));
    let ghost names = i.deltas@;
    let ghost second = held(*i);
    assert(second == both(start, first));
    assert(names == old(i).deltas@);
    let mut k: usize = 0;
    assert(held(*i) =~= both(second, nothing()));
    while k < deltas.len()
        invariant
            forall|j: int|
                0 <= j < deltas@.len() ==> (#[trigger] deltas@[j]).sizes@.len()
                    == deltas@[j].delta.items@.len(),
            k <= deltas@.len(),
            entries == deltas@.map_values(|d: MeasuredDelta| delta_entry(d)),
            i.round == Some(round),
            i.deltas@ == names + entries.take(k as int),
            i.graph_generation == generation_after(known, deltas@, k as int),
            base is Some || version_told(known, deltas@, k as int) ==> validation::is_text(
                i.graph_version,
                index_version@,
            ),
            base is None && !version_told(known, deltas@, k as int) ==> i.graph_version == old(
                i,
            ).graph_version,
            held(*i) == both(second, deltas_gain(deltas@, k as int)),
        decreases deltas@.len() - k,
    {
        let d: &MeasuredDelta = &deltas[k];
        let ghost before = held(*i);
        let approved: bool = match &d.delta.grant {
            Grant::PlannerApproved { .. } => true,
            Grant::Automatic => false,
        };
        i.deltas.push(
            DeltaManifest {
                delta_id: d.delta.delta_id.clone(),
                hash: d.artifact.hash.clone(),
                bytes: d.delta.bytes,
                round: d.delta.round,
                parent_job_id: d.delta.parent_job_id.clone(),
                planner_approved: approved,
            },
        );
        if i.graph_generation.is_none() {
            i.graph_generation = match &d.delta.graph_generation {
                Some(g) => Some(g.clone()),
                None => None,
            };
            i.graph_version = Some(index_version.to_owned());
        }
        assert(held(*i) =~= before);
        assert(i.deltas@ =~= names + entries.take(k + 1));
        push_delta(i, d);
        proof {
            lemma_both_associates(
                second,
                deltas_gain(deltas@, k as int),
                items_gain(*d, d.delta.items@.len() as int),
            );
        }
        k += 1;
    }
    assert(entries.take(k as int) =~= entries);
}

} // verus!
