//! What a planner's context shows, told by the graph and the sources it is made of.
use crate::excerpt;
use crate::graph::{ContextPacket, Edge, Entity, EntityKind, Provenance};
use crate::planning::context;
use crate::planning::context::{Parts, SourceFile};
use crate::planning::model::{PlanningContext, PlanningLimits, SourceExcerpt};
use crate::planning::scope;
use crate::planning::scope::ScopePath;
use crate::text;
use vstd::prelude::*;
use vstd::utf8::*;

verus! {

// ---------------------------------------------------------------------------
// Excerpts
// ---------------------------------------------------------------------------

proof fn lemma_excerptables(list: Seq<Entity>, limit: int, i: int)
    requires
        0 <= i,
    ensures
        ({
            let all = context::excerptables(list, limit, i);
            &&& all.len() <= limit || all.len() == 0
            &&& forall|n: int|
                0 <= n < all.len() ==> (#[trigger] all[n]).kind != EntityKind::File && all[n].kind
                    != EntityKind::Module && list.contains(all[n])
            &&& forall|k: int|
                i <= k < list.len() && (#[trigger] list[k]).kind != EntityKind::File && list[k].kind
                    != EntityKind::Module && (all.len() < limit || list.len() - i <= limit)
                    ==> all.contains(list[k])
        }),
    decreases list.len() - i,
{
    let all = context::excerptables(list, limit, i);
    if i < list.len() && limit > 0 {
        let shown = context::excerptable(list[i]);
        let left = if shown {
            limit - 1
        } else {
            limit
        };
        lemma_excerptables(list, left, i + 1);
        let rest = context::excerptables(list, left, i + 1);
        if shown {
            assert(all[0] == list[i]);
            assert forall|n: int| 0 <= n < all.len() implies (#[trigger] all[n]).kind
                != EntityKind::File && all[n].kind != EntityKind::Module && list.contains(
                all[n],
            ) by {
                if n > 0 {
                    assert(all[n] == rest[n - 1]);
                }
            }
            assert forall|k: int|
                i <= k < list.len() && (#[trigger] list[k]).kind != EntityKind::File && list[k].kind
                    != EntityKind::Module && (all.len() < limit || list.len() - i
                    <= limit) implies all.contains(list[k]) by {
                if k > i {
                    assert(rest.contains(list[k]));
                    let m = choose|m: int| 0 <= m < rest.len() && rest[m] == list[k];
                    assert(all[m + 1] == list[k]);
                }
            }
        }
    }
}

/// What is excerpted is an entity that is neither a file nor a module, of the
/// primaries, of the neighbors or of the tests; every such primary is.
proof fn lemma_candidates(g: ContextPacket)
    ensures
        forall|n: int|
            0 <= n < context::candidates(g).len() ==> {
                let e = #[trigger] context::candidates(g)[n];
                &&& e.kind != EntityKind::File
                &&& e.kind != EntityKind::Module
                &&& g.primary@.contains(e) || g.neighbors@.contains(e) || g.tests@.contains(e)
            },
        forall|k: int|
            0 <= k < g.primary@.len() && (#[trigger] g.primary@[k]).kind != EntityKind::File
                && g.primary@[k].kind != EntityKind::Module ==> context::candidates(g).contains(
                g.primary@[k],
            ),
{
    let a = context::excerptables(g.primary@, g.primary@.len() as int, 0);
    let b = context::excerptables(g.neighbors@, context::NEIGHBOR_EXCERPTS as int, 0);
    let c = context::excerptables(g.tests@, context::TEST_EXCERPTS as int, 0);
    lemma_excerptables(g.primary@, g.primary@.len() as int, 0);
    lemma_excerptables(g.neighbors@, context::NEIGHBOR_EXCERPTS as int, 0);
    lemma_excerptables(g.tests@, context::TEST_EXCERPTS as int, 0);
    let all = context::candidates(g);
    assert forall|n: int| 0 <= n < all.len() implies {
        let e = #[trigger] all[n];
        &&& e.kind != EntityKind::File
        &&& e.kind != EntityKind::Module
        &&& g.primary@.contains(e) || g.neighbors@.contains(e) || g.tests@.contains(e)
    } by {
        if n < a.len() {
            assert(all[n] == a[n]);
        } else if n < a.len() + b.len() {
            assert(all[n] == b[n - a.len()]);
        } else {
            assert(all[n] == c[n - a.len() - b.len()]);
        }
    }
    assert forall|k: int|
        0 <= k < g.primary@.len() && (#[trigger] g.primary@[k]).kind != EntityKind::File
            && g.primary@[k].kind != EntityKind::Module implies all.contains(g.primary@[k]) by {
        assert(a.contains(g.primary@[k]));
        let m = choose|m: int| 0 <= m < a.len() && a[m] == g.primary@[k];
        assert(all[m] == g.primary@[k]);
    }
}

proof fn lemma_source_at(sources: Seq<SourceFile>, path: Seq<char>, i: int)
    requires
        0 <= i,
    ensures
        match context::source_at(sources, path, i) {
            Some(k) => i <= k < sources.len() && sources[k].path@ == path && forall|j: int|
                i <= j < k ==> (#[trigger] sources[j]).path@ != path,
            None => forall|j: int| i <= j < sources.len() ==> (#[trigger] sources[j]).path@ != path,
        },
    decreases sources.len() - i,
{
    if i < sources.len() {
        lemma_source_at(sources, path, i + 1);
    }
}

/// The start of every candidate is shown by what is taken up to it.
proof fn lemma_shown(
    list: Seq<Entity>,
    sources: Seq<SourceFile>,
    limits: PlanningLimits,
    k: int,
    n: int,
) -> (x: int)
    requires
        0 <= n < k <= list.len(),
    ensures
        ({
            let all = context::excerpted(list, sources, limits, k);
            &&& 0 <= x < all.len()
            &&& all[x].provenance.path@ == list[n].provenance.path@
            &&& all[x].start == list[n].range.start_byte || all[x].start
                <= list[n].range.start_byte < all[x].end
        }),
    decreases k,
{
    let before = context::excerpted(list, sources, limits, k - 1);
    let all = context::excerpted(list, sources, limits, k);
    if n < k - 1 {
        let x = lemma_shown(list, sources, limits, k - 1, n);
        assert(all[x] == before[x]);
        x
    } else if context::covered(before, list[n]) {
        choose|i: int|
            0 <= i < before.len() && (#[trigger] before[i]).provenance.path@
                == list[n].provenance.path@ && before[i].start <= list[n].range.start_byte
                < before[i].end
    } else {
        before.len() as int
    }
}

/// Every excerpt is of a candidate, and starts where no excerpt before it shows.
proof fn lemma_taken(
    list: Seq<Entity>,
    sources: Seq<SourceFile>,
    limits: PlanningLimits,
    k: int,
    x: int,
) -> (n: int)
    requires
        0 <= k <= list.len(),
        0 <= x < context::excerpted(list, sources, limits, k).len(),
    ensures
        ({
            let all = context::excerpted(list, sources, limits, k);
            let s = context::source_at(sources, list[n].provenance.path@, 0)->0;
            &&& 0 <= n < k
            &&& all[x] == context::excerpt_of(list[n], encode_utf8(sources[s].text@), limits)
            &&& !context::covered(context::excerpted(list, sources, limits, n), list[n])
            &&& context::excerpted(list, sources, limits, n) == all.take(x)
        }),
    decreases k,
{
    let before = context::excerpted(list, sources, limits, k - 1);
    let all = context::excerpted(list, sources, limits, k);
    if x < before.len() {
        let n = lemma_taken(list, sources, limits, k - 1, x);
        assert(all[x] == before[x]);
        assert(all.take(x) =~= before.take(x));
        n
    } else {
        assert(all.take(x) =~= before);
        k - 1
    }
}

/// Every primary entity that is neither a file nor a module has its start shown: an
/// excerpt of its file starts there, or starts before and reaches beyond. `v` is what
/// `excerpts` gives.
pub proof fn law_every_primary_entity_is_shown(
    g: ContextPacket,
    sources: Seq<SourceFile>,
    limits: PlanningLimits,
    v: Seq<SourceExcerpt>,
    k: int,
)
    requires
        context::excerpts_are(
            v,
            context::excerpted(
                context::candidates(g),
                sources,
                limits,
                context::candidates(g).len() as int,
            ),
        ),
        0 <= k < g.primary@.len(),
        g.primary@[k].kind != EntityKind::File,
        g.primary@[k].kind != EntityKind::Module,
    ensures
        exists|x: int|
            {
                &&& 0 <= x < v.len()
                &&& (#[trigger] v[x]).provenance.path@ == g.primary@[k].provenance.path@
                &&& v[x].start_byte <= g.primary@[k].range.start_byte
                &&& v[x].start_byte == g.primary@[k].range.start_byte
                    || g.primary@[k].range.start_byte < v[x].end_byte
            },
{
    let list = context::candidates(g);
    lemma_candidates(g);
    assert(list.contains(g.primary@[k]));
    let n = choose|n: int| 0 <= n < list.len() && list[n] == g.primary@[k];
    let x = lemma_shown(list, sources, limits, list.len() as int, n);
    let views = context::excerpted(list, sources, limits, list.len() as int);
    assert(context::excerpt_is(v[x], views[x]));
    assert(v[x].provenance.path@ == g.primary@[k].provenance.path@);
}

/// Whether an excerpt shows an entity of a graph exactly, out of the `s`-th source.
pub open spec fn shows(
    g: ContextPacket,
    sources: Seq<SourceFile>,
    limits: PlanningLimits,
    x: SourceExcerpt,
    e: Entity,
    s: int,
) -> bool {
    let bytes = encode_utf8(sources[s].text@);
    &&& g.primary@.contains(e) || g.neighbors@.contains(e) || g.tests@.contains(e)
    &&& e.kind != EntityKind::File
    &&& e.kind != EntityKind::Module
    &&& 0 <= s < sources.len()
    &&& sources[s].path@ == e.provenance.path@
    &&& x.entity is Some
    &&& x.entity->0@ == e.id@
    &&& x.provenance == e.provenance
    &&& x.start_byte == e.range.start_byte
    &&& x.start_line == e.range.start_line
    &&& x.start_byte <= x.end_byte <= e.range.end_byte
    &&& x.end_byte <= bytes.len()
    &&& x.end_byte - x.start_byte <= limits.excerpt_bytes
    &&& encode_utf8(x.text@) == bytes.subrange(x.start_byte as int, x.end_byte as int)
    &&& x.truncated <==> x.end_byte < e.range.end_byte
}

/// An excerpt shows exactly a part of its file: that of the entity it names, which is
/// neither a file nor a module, from its start on, up to its end or to where the
/// limits cut it, and it says whether they did. No excerpt before it in the same file
/// shows where it starts.
pub proof fn law_excerpts_are_exact(
    g: ContextPacket,
    sources: Seq<SourceFile>,
    limits: PlanningLimits,
    v: Seq<SourceExcerpt>,
    x: int,
    y: int,
)
    requires
        context::excerpts_are(
            v,
            context::excerpted(
                context::candidates(g),
                sources,
                limits,
                context::candidates(g).len() as int,
            ),
        ),
        context::excerpts_refusal(context::candidates(g), sources, limits, 0) is None,
        context::readable(context::candidates(g), sources),
        0 <= x < v.len(),
    ensures
        exists|e: Entity, s: int| #[trigger] shows(g, sources, limits, v[x], e, s),
        0 <= y < x ==> !(v[y].provenance.path@ == v[x].provenance.path@ && v[y].start_byte
            <= v[x].start_byte < v[y].end_byte),
{
    let list = context::candidates(g);
    let views = context::excerpted(list, sources, limits, list.len() as int);
    lemma_candidates(g);
    let n = lemma_taken(list, sources, limits, list.len() as int, x);
    let e = list[n];
    assert(list[n] == context::candidates(g)[n]);
    lemma_source_at(sources, e.provenance.path@, 0);
    let s = context::source_at(sources, e.provenance.path@, 0)->0;
    let bytes = encode_utf8(sources[s].text@);
    assert(context::source_at(sources, list[n].provenance.path@, 0) is Some);
    assert(context::excerpt_is(v[x], views[x]));
    lemma_in_range(list, sources, limits, 0, n);
    excerpt::law_a_bounded_part_is_bounded(
        bytes,
        e.range.start_byte as int,
        e.range.end_byte as int,
        limits.excerpt_bytes as int,
        limits.excerpt_lines as int,
    );
    assert(sources[s].path@ == e.provenance.path@);
    assert(shows(g, sources, limits, v[x], e, s));
    if 0 <= y < x {
        let before = context::excerpted(list, sources, limits, n);
        assert(before[y] == views[y]);
        assert(context::excerpt_is(v[y], views[y]));
    }
}

proof fn lemma_in_range(
    list: Seq<Entity>,
    sources: Seq<SourceFile>,
    limits: PlanningLimits,
    k: int,
    n: int,
)
    requires
        0 <= k <= n < list.len(),
        context::excerpts_refusal(list, sources, limits, k) is None,
        !context::covered(context::excerpted(list, sources, limits, n), list[n]),
    ensures
        ({
            let s = context::source_at(sources, list[n].provenance.path@, 0)->0;
            let bytes = encode_utf8(sources[s].text@);
            &&& is_char_boundary(bytes, list[n].range.start_byte as int)
            &&& list[n].range.start_byte <= bytes.len()
            &&& list[n].range.end_byte <= bytes.len()
        }),
    decreases n - k,
{
    if k < n {
        lemma_in_range(list, sources, limits, k + 1, n);
    }
}

// ---------------------------------------------------------------------------
// Files
// ---------------------------------------------------------------------------

/// The files that are chosen: at most as many as the limit, no file twice, each that
/// of an entity of the list and, where scopes are asked for, inside one of them. Where
/// fewer than the limit are chosen, no such file is left out.
pub proof fn law_chosen_files_are_those_of_the_graph(
    list: Seq<Entity>,
    scopes: Seq<ScopePath>,
    limit: int,
    k: int,
)
    requires
        0 <= k <= list.len(),
        0 <= limit,
    ensures
        ({
            let files = context::chosen(list, scopes, limit, k);
            &&& files.len() <= limit
            &&& files.no_duplicates()
            &&& forall|n: int|
                0 <= n < files.len() ==> (exists|e: int|
                    0 <= e < k && (#[trigger] list[e]).provenance.path@ == #[trigger] files[n])
            &&& forall|n: int|
                0 <= n < files.len() && scopes.len() > 0 ==> (exists|r: int|
                    0 <= r < scopes.len() && scope::allows(
                        #[trigger] scopes[r],
                        #[trigger] files[n],
                    ))
            &&& files.len() < limit ==> forall|e: int|
                0 <= e < k && (scopes.len() == 0 || inside((#[trigger] list[e]), scopes))
                    ==> files.contains(list[e].provenance.path@)
        }),
    decreases k,
{
    if k > 0 {
        law_chosen_files_are_those_of_the_graph(list, scopes, limit, k - 1);
        let before = context::chosen(list, scopes, limit, k - 1);
        let files = context::chosen(list, scopes, limit, k);
        let path = list[k - 1].provenance.path@;
        assert forall|n: int| 0 <= n < files.len() implies (exists|e: int|
            0 <= e < k && (#[trigger] list[e]).provenance.path@ == #[trigger] files[n]) by {
            if n < before.len() {
                assert(files[n] == before[n]);
                let e = choose|e: int|
                    0 <= e < k - 1 && (#[trigger] list[e]).provenance.path@ == before[n];
                assert(list[e].provenance.path@ == files[n]);
            } else {
                assert(list[k - 1].provenance.path@ == files[n]);
            }
        }
        assert forall|n: int| 0 <= n < files.len() && scopes.len() > 0 implies (exists|r: int|
            0 <= r < scopes.len() && scope::allows(#[trigger] scopes[r], #[trigger] files[n])) by {
            if n < before.len() {
                assert(files[n] == before[n]);
                let r = choose|r: int|
                    0 <= r < scopes.len() && scope::allows(#[trigger] scopes[r], before[n]);
                assert(scope::allows(scopes[r], files[n]));
            } else {
                let r = choose|r: int|
                    0 <= r < scopes.len() && scope::allows(#[trigger] scopes[r], path);
                assert(scope::allows(scopes[r], files[n]));
            }
        }
        if files.len() < limit {
            assert forall|e: int|
                0 <= e < k && (scopes.len() == 0 || inside(
                    (#[trigger] list[e]),
                    scopes,
                )) implies files.contains(list[e].provenance.path@) by {
                if e < k - 1 {
                    assert(before.contains(list[e].provenance.path@));
                    let m = choose|m: int|
                        0 <= m < before.len() && before[m] == list[e].provenance.path@;
                    assert(files[m] == before[m]);
                } else if files.len() > before.len() {
                    assert(files[files.len() - 1] == path);
                }
            }
        }
    }
}

/// Whether the file of an entity lies inside one of some scopes.
pub open spec fn inside(e: Entity, scopes: Seq<ScopePath>) -> bool {
    exists|r: int| 0 <= r < scopes.len() && scope::allows(#[trigger] scopes[r], e.provenance.path@)
}

// ---------------------------------------------------------------------------
// Support
// ---------------------------------------------------------------------------

proof fn lemma_last_of(list: Seq<Provenance>, path: Seq<char>, k: int)
    requires
        0 <= k <= list.len(),
    ensures
        match context::last_of(list, path, k) {
            Some(p) => p.path@ == path && exists|i: int|
                0 <= i < k && #[trigger] list[i] == p && forall|j: int|
                    i < j < k ==> (#[trigger] list[j]).path@ != path,
            None => forall|j: int| 0 <= j < k ==> (#[trigger] list[j]).path@ != path,
        },
    decreases k,
{
    if k > 0 {
        lemma_last_of(list, path, k - 1);
        if list[k - 1].path@ == path {
            assert(list[k - 1] == context::last_of(list, path, k)->0);
        }
    }
}

/// Every file that a context carries something of has exactly one support, which is
/// the last thing it carries of that file: of its primaries, tests, neighbors,
/// relations and excerpts. Nothing else is a support, and they are in order.
pub proof fn law_every_carried_file_is_supported(
    support: Seq<Provenance>,
    c: PlanningContext,
    path: Seq<char>,
    i: int,
)
    requires
        context::supports_all(support, context::carried(c)),
    ensures
        (exists|n: int| 0 <= n < support.len() && (#[trigger] support[n]).path@ == path) <==> {
            ||| exists|e: int|
                0 <= e < c.graph.primary@.len() && (
                #[trigger] c.graph.primary@[e]).provenance.path@ == path
            ||| exists|e: int|
                0 <= e < c.graph.tests@.len() && (#[trigger] c.graph.tests@[e]).provenance.path@
                    == path
            ||| exists|e: int|
                0 <= e < c.graph.neighbors@.len() && (
                #[trigger] c.graph.neighbors@[e]).provenance.path@ == path
            ||| exists|e: int|
                0 <= e < c.graph.relations@.len() && (
                #[trigger] c.graph.relations@[e]).provenance.path@ == path
            ||| exists|e: int|
                0 <= e < c.excerpts@.len() && (#[trigger] c.excerpts@[e]).provenance.path@ == path
        },
        forall|a: int, b: int|
            0 <= a < b < support.len() ==> text::before(
                (#[trigger] support[a]).path@,
                (#[trigger] support[b]).path@,
            ),
        0 <= i < support.len() ==> context::carried(c).contains(support[i]),
{
    let list = context::carried(c);
    let paths = context::paths_of(list);
    let own = context::paths_of(support);
    text::law_texts_can_be_ordered(paths);
    let (n1, n2, n3, n4) = (
        c.graph.primary@.len(),
        c.graph.tests@.len(),
        c.graph.neighbors@.len(),
        c.graph.relations@.len(),
    );
    assert(own.contains(path) <==> paths.contains(path));
    if exists|n: int| 0 <= n < support.len() && (#[trigger] support[n]).path@ == path {
        let n = choose|n: int| 0 <= n < support.len() && (#[trigger] support[n]).path@ == path;
        assert(own[n] == path);
        assert(paths.contains(path));
        let m = choose|m: int| 0 <= m < paths.len() && paths[m] == path;
        assert(list[m].path@ == path);
        if m < n1 {
            assert(c.graph.primary@[m].provenance.path@ == path);
        } else if m < n1 + n2 {
            assert(c.graph.tests@[m - n1].provenance.path@ == path);
        } else if m < n1 + n2 + n3 {
            assert(c.graph.neighbors@[m - n1 - n2].provenance.path@ == path);
        } else if m < n1 + n2 + n3 + n4 {
            assert(c.graph.relations@[m - n1 - n2 - n3].provenance.path@ == path);
        } else {
            assert(c.excerpts@[m - n1 - n2 - n3 - n4].provenance.path@ == path);
        }
    }
    if exists|e: int|
        0 <= e < c.graph.primary@.len() && (#[trigger] c.graph.primary@[e]).provenance.path@ == path {
        let e = choose|e: int|
            0 <= e < c.graph.primary@.len() && (#[trigger] c.graph.primary@[e]).provenance.path@
                == path;
        assert(paths[e] == path);
    }
    if exists|e: int|
        0 <= e < c.graph.tests@.len() && (#[trigger] c.graph.tests@[e]).provenance.path@ == path {
        let e = choose|e: int|
            0 <= e < c.graph.tests@.len() && (#[trigger] c.graph.tests@[e]).provenance.path@
                == path;
        assert(paths[n1 + e] == path);
    }
    if exists|e: int|
        0 <= e < c.graph.neighbors@.len() && (#[trigger] c.graph.neighbors@[e]).provenance.path@
            == path {
        let e = choose|e: int|
            0 <= e < c.graph.neighbors@.len() && (
            #[trigger] c.graph.neighbors@[e]).provenance.path@ == path;
        assert(paths[n1 + n2 + e] == path);
    }
    if exists|e: int|
        0 <= e < c.graph.relations@.len() && (#[trigger] c.graph.relations@[e]).provenance.path@
            == path {
        let e = choose|e: int|
            0 <= e < c.graph.relations@.len() && (
            #[trigger] c.graph.relations@[e]).provenance.path@ == path;
        assert(paths[n1 + n2 + n3 + e] == path);
    }
    if exists|e: int|
        0 <= e < c.excerpts@.len() && (#[trigger] c.excerpts@[e]).provenance.path@ == path {
        let e = choose|e: int|
            0 <= e < c.excerpts@.len() && (#[trigger] c.excerpts@[e]).provenance.path@ == path;
        assert(paths[n1 + n2 + n3 + n4 + e] == path);
    }
    if own.contains(path) {
        let n = choose|n: int| 0 <= n < own.len() && own[n] == path;
        assert(support[n].path@ == path);
    }
    assert forall|a: int, b: int| 0 <= a < b < support.len() implies text::before(
        (#[trigger] support[a]).path@,
        (#[trigger] support[b]).path@,
    ) by {
        assert(text::before(own[a], own[b]));
    }
    if 0 <= i < support.len() {
        lemma_last_of(list, support[i].path@, list.len() as int);
        assert(Some(support[i]) == context::last_of(list, support[i].path@, list.len() as int));
    }
}

// ---------------------------------------------------------------------------
// Shedding
// ---------------------------------------------------------------------------

/// Whether an excerpt is of one of some entities.
pub open spec fn of_one(x: SourceExcerpt, list: Seq<Entity>) -> bool {
    x.entity is Some && exists|i: int|
        0 <= i < list.len() && (#[trigger] list[i]).id@ == x.entity->0@
}

proof fn lemma_last_showing(list: Seq<SourceExcerpt>, of: Seq<Entity>, k: int)
    requires
        0 <= k <= list.len(),
    ensures
        match context::last_showing(list, of, k) {
            Some(i) => 0 <= i < k && of_one(list[i], of),
            None => forall|i: int| 0 <= i < k ==> !of_one(#[trigger] list[i], of),
        },
    decreases k,
{
    if k > 0 {
        lemma_last_showing(list, of, k - 1);
        let ids = context::entity_ids(of);
        if let Some(id) = list[k - 1].entity {
            if ids.contains(id@) {
                let i = choose|i: int| 0 <= i < ids.len() && ids[i] == id@;
                assert(of[i].id@ == id@);
            }
            if of_one(list[k - 1], of) {
                let i = choose|i: int| 0 <= i < of.len() && (#[trigger] of[i]).id@ == id@;
                assert(ids[i] == id@);
            }
        }
    }
}

/// What is worth more is given up only where nothing worth less is left. The impact
/// outlook goes first, and then unresolved references, relations, excerpts of tests,
/// neighbors, all tests but one, memory, all excerpts but one, the last test, all
/// primaries but one, the last excerpt, and the last primary. Of each list the end
/// goes first.
pub proof fn law_the_least_valuable_is_shed_first(p: Parts)
    requires
        context::shed_once(p) is Some,
    ensures
        ({
            let q = context::shed_once(p)->0;
            let poor = !p.impact && p.unresolved.len() == 0 && p.relations.len() == 0;
            let untested = forall|i: int|
                0 <= i < p.excerpts.len() ==> !of_one(#[trigger] p.excerpts[i], p.tests);
            &&& p.impact ==> !q.impact && q.unresolved == p.unresolved && q.neighbors == p.neighbors
                && q.tests == p.tests && q.memory == p.memory && q.primary == p.primary
            &&& q.unresolved != p.unresolved ==> !p.impact && q.unresolved
                == p.unresolved.drop_last() && q.neighbors == p.neighbors && q.tests == p.tests
                && q.memory == p.memory && q.primary == p.primary
            &&& q.neighbors != p.neighbors ==> poor && untested && q.neighbors
                == p.neighbors.drop_last() && q.tests == p.tests && q.memory == p.memory && q.primary
                == p.primary
            &&& q.tests != p.tests ==> poor && untested && p.neighbors.len() == 0 && q.tests
                == p.tests.drop_last() && q.memory == p.memory && q.primary == p.primary && (
            p.tests.len() > 1 || p.memory.len() == 0 && p.excerpts.len() <= 1)
            &&& q.memory != p.memory ==> poor && untested && p.neighbors.len() == 0 && p.tests.len()
                <= 1 && q.memory == p.memory.drop_last() && q.memory_truncated && q.primary
                == p.primary
            &&& q.primary != p.primary ==> poor && p.neighbors.len() == 0 && p.tests.len() == 0
                && p.memory.len() == 0 && p.excerpts.len() <= 1 && q.primary
                == p.primary.drop_last() && (p.primary.len() > 1 || p.excerpts.len() == 0)
        }),
{
    lemma_last_showing(p.excerpts, p.tests, p.excerpts.len() as int);
}

/// Whether an entity of an identifier is left.
pub open spec fn left(p: Parts, id: Seq<char>) -> bool {
    ||| exists|i: int| 0 <= i < p.primary.len() && (#[trigger] p.primary[i]).id@ == id
    ||| exists|i: int| 0 <= i < p.neighbors.len() && (#[trigger] p.neighbors[i]).id@ == id
    ||| exists|i: int| 0 <= i < p.tests.len() && (#[trigger] p.tests[i]).id@ == id
}

proof fn lemma_has_id(list: Seq<Entity>, id: Seq<char>)
    ensures
        context::has_id(list, id) <==> exists|i: int|
            0 <= i < list.len() && (#[trigger] list[i]).id@ == id,
{
    let ids = context::entity_ids(list);
    if ids.contains(id) {
        let i = choose|i: int| 0 <= i < ids.len() && ids[i] == id;
        assert(list[i].id@ == id);
    }
    if exists|i: int| 0 <= i < list.len() && (#[trigger] list[i]).id@ == id {
        let i = choose|i: int| 0 <= i < list.len() && (#[trigger] list[i]).id@ == id;
        assert(ids[i] == id);
    }
}

proof fn lemma_left(p: Parts, id: Seq<char>)
    ensures
        context::present(p, id) == left(p, id),
{
    lemma_has_id(p.primary, id);
    lemma_has_id(p.neighbors, id);
    lemma_has_id(p.tests, id);
}

proof fn lemma_anchored_from(p: Parts, list: Seq<Edge>, i: int, e: Edge)
    requires
        0 <= i,
    ensures
        context::anchored_from(p, list, i).contains(e) <==> context::anchored(p, e) && exists|k: int|
            i <= k < list.len() && #[trigger] list[k] == e,
    decreases list.len() - i,
{
    if i < list.len() {
        lemma_anchored_from(p, list, i + 1, e);
        let rest = context::anchored_from(p, list, i + 1);
        let all = context::anchored_from(p, list, i);
        if context::anchored(p, list[i]) {
            assert(all[0] == list[i]);
            if rest.contains(e) {
                let m = choose|m: int| 0 <= m < rest.len() && rest[m] == e;
                assert(all[m + 1] == e);
            }
            if all.contains(e) {
                let m = choose|m: int| 0 <= m < all.len() && all[m] == e;
                if m > 0 {
                    assert(rest[m - 1] == e);
                }
            }
        }
    }
}

proof fn lemma_attached_from(p: Parts, list: Seq<SourceExcerpt>, i: int, x: SourceExcerpt)
    requires
        0 <= i,
    ensures
        context::attached_from(p, list, i).contains(x) <==> context::attached(p, x) && exists|k: int|
            i <= k < list.len() && #[trigger] list[k] == x,
    decreases list.len() - i,
{
    if i < list.len() {
        lemma_attached_from(p, list, i + 1, x);
        let rest = context::attached_from(p, list, i + 1);
        let all = context::attached_from(p, list, i);
        if context::attached(p, list[i]) {
            assert(all[0] == list[i]);
            if rest.contains(x) {
                let m = choose|m: int| 0 <= m < rest.len() && rest[m] == x;
                assert(all[m + 1] == x);
            }
            if all.contains(x) {
                let m = choose|m: int| 0 <= m < all.len() && all[m] == x;
                if m > 0 {
                    assert(rest[m - 1] == x);
                }
            }
        }
    }
}

/// After something was given up, a relation is left exactly where it was there before,
/// and was not itself given up, and both of its ends are still there; and an excerpt
/// where it was there before, and was not itself given up, and its entity still is.
pub proof fn law_what_hangs_on_nothing_goes_too(p: Parts, e: Edge, x: SourceExcerpt)
    requires
        context::shed_once(p) is Some,
    ensures
        ({
            let q = context::shed_once(p)->0;
            let rooted = left(q, e.source@) && (e.target is Some ==> left(q, e.target->0@));
            let held = x.entity is Some ==> left(q, x.entity->0@);
            &&& q.relations.contains(e) ==> p.relations.contains(e) && rooted
            &&& p.relations.contains(e) && rooted && (p.impact || p.unresolved.len() > 0)
                ==> q.relations.contains(e)
            &&& !p.impact && p.unresolved.len() == 0 && p.relations.drop_last().contains(e)
                && p.relations.len() > 0 && rooted ==> q.relations.contains(e)
            &&& q.excerpts.contains(x) ==> p.excerpts.contains(x) && held
            &&& p.excerpts.contains(x) && held && (p.impact || p.unresolved.len() > 0
                || p.relations.len() > 0) ==> q.excerpts.contains(x)
        }),
{
    let d = context::dropped(p)->0;
    let q = context::shed_once(p)->0;
    lemma_last_showing(p.excerpts, p.tests, p.excerpts.len() as int);
    lemma_left(q, e.source@);
    lemma_left(d, e.source@);
    if let Some(t) = e.target {
        lemma_left(q, t@);
        lemma_left(d, t@);
    }
    if let Some(id) = x.entity {
        lemma_left(q, id@);
        lemma_left(d, id@);
    }
    lemma_anchored_from(d, d.relations, 0, e);
    lemma_attached_from(d, d.excerpts, 0, x);
    if q.relations.contains(e) {
        let k = choose|k: int| 0 <= k < d.relations.len() && #[trigger] d.relations[k] == e;
        assert(p.relations[k] == e);
    }
    if q.excerpts.contains(x) {
        let k = choose|k: int| 0 <= k < d.excerpts.len() && #[trigger] d.excerpts[k] == x;
        if d.excerpts == p.excerpts {
            assert(p.excerpts[k] == x);
        } else {
            assert(p.excerpts[k] == x || p.excerpts[k + 1] == x);
        }
    }
    if p.relations.contains(e) && (p.impact || p.unresolved.len() > 0) {
        let k = choose|k: int| 0 <= k < p.relations.len() && p.relations[k] == e;
        assert(d.relations[k] == e);
    }
    if !p.impact && p.unresolved.len() == 0 && p.relations.len() > 0
        && p.relations.drop_last().contains(e) {
        let k = choose|k: int|
            0 <= k < p.relations.drop_last().len() && p.relations.drop_last()[k] == e;
        assert(d.relations[k] == e);
    }
    if p.excerpts.contains(x) && (p.impact || p.unresolved.len() > 0 || p.relations.len() > 0) {
        let k = choose|k: int| 0 <= k < p.excerpts.len() && p.excerpts[k] == x;
        assert(d.excerpts[k] == x);
    }
}

/// Files are chosen in the order in which they matter: those of the primaries, of the
/// first test, of the neighbors, and of the other tests.
pub proof fn law_primaries_come_first(g: ContextPacket, i: int)
    ensures
        ({
            let all = context::priority(g);
            let (a, b, c) = (g.primary@.len(), g.neighbors@.len(), g.tests@.len());
            &&& all.len() == a + b + c
            &&& 0 <= i < a ==> all[i] == g.primary@[i]
            &&& c > 0 ==> all[a as int] == g.tests@[0]
            &&& 0 <= i < b ==> all[a + i + (if c > 0 {
                1int
            } else {
                0
            })] == g.neighbors@[i]
            &&& 1 <= i < c ==> all[a + b + i] == g.tests@[i]
        }),
{
}

} // verus!
