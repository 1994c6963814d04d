//! The base context of an executor: planner references, dereferenced, and
//! nothing else.
use crate::error::{invalid, Error};
use crate::excerpt;
use crate::graph::{Entity, GraphGeneration};
use crate::manifest::Authority;
use crate::planning::model::{NamedCommand, ProjectPolicy, TaskInspection, VerificationProfile};
use crate::planning::plan;
use crate::planning::plan::find_entity;
use crate::planning::scope::ScopePath;
use crate::protocol::CommandSpec;
use crate::runtime::context;
use crate::runtime::context::{
    CapturedFile, EntityFacts, Envelope, IssuedCheck, IssuedContext, IssuedFile, IssuedMemory,
    IssuedSymbol, MemoryRecord, RelatedEntity, SliceView, Snapshot, SourceText,
};
use crate::runtime::resolve;
use crate::runtime::resolve::{neighbors, Neighbor, Ontology};
use crate::text;
use vstd::prelude::*;
use vstd::string::*;
use vstd::utf8::*;

verus! {

pub const DEFINITION_BYTES: usize = 6144;

pub const DEFINITION_LINES: usize = 160;

pub const FILE_BYTES: usize = 16384;

pub const BASE_TEXT_BYTES: usize = 65536;

/// Resolved relations shown per direction for a planner-selected entity.
pub const RELATED_STUBS: usize = 8;

/// A drift of the source that only a new plan can answer.
pub open spec fn drift_message(what: Seq<char>) -> Seq<char> {
    "SOURCE_DRIFT: "@ + what + "; replan required"@
}

pub fn drift<T>(what: &str) -> (r: Result<T, Error>)
    ensures
        crate::error::refused(r, drift_message(what@)),
{
    let m: String = text::join3("SOURCE_DRIFT: ", what, "; replan required");
    invalid(m.as_str())
}

pub open spec fn smaller(a: int, b: int) -> int {
    if a < b {
        a
    } else {
        b
    }
}

// ---------------------------------------------------------------------------
// Symbols
// ---------------------------------------------------------------------------

/// The first neighbors inside an envelope, at most `limit` of them, from the
/// `i`-th on.
pub open spec fn stubs(env: Envelope, list: Seq<Neighbor>, limit: int, i: int) -> Seq<RelatedEntity>
    decreases list.len() - i,
{
    if i < 0 || i >= list.len() || limit <= 0 {
        Seq::empty()
    } else if env.reaches(list[i].entity.provenance.path@) {
        seq![context::relates(list[i].entity, list[i].edge)] + stubs(env, list, limit - 1, i + 1)
    } else {
        stubs(env, list, limit, i + 1)
    }
}

fn show_stubs(env: &Envelope, list: &Vec<Neighbor>) -> (r: Vec<RelatedEntity>)
    ensures
        r@ == stubs(*env, list@, RELATED_STUBS as int, 0),
        r@.len() <= list@.len(),
{
    let mut out: Vec<RelatedEntity> = Vec::new();
    let mut left: usize = RELATED_STUBS;
    let mut i: usize = 0;
    while i < list.len() && left > 0
        invariant
            i <= list@.len(),
            out@.len() <= i,
            out@ + stubs(*env, list@, left as int, i as int) == stubs(
                *env,
                list@,
                RELATED_STUBS as int,
                0,
            ),
        decreases list@.len() - i,
    {
        let ghost so_far = out@;
        if env.permits(list[i].entity.provenance.path.as_str()) {
            out.push(context::related(&list[i].entity, &list[i].edge));
            left -= 1;
            assert(out@ + stubs(*env, list@, left as int, i + 1) =~= so_far + (seq![
                context::relates(list@[i as int].entity, list@[i as int].edge),
            ] + stubs(*env, list@, left as int, i + 1)));
        }
        i += 1;
    }
    assert(out@ + stubs(*env, list@, left as int, i as int) =~= out@);
    out
}

/// The definition of a selected entity within what is left of the allowance.
pub open spec fn shown_definition(source: Snapshot, e: Entity, allowance: int) -> Option<SliceView> {
    if allowance == 0 {
        None
    } else {
        context::definition_of(
            source,
            e,
            smaller(allowance, DEFINITION_BYTES as int),
            DEFINITION_LINES as int,
        )
    }
}

/// How much of the allowance a definition takes.
pub open spec fn taken(d: Option<SliceView>) -> int {
    match d {
        Some(v) => v.bytes.len() as int,
        None => 0,
    }
}

/// Why a selected entity cannot be issued, if anything.
pub open spec fn symbol_refusal(
    o: resolve::Ontology,
    source: Snapshot,
    env: Envelope,
    id: Seq<char>,
    allowance: int,
) -> Option<Seq<char>> {
    match plan::entity_at(o.entities@, id, 0) {
        None => Some(
            drift_message(
                "planner-selected graph entity "@ + id + " is absent from the current ontology"@,
            ),
        ),
        Some(n) => {
            let e = o.entities@[n];
            if !env.reaches(e.provenance.path@) {
                Some("planner-selected graph entity lies outside the task read scope"@)
            } else if allowance == 0 {
                None
            } else {
                crate::error::either(
                    context::definition_refusal(source, e),
                    if shown_definition(source, e, allowance) is None {
                        Some(
                            drift_message(
                                "graph entity "@ + id + " no longer matches captured source"@,
                            ),
                        )
                    } else {
                        None
                    },
                )
            }
        },
    }
}

/// Whether an issued symbol shows a selected entity.
pub open spec fn symbol_is(
    s: IssuedSymbol,
    o: resolve::Ontology,
    source: Snapshot,
    env: Envelope,
    id: Seq<char>,
    allowance: int,
) -> bool {
    let e = o.entities@[plan::entity_at(o.entities@, id, 0)->0];
    let callers = resolve::neighbors_of(o, id, true, resolve::EDGE_SCAN as int);
    let callees = resolve::neighbors_of(o, id, false, resolve::EDGE_SCAN as int);
    &&& context::facts_of(s.entity, e)
    &&& context::optional_slice_is(s.definition, shown_definition(source, e, allowance))
    &&& s.callers@ == stubs(env, callers, RELATED_STUBS as int, 0)
    &&& s.callees@ == stubs(env, callees, RELATED_STUBS as int, 0)
    &&& s.withheld == callers.len() - s.callers@.len() + callees.len() - s.callees@.len()
}

/// Whether anything of a selected entity is left out for want of room.
pub open spec fn symbol_cut(o: resolve::Ontology, source: Snapshot, id: Seq<char>, allowance: int) -> bool {
    let e = o.entities@[plan::entity_at(o.entities@, id, 0)->0];
    ||| match shown_definition(source, e, allowance) {
        Some(v) => v.truncated,
        None => true,
    }
    ||| resolve::crowded(o, id, true, resolve::EDGE_SCAN as int)
    ||| resolve::crowded(o, id, false, resolve::EDGE_SCAN as int)
}

proof fn lemma_definition_fits(source: Snapshot, e: Entity, allowance: int)
    requires
        0 <= allowance,
        context::definition_refusal(source, e) is None,
    ensures
        0 <= taken(shown_definition(source, e, allowance)) <= smaller(
            allowance,
            DEFINITION_BYTES as int,
        ),
{
    if allowance > 0 {
        if let Some(bytes) = context::entity_bytes(source, e) {
            excerpt::law_a_bounded_part_is_bounded(
                bytes,
                e.range.start_byte as int,
                e.range.end_byte as int,
                smaller(allowance, DEFINITION_BYTES as int),
                DEFINITION_LINES as int,
            );
        }
    }
}

fn issue_symbol(o: &Ontology, source: &Snapshot, env: &Envelope, id: &str, allowance: usize) -> (r: Result<
    (IssuedSymbol, usize, bool),
    Error,
>)
    requires
        resolve::all_lines_fit(*o, *source),
    ensures
        crate::error::settles(r, symbol_refusal(*o, *source, *env, id@, allowance as int)),
        r matches Ok(x) ==> {
            let e = o.entities@[plan::entity_at(o.entities@, id@, 0)->0];
            &&& symbol_is(x.0, *o, *source, *env, id@, allowance as int)
            &&& x.1 == allowance - taken(shown_definition(*source, e, allowance as int))
            &&& x.1 <= allowance
            &&& x.2 == symbol_cut(*o, *source, id@, allowance as int)
        },
{
    let n: usize = match find_entity(&o.entities, id) {
        Some(n) => n,
        None => {
            let m: String = text::join3(
                "planner-selected graph entity ",
                id,
                " is absent from the current ontology",
            );
            return drift(m.as_str());
        },
    };
    let e: &Entity = &o.entities[n];
    if !env.permits(e.provenance.path.as_str()) {
        return invalid("planner-selected graph entity lies outside the task read scope");
    }
    let mut left: usize = allowance;
    let mut cut: bool = false;
    let mut shown: Option<SourceText> = None;
    if allowance == 0 {
        cut = true;
    } else {
        let budget: usize = if allowance < DEFINITION_BYTES {
            allowance
        } else {
            DEFINITION_BYTES
        };
        let found: Option<SourceText> = match context::definition(
            source,
            e,
            budget,
            DEFINITION_LINES,
        ) {
            Ok(x) => x,
            Err(error) => return Err(error),
        };
        proof {
            lemma_definition_fits(*source, *e, allowance as int);
        }
        match found {
            None => {
                let m: String = text::join3(
                    "graph entity ",
                    id,
                    " no longer matches captured source",
                );
                return drift(m.as_str());
            },
            Some(d) => {
                left = allowance - text::byte_len(d.text.as_str());
                cut = d.truncated;
                shown = Some(d);
            },
        }
    }
    let (callers, many_in) = neighbors(o, id, true, resolve::EDGE_SCAN);
    let (callees, many_out) = neighbors(o, id, false, resolve::EDGE_SCAN);
    let incoming: Vec<RelatedEntity> = show_stubs(env, &callers);
    let outgoing: Vec<RelatedEntity> = show_stubs(env, &callees);
    proof {
        lemma_neighbors_bounded(*o, id@, true, resolve::EDGE_SCAN as int);
        lemma_neighbors_bounded(*o, id@, false, resolve::EDGE_SCAN as int);
    }
    let withheld: usize = (callers.len() - incoming.len()) + (callees.len() - outgoing.len());
    let s: IssuedSymbol = IssuedSymbol {
        entity: EntityFacts::of(e),
        definition: shown,
        callers: incoming,
        callees: outgoing,
        withheld,
    };
    Ok((s, left, cut || many_in || many_out))
}

proof fn lemma_found_bounded(
    list: Seq<crate::graph::Edge>,
    entities: Seq<Entity>,
    id: Seq<char>,
    incoming: bool,
    k: int,
)
    requires
        0 <= k,
    ensures
        resolve::found(list, entities, id, incoming, k).len() <= k,
    decreases k,
{
    if k > 0 {
        lemma_found_bounded(list, entities, id, incoming, k - 1);
    }
}

proof fn lemma_neighbors_bounded(o: resolve::Ontology, id: Seq<char>, incoming: bool, limit: int)
    requires
        0 <= limit,
    ensures
        resolve::neighbors_of(o, id, incoming, limit).len() <= limit,
{
    let list = resolve::scanned(o.edges@, id, incoming, limit + 1, 0);
    lemma_found_bounded(
        list,
        o.entities@,
        id,
        incoming,
        if list.len() > limit {
            limit
        } else {
            list.len() as int
        },
    );
}

/// What is left of the allowance after the first `k` selected entities.
pub open spec fn symbols_left(o: resolve::Ontology, source: Snapshot, ids: Seq<Seq<char>>, allowance: int, k: int) -> int
    decreases k,
{
    if k <= 0 {
        allowance
    } else {
        let left = symbols_left(o, source, ids, allowance, k - 1);
        left - taken(
            shown_definition(
                source,
                o.entities@[plan::entity_at(o.entities@, ids[k - 1], 0)->0],
                left,
            ),
        )
    }
}

/// Whether anything of the first `k` selected entities is left out.
pub open spec fn symbols_cut(o: resolve::Ontology, source: Snapshot, ids: Seq<Seq<char>>, allowance: int, k: int) -> bool
    decreases k,
{
    k > 0 && (symbols_cut(o, source, ids, allowance, k - 1) || symbol_cut(
        o,
        source,
        ids[k - 1],
        symbols_left(o, source, ids, allowance, k - 1),
    ))
}

/// Why the selected entities from the `k`-th on cannot be issued.
pub open spec fn symbols_refusal(
    o: resolve::Ontology,
    source: Snapshot,
    env: Envelope,
    ids: Seq<Seq<char>>,
    allowance: int,
    k: int,
) -> Option<Seq<char>>
    decreases ids.len() - k,
{
    if k < 0 || k >= ids.len() {
        None
    } else {
        crate::error::either(
            symbol_refusal(
                o,
                source,
                env,
                ids[k],
                symbols_left(o, source, ids, allowance, k),
            ),
            symbols_refusal(o, source, env, ids, allowance, k + 1),
        )
    }
}

/// Whether issued symbols show the selected entities, in order.
pub open spec fn symbols_are(
    list: Seq<IssuedSymbol>,
    o: resolve::Ontology,
    source: Snapshot,
    env: Envelope,
    ids: Seq<Seq<char>>,
    allowance: int,
) -> bool {
    &&& list.len() == ids.len()
    &&& forall|i: int|
        0 <= i < list.len() ==> symbol_is(
            #[trigger] list[i],
            o,
            source,
            env,
            ids[i],
            symbols_left(o, source, ids, allowance, i),
        )
}

fn issue_symbols(o: &Ontology, source: &Snapshot, env: &Envelope, ids: &Vec<String>, allowance: usize) -> (r:
    Result<(Vec<IssuedSymbol>, usize, bool), Error>)
    requires
        resolve::all_lines_fit(*o, *source),
    ensures
        crate::error::settles(
            r,
            symbols_refusal(*o, *source, *env, text::texts(ids@), allowance as int, 0),
        ),
        r matches Ok(x) ==> {
            let n = ids@.len() as int;
            &&& symbols_are(x.0@, *o, *source, *env, text::texts(ids@), allowance as int)
            &&& x.1 == symbols_left(*o, *source, text::texts(ids@), allowance as int, n)
            &&& x.1 <= allowance
            &&& x.2 == symbols_cut(*o, *source, text::texts(ids@), allowance as int, n)
        },
{
    let ghost all = text::texts(ids@);
    let ghost a = allowance as int;
    let mut out: Vec<IssuedSymbol> = Vec::new();
    let mut left: usize = allowance;
    let mut cut: bool = false;
    let mut k: usize = 0;
    while k < ids.len()
        invariant
            resolve::all_lines_fit(*o, *source),
                all == text::texts(ids@),
            a == allowance,
            k <= ids@.len(),
            out@.len() == k,
            left <= allowance,
            left == symbols_left(*o, *source, all, a, k as int),
            cut == symbols_cut(*o, *source, all, a, k as int),
            symbols_refusal(*o, *source, *env, all, a, 0) == symbols_refusal(
                *o,
                *source,
                *env,
                all,
                a,
                k as int,
            ),
            forall|i: int|
                0 <= i < k ==> symbol_is(
                    #[trigger] out@[i],
                    *o,
                    *source,
                    *env,
                    all[i],
                    symbols_left(*o, *source, all, a, i),
                ),
        decreases ids@.len() - k,
    {
        assert(all[k as int] == ids@[k as int]@);
        match issue_symbol(o, source, env, ids[k].as_str(), left) {
            Ok(x) => {
                let (s, rest, more) = x;
                out.push(s);
                left = rest;
                cut = cut || more;
            },
            Err(e) => return Err(e),
        }
        k += 1;
    }
    Ok((out, left, cut))
}

// ---------------------------------------------------------------------------
// Files
// ---------------------------------------------------------------------------

/// A file that the planner names, and as what.
#[derive(Debug, PartialEq, Eq)]
pub struct NamedFile {
    pub path: String,
    pub authority: Authority,
}

/// Whether a file is named already.
pub open spec fn is_named(list: Seq<NamedFile>, path: Seq<char>) -> bool {
    exists|i: int| 0 <= i < list.len() && (#[trigger] list[i]).path@ == path
}

/// The files that the first `k` read scopes name.
pub open spec fn read_files(scopes: Seq<ScopePath>, k: int) -> Seq<NamedFile>
    decreases k,
{
    if k <= 0 {
        Seq::empty()
    } else {
        match scopes[k - 1] {
            ScopePath::File { path } => read_files(scopes, k - 1).push(
                NamedFile { path, authority: Authority::PlannerReadFile },
            ),
            _ => read_files(scopes, k - 1),
        }
    }
}

/// The files that are named after the first `k` write scopes: a target inside
/// the envelope that is not named yet joins.
pub open spec fn write_files(named: Seq<NamedFile>, scopes: Seq<ScopePath>, env: Envelope, k: int) -> Seq<
    NamedFile,
>
    decreases k,
{
    if k <= 0 {
        named
    } else {
        let so_far = write_files(named, scopes, env, k - 1);
        match scopes[k - 1] {
            ScopePath::File { path } => if env.reaches(path@) && !is_named(so_far, path@) {
                so_far.push(NamedFile { path, authority: Authority::PlannerWriteTarget })
            } else {
                so_far
            },
            _ => so_far,
        }
    }
}

/// The files that a task names: its File read scopes, and its File write
/// targets inside the envelope. A directory names no file.
pub open spec fn named_files(read: Seq<ScopePath>, write: Seq<ScopePath>, env: Envelope) -> Seq<
    NamedFile,
> {
    write_files(read_files(read, read.len() as int), write, env, write.len() as int)
}

fn name_files(read: &Vec<ScopePath>, write: &Vec<ScopePath>, env: &Envelope) -> (r: Vec<NamedFile>)
    ensures
        r@ == named_files(read@, write@, *env),
{
    let mut out: Vec<NamedFile> = Vec::new();
    let mut k: usize = 0;
    while k < read.len()
        invariant
            k <= read@.len(),
            out@ == read_files(read@, k as int),
        decreases read@.len() - k,
    {
        if let ScopePath::File { path } = &read[k] {
            out.push(NamedFile { path: path.clone(), authority: Authority::PlannerReadFile });
        }
        k += 1;
    }
    let ghost named = out@;
    let mut k: usize = 0;
    while k < write.len()
        invariant
            k <= write@.len(),
            out@ == write_files(named, write@, *env, k as int),
        decreases write@.len() - k,
    {
        if let ScopePath::File { path } = &write[k] {
            let mut known: bool = false;
            let mut i: usize = 0;
            while i < out.len()
                invariant
                    i <= out@.len(),
                    known == (exists|j: int|
                        0 <= j < i && (#[trigger] out@[j]).path@ == path@),
                decreases out@.len() - i,
            {
                if text::same(out[i].path.as_str(), path.as_str()) {
                    known = true;
                }
                i += 1;
            }
            if env.permits(path.as_str()) && !known {
                out.push(
                    NamedFile { path: path.clone(), authority: Authority::PlannerWriteTarget },
                );
            }
        }
        k += 1;
    }
    out
}

/// How much of a text file is shown within what is left of the allowance.
pub open spec fn shown_bytes(bytes: Seq<u8>, allowance: int) -> int {
    excerpt::floor(
        bytes,
        smaller(smaller(bytes.len() as int, FILE_BYTES as int), allowance),
    )
}

/// Whether an issued file shows a named one.
pub open spec fn file_is(f: IssuedFile, source: Snapshot, n: NamedFile, allowance: int) -> bool {
    &&& f.path == n.path
    &&& f.authority == n.authority
    &&& match context::file_at(source.files@, n.path@, 0) {
        None => !f.present && f.content_hash is None && f.bytes is None && f.text is None
            && !f.binary && !f.truncated,
        Some(k) => {
            let file = source.files@[k];
            &&& f.present
            &&& f.content_hash == Some(file.hash)
            &&& f.bytes == Some(file.bytes)
            &&& f.binary == !valid_utf8(file.content@)
            &&& if valid_utf8(file.content@) {
                let end = shown_bytes(file.content@, allowance);
                &&& f.text matches Some(t)
                &&& encode_utf8(t@) == file.content@.subrange(0, end)
                &&& f.truncated == (end < file.content@.len())
            } else {
                f.text is None && !f.truncated
            }
        },
    }
}

/// What a named file takes of the allowance.
pub open spec fn file_takes(source: Snapshot, path: Seq<char>, allowance: int) -> int {
    match context::file_at(source.files@, path, 0) {
        None => 0,
        Some(k) => if valid_utf8(source.files@[k].content@) {
            shown_bytes(source.files@[k].content@, allowance)
        } else {
            0
        },
    }
}

/// Whether a named file is shown in part.
pub open spec fn file_cut(source: Snapshot, path: Seq<char>, allowance: int) -> bool {
    match context::file_at(source.files@, path, 0) {
        None => false,
        Some(k) => valid_utf8(source.files@[k].content@) && shown_bytes(
            source.files@[k].content@,
            allowance,
        ) < source.files@[k].content@.len(),
    }
}

fn issue_file(source: &Snapshot, n: &NamedFile, allowance: usize) -> (r: (IssuedFile, usize))
    ensures
        file_is(r.0, *source, *n, allowance as int),
        r.1 == allowance - file_takes(*source, n.path@, allowance as int),
        r.1 <= allowance,
        r.0.truncated == file_cut(*source, n.path@, allowance as int),
{
    let mut f: IssuedFile = IssuedFile {
        path: n.path.clone(),
        authority: n.authority,
        present: false,
        content_hash: None,
        bytes: None,
        text: None,
        binary: false,
        truncated: false,
    };
    match context::find_file(&source.files, n.path.as_str()) {
        None => (f, allowance),
        Some(k) => {
            let file: &CapturedFile = &source.files[k];
            f.present = true;
            f.content_hash = Some(file.hash.clone());
            f.bytes = Some(file.bytes);
            match context::content_text(&file.content) {
                None => {
                    f.binary = true;
                    (f, allowance)
                },
                Some(t) => {
                    let len: usize = text::byte_len(t.as_str());
                    let most: usize = if len < FILE_BYTES {
                        len
                    } else {
                        FILE_BYTES
                    };
                    let wanted: usize = if most < allowance {
                        most
                    } else {
                        allowance
                    };
                    let end: usize = excerpt::floor_boundary(t.as_str(), wanted);
                    proof {
                        encode_utf8_valid_utf8(t@);
                        is_char_boundary_start_end_of_seq(file.content@);
                    }
                    let shown: &str = excerpt::part(t.as_str(), 0, end);
                    f.text = Some(shown.to_owned());
                    f.truncated = end < len;
                    (f, allowance - end)
                },
            }
        },
    }
}

/// What is left of the allowance after the first `k` named files.
pub open spec fn files_left(source: Snapshot, list: Seq<NamedFile>, allowance: int, k: int) -> int
    decreases k,
{
    if k <= 0 {
        allowance
    } else {
        let left = files_left(source, list, allowance, k - 1);
        left - file_takes(source, list[k - 1].path@, left)
    }
}

/// Whether one of the first `k` named files is shown in part.
pub open spec fn files_cut(source: Snapshot, list: Seq<NamedFile>, allowance: int, k: int) -> bool
    decreases k,
{
    k > 0 && (files_cut(source, list, allowance, k - 1) || file_cut(
        source,
        list[k - 1].path@,
        files_left(source, list, allowance, k - 1),
    ))
}

/// Whether issued files show the named ones, in order.
pub open spec fn files_are(
    files: Seq<IssuedFile>,
    source: Snapshot,
    list: Seq<NamedFile>,
    allowance: int,
) -> bool {
    &&& files.len() == list.len()
    &&& forall|i: int|
        0 <= i < files.len() ==> file_is(
            #[trigger] files[i],
            source,
            list[i],
            files_left(source, list, allowance, i),
        )
}

fn issue_files(source: &Snapshot, list: &Vec<NamedFile>, allowance: usize) -> (r: (
    Vec<IssuedFile>,
    usize,
    bool,
))
    ensures
        files_are(r.0@, *source, list@, allowance as int),
        r.1 == files_left(*source, list@, allowance as int, list@.len() as int),
        r.1 <= allowance,
        r.2 == files_cut(*source, list@, allowance as int, list@.len() as int),
{
    let ghost a = allowance as int;
    let mut out: Vec<IssuedFile> = Vec::new();
    let mut left: usize = allowance;
    let mut cut: bool = false;
    let mut k: usize = 0;
    while k < list.len()
        invariant
            a == allowance,
            k <= list@.len(),
            out@.len() == k,
            left <= allowance,
            left == files_left(*source, list@, a, k as int),
            cut == files_cut(*source, list@, a, k as int),
            forall|i: int|
                0 <= i < k ==> file_is(
                    #[trigger] out@[i],
                    *source,
                    list@[i],
                    files_left(*source, list@, a, i),
                ),
        decreases list@.len() - k,
    {
        let (f, rest) = issue_file(source, &list[k], left);
        cut = cut || f.truncated;
        left = rest;
        out.push(f);
        k += 1;
    }
    (out, left, cut)
}

// ---------------------------------------------------------------------------
// Memory
// ---------------------------------------------------------------------------

/// How much of a memory is shown within what is left of the allowance.
pub open spec fn shown_memory(m: MemoryRecord, allowance: int) -> int {
    let bytes = encode_utf8(text::clipped(m.content@, context::MEMORY_CHARS as int));
    if bytes.len() > allowance {
        excerpt::floor(bytes, allowance)
    } else {
        bytes.len() as int
    }
}

/// Whether a memory is shown in part.
pub open spec fn memory_cut(m: MemoryRecord, allowance: int) -> bool {
    m.content@.len() > context::MEMORY_CHARS || encode_utf8(
        text::clipped(m.content@, context::MEMORY_CHARS as int),
    ).len() > allowance
}

/// Whether an issued memory shows a stored one.
pub open spec fn memory_is(x: IssuedMemory, m: MemoryRecord, allowance: int) -> bool {
    &&& x.id == m.id
    &&& x.trust == m.trust
    &&& x.kind == m.kind
    &&& x.validity == m.validity
    &&& encode_utf8(x.content@) == encode_utf8(
        text::clipped(m.content@, context::MEMORY_CHARS as int),
    ).subrange(0, shown_memory(m, allowance))
    &&& x.content_truncated == memory_cut(m, allowance)
}

/// Why a referenced memory cannot be issued, if anything.
pub open spec fn memory_refusal(list: Seq<MemoryRecord>, id: Seq<char>) -> Option<Seq<char>> {
    match context::memory_at(list, id, 0) {
        None => Some(drift_message("planner-referenced memory "@ + id + " is missing"@)),
        Some(k) => if list[k].active && !list[k].stale {
            None
        } else {
            Some(
                "SOURCE_DRIFT: planner-referenced memory "@ + id
                    + " is no longer active and valid; replan required"@,
            )
        },
    }
}

fn issue_memory(list: &Vec<MemoryRecord>, id: &str, allowance: usize) -> (r: Result<
    (IssuedMemory, usize),
    Error,
>)
    ensures
        crate::error::settles(r, memory_refusal(list@, id@)),
        r matches Ok(x) ==> {
            let m = list@[context::memory_at(list@, id@, 0)->0];
            &&& memory_is(x.0, m, allowance as int)
            &&& x.1 == allowance - shown_memory(m, allowance as int)
            &&& x.1 <= allowance
        },
{
    let k: usize = match context::find_memory(list, id) {
        Some(k) => k,
        None => {
            let m: String = text::join3("planner-referenced memory ", id, " is missing");
            return drift(m.as_str());
        },
    };
    let m: &MemoryRecord = &list[k];
    if !(m.active && !m.stale) {
        let why: String = text::join3(
            "SOURCE_DRIFT: planner-referenced memory ",
            id,
            " is no longer active and valid; replan required",
        );
        return invalid(why.as_str());
    }
    let mut x: IssuedMemory = context::issued_memory(m);
    let len: usize = text::byte_len(x.content.as_str());
    if len > allowance {
        let end: usize = excerpt::floor_boundary(x.content.as_str(), allowance);
        proof {
            encode_utf8_valid_utf8(x.content@);
            is_char_boundary_start_end_of_seq(encode_utf8(x.content@));
        }
        let shown: String = excerpt::part(x.content.as_str(), 0, end).to_owned();
        x.content = shown;
        x.content_truncated = true;
        return Ok((x, allowance - end));
    }
    proof {
        let bytes = encode_utf8(x.content@);
        assert(bytes.subrange(0, bytes.len() as int) =~= bytes);
    }
    Ok((x, allowance - len))
}

/// What is left of the allowance after the first `k` referenced memories.
pub open spec fn memories_left(list: Seq<MemoryRecord>, ids: Seq<Seq<char>>, allowance: int, k: int) -> int
    decreases k,
{
    if k <= 0 {
        allowance
    } else {
        let left = memories_left(list, ids, allowance, k - 1);
        left - shown_memory(list[context::memory_at(list, ids[k - 1], 0)->0], left)
    }
}

/// Whether one of the first `k` referenced memories is shown in part.
pub open spec fn memories_cut(list: Seq<MemoryRecord>, ids: Seq<Seq<char>>, allowance: int, k: int) -> bool
    decreases k,
{
    k > 0 && (memories_cut(list, ids, allowance, k - 1) || memory_cut(
        list[context::memory_at(list, ids[k - 1], 0)->0],
        memories_left(list, ids, allowance, k - 1),
    ))
}

/// Why the referenced memories from the `k`-th on cannot be issued.
pub open spec fn memories_refusal(list: Seq<MemoryRecord>, ids: Seq<Seq<char>>, k: int) -> Option<
    Seq<char>,
>
    decreases ids.len() - k,
{
    if k < 0 || k >= ids.len() {
        None
    } else {
        crate::error::either(memory_refusal(list, ids[k]), memories_refusal(list, ids, k + 1))
    }
}

/// Whether issued memories show the referenced ones, in order.
pub open spec fn memories_are(
    shown: Seq<IssuedMemory>,
    list: Seq<MemoryRecord>,
    ids: Seq<Seq<char>>,
    allowance: int,
) -> bool {
    &&& shown.len() == ids.len()
    &&& forall|i: int|
        0 <= i < shown.len() ==> memory_is(
            #[trigger] shown[i],
            list[context::memory_at(list, ids[i], 0)->0],
            memories_left(list, ids, allowance, i),
        )
}

fn issue_memories(list: &Vec<MemoryRecord>, ids: &Vec<String>, allowance: usize) -> (r: Result<
    (Vec<IssuedMemory>, bool),
    Error,
>)
    ensures
        crate::error::settles(r, memories_refusal(list@, text::texts(ids@), 0)),
        r matches Ok(x) ==> memories_are(x.0@, list@, text::texts(ids@), allowance as int) && x.1
            == memories_cut(list@, text::texts(ids@), allowance as int, ids@.len() as int),
{
    let ghost all = text::texts(ids@);
    let ghost a = allowance as int;
    let mut out: Vec<IssuedMemory> = Vec::new();
    let mut left: usize = allowance;
    let mut cut: bool = false;
    let mut k: usize = 0;
    while k < ids.len()
        invariant
            all == text::texts(ids@),
            a == allowance,
            k <= ids@.len(),
            out@.len() == k,
            left == memories_left(list@, all, a, k as int),
            cut == memories_cut(list@, all, a, k as int),
            memories_refusal(list@, all, 0) == memories_refusal(list@, all, k as int),
            forall|i: int|
                0 <= i < k ==> memory_is(
                    #[trigger] out@[i],
                    list@[context::memory_at(list@, all[i], 0)->0],
                    memories_left(list@, all, a, i),
                ),
        decreases ids@.len() - k,
    {
        assert(all[k as int] == ids@[k as int]@);
        match issue_memory(list, ids[k].as_str(), left) {
            Ok(x) => {
                let (m, rest) = x;
                cut = cut || m.content_truncated;
                left = rest;
                out.push(m);
            },
            Err(e) => return Err(e),
        }
        k += 1;
    }
    Ok((out, cut))
}

// ---------------------------------------------------------------------------
// Checks
// ---------------------------------------------------------------------------

/// The position of a verification profile, looked up from the `i`-th on.
pub open spec fn profile_at(list: Seq<VerificationProfile>, name: Seq<char>, i: int) -> Option<int>
    decreases list.len() - i,
{
    if i < 0 || i >= list.len() {
        None
    } else if list[i].name@ == name {
        Some(i)
    } else {
        profile_at(list, name, i + 1)
    }
}

pub fn find_profile(list: &Vec<VerificationProfile>, name: &str) -> (r: Option<usize>)
    ensures
        match r {
            Some(i) => i < list@.len() && profile_at(list@, name@, 0) == Some(i as int),
            None => profile_at(list@, name@, 0) is None,
        },
{
    let mut i: usize = 0;
    while i < list.len()
        invariant
            i <= list@.len(),
            profile_at(list@, name@, 0) == profile_at(list@, name@, i as int),
        decreases list@.len() - i,
    {
        if text::same(list[i].name.as_str(), name) {
            return Some(i);
        }
        i += 1;
    }
    None
}

/// The position of a named command, looked up from the `i`-th on.
pub open spec fn command_at(list: Seq<NamedCommand>, name: Seq<char>, i: int) -> Option<int>
    decreases list.len() - i,
{
    if i < 0 || i >= list.len() {
        None
    } else if list[i].name@ == name {
        Some(i)
    } else {
        command_at(list, name, i + 1)
    }
}

pub fn find_command(list: &Vec<NamedCommand>, name: &str) -> (r: Option<usize>)
    ensures
        match r {
            Some(i) => i < list@.len() && command_at(list@, name@, 0) == Some(i as int),
            None => command_at(list@, name@, 0) is None,
        },
{
    let mut i: usize = 0;
    while i < list.len()
        invariant
            i <= list@.len(),
            command_at(list@, name@, 0) == command_at(list@, name@, i as int),
        decreases list@.len() - i,
    {
        if text::same(list[i].name.as_str(), name) {
            return Some(i);
        }
        i += 1;
    }
    None
}

/// The positions of the commands that some references name, from the `i`-th on;
/// a reference that names none is passed over.
pub open spec fn commands_at(list: Seq<NamedCommand>, refs: Seq<Seq<char>>, i: int) -> Seq<int>
    decreases refs.len() - i,
{
    if i < 0 || i >= refs.len() {
        Seq::empty()
    } else {
        match command_at(list, refs[i], 0) {
            Some(k) => seq![k] + commands_at(list, refs, i + 1),
            None => commands_at(list, refs, i + 1),
        }
    }
}

/// Whether commands are those at some positions.
pub open spec fn commands_are(commands: Seq<CommandSpec>, list: Seq<NamedCommand>, at: Seq<int>) -> bool {
    &&& commands.len() == at.len()
    &&& forall|i: int|
        0 <= i < commands.len() ==> crate::protocol::same_command(
            #[trigger] commands[i],
            list[at[i]].command,
        )
}

fn select_commands(list: &Vec<NamedCommand>, refs: &Vec<String>) -> (r: Vec<CommandSpec>)
    ensures
        commands_are(r@, list@, commands_at(list@, text::texts(refs@), 0)),
{
    let ghost all = text::texts(refs@);
    let ghost at = commands_at(list@, all, 0);
    let ghost mut done: Seq<int> = Seq::empty();
    let mut out: Vec<CommandSpec> = Vec::new();
    let mut i: usize = 0;
    while i < refs.len()
        invariant
            all == text::texts(refs@),
            at == commands_at(list@, all, 0),
            i <= refs@.len(),
            commands_are(out@, list@, done),
            done + commands_at(list@, all, i as int) == at,
        decreases refs@.len() - i,
    {
        assert(all[i as int] == refs@[i as int]@);
        let ghost so_far = done;
        if let Some(k) = find_command(list, refs[i].as_str()) {
            out.push(list[k].command.copy());
            proof {
                done = so_far.push(k as int);
                assert(done + commands_at(list@, all, i + 1) =~= so_far + (seq![k as int]
                    + commands_at(list@, all, i + 1)));
            }
        }
        i += 1;
    }
    assert(done + commands_at(list@, all, i as int) =~= done);
    out
}

/// Why the required checks from the `i`-th on cannot be issued.
pub open spec fn checks_refusal(profiles: Seq<VerificationProfile>, refs: Seq<Seq<char>>, i: int) -> Option<
    Seq<char>,
>
    decreases refs.len() - i,
{
    if i < 0 || i >= refs.len() {
        None
    } else if profile_at(profiles, refs[i], 0) is None {
        Some("verification requirement "@ + refs[i] + " is not declared"@)
    } else {
        checks_refusal(profiles, refs, i + 1)
    }
}

/// Whether an issued check dereferences a requirement.
pub open spec fn check_is(c: IssuedCheck, policy: ProjectPolicy, name: Seq<char>) -> bool {
    let p = policy.verification@[profile_at(policy.verification@, name, 0)->0];
    &&& c.requirement@ == name
    &&& c.description == p.description
    &&& commands_are(
        c.commands@,
        policy.commands@,
        commands_at(policy.commands@, text::texts(p.command_refs@), 0),
    )
}

fn issue_checks(policy: &ProjectPolicy, refs: &Vec<String>) -> (r: Result<Vec<IssuedCheck>, Error>)
    ensures
        crate::error::settles(r, checks_refusal(policy.verification@, text::texts(refs@), 0)),
        r matches Ok(v) ==> v@.len() == refs@.len() && forall|i: int|
            0 <= i < v@.len() ==> check_is(#[trigger] v@[i], *policy, refs@[i]@),
{
    let ghost all = text::texts(refs@);
    let mut out: Vec<IssuedCheck> = Vec::new();
    let mut i: usize = 0;
    while i < refs.len()
        invariant
            all == text::texts(refs@),
            i <= refs@.len(),
            out@.len() == i,
            checks_refusal(policy.verification@, all, 0) == checks_refusal(
                policy.verification@,
                all,
                i as int,
            ),
            forall|j: int| 0 <= j < i ==> check_is(#[trigger] out@[j], *policy, refs@[j]@),
        decreases refs@.len() - i,
    {
        assert(all[i as int] == refs@[i as int]@);
        let k: usize = match find_profile(&policy.verification, refs[i].as_str()) {
            Some(k) => k,
            None => {
                let m: String = text::join3(
                    "verification requirement ",
                    refs[i].as_str(),
                    " is not declared",
                );
                return invalid(m.as_str());
            },
        };
        let p: &VerificationProfile = &policy.verification[k];
        out.push(
            IssuedCheck {
                requirement: refs[i].clone(),
                description: p.description.clone(),
                commands: select_commands(&policy.commands, &p.command_refs),
            },
        );
        i += 1;
    }
    Ok(out)
}

// ---------------------------------------------------------------------------
// The whole
// ---------------------------------------------------------------------------

/// Why the base context of a task cannot be issued, if anything.
pub open spec fn base_refusal(
    o: resolve::Ontology,
    source: Snapshot,
    memory: Seq<MemoryRecord>,
    policy: ProjectPolicy,
    task: TaskInspection,
    env: Envelope,
) -> Option<Seq<char>> {
    crate::error::either(
        symbols_refusal(
            o,
            source,
            env,
            text::texts(task.packet.graph_entities@),
            BASE_TEXT_BYTES as int,
            0,
        ),
        crate::error::either(
            memories_refusal(memory, text::texts(task.contract.memory_refs@), 0),
            checks_refusal(
                policy.verification@,
                text::texts(task.packet.verification.requirement_refs@),
                0,
            ),
        ),
    )
}

/// Whether a base context is exactly what the planner's references give.
pub open spec fn base_is(
    c: IssuedContext,
    o: resolve::Ontology,
    source: Snapshot,
    memory: Seq<MemoryRecord>,
    policy: ProjectPolicy,
    task: TaskInspection,
    env: Envelope,
) -> bool {
    let all = BASE_TEXT_BYTES as int;
    let ids = text::texts(task.packet.graph_entities@);
    let after = symbols_left(o, source, ids, all, ids.len() as int);
    let files = named_files(task.packet.read_scope@, task.packet.write_scope@, env);
    let rest = files_left(source, files, after, files.len() as int);
    let refs = text::texts(task.contract.memory_refs@);
    &&& c.version@ == context::ISSUED_CONTEXT_VERSION@
    &&& c.graph_generation == o.generation
    &&& c.source_hash == source.hash
    &&& symbols_are(c.symbols@, o, source, env, ids, all)
    &&& files_are(c.files@, source, files, after)
    &&& memories_are(c.memory@, memory, refs, rest)
    &&& c.checks@.len() == task.packet.verification.requirement_refs@.len()
    &&& forall|i: int|
        0 <= i < c.checks@.len() ==> check_is(
            #[trigger] c.checks@[i],
            policy,
            task.packet.verification.requirement_refs@[i]@,
        )
    &&& c.truncated == (symbols_cut(o, source, ids, all, ids.len() as int) || files_cut(
        source,
        files,
        after,
        files.len() as int,
    ) || memories_cut(memory, refs, rest, refs.len() as int))
}

/// Materializes the base context of an executor from planner references alone:
/// selected entities, named files, referenced memory and required checks, which
/// share one allowance of text in that order.
pub fn base_executor(
    o: &Ontology,
    source: &Snapshot,
    memory: &Vec<MemoryRecord>,
    policy: &ProjectPolicy,
    task: &TaskInspection,
    env: &Envelope,
) -> (r: Result<IssuedContext, Error>)
    requires
        resolve::all_lines_fit(*o, *source),
    ensures
        crate::error::settles(
            r,
            base_refusal(*o, *source, memory@, *policy, *task, *env),
        ),
        r matches Ok(c) ==> base_is(c, *o, *source, memory@, *policy, *task, *env),
{
    let (symbols, after, cut) = match issue_symbols(
        o,
        source,
        env,
        &task.packet.graph_entities,
        BASE_TEXT_BYTES,
    ) {
        Ok(x) => x,
        Err(e) => return Err(e),
    };
    let named: Vec<NamedFile> = name_files(&task.packet.read_scope, &task.packet.write_scope, env);
    let (files, rest, files_truncated) = issue_files(source, &named, after);
    let (shown, memory_truncated) = match issue_memories(
        memory,
        &task.contract.memory_refs,
        rest,
    ) {
        Ok(x) => x,
        Err(e) => return Err(e),
    };
    let checks: Vec<IssuedCheck> = match issue_checks(
        policy,
        &task.packet.verification.requirement_refs,
    ) {
        Ok(x) => x,
        Err(e) => return Err(e),
    };
    let generation: Option<GraphGeneration> = match &o.generation {
        Some(g) => Some(g.clone()),
        None => None,
    };
    Ok(
        IssuedContext {
            version: context::ISSUED_CONTEXT_VERSION.to_owned(),
            graph_generation: generation,
            source_hash: source.hash.clone(),
            symbols,
            files,
            memory: shown,
            checks,
            truncated: cut || files_truncated || memory_truncated,
        },
    )
}

/// A directory scope is a permission to ask, never an instruction to inject
/// files: only File scopes name any.
pub proof fn law_directories_inject_no_files(read: Seq<ScopePath>, write: Seq<ScopePath>, env: Envelope)
    requires
        forall|i: int| 0 <= i < read.len() ==> (#[trigger] read[i]) is Directory,
        forall|i: int| 0 <= i < write.len() ==> (#[trigger] write[i]) is Directory,
    ensures
        named_files(read, write, env).len() == 0,
{
    lemma_no_read_files(read, read.len() as int);
    lemma_no_write_files(read_files(read, read.len() as int), write, env, write.len() as int);
}

proof fn lemma_no_read_files(scopes: Seq<ScopePath>, k: int)
    requires
        0 <= k <= scopes.len(),
        forall|i: int| 0 <= i < scopes.len() ==> (#[trigger] scopes[i]) is Directory,
    ensures
        read_files(scopes, k).len() == 0,
    decreases k,
{
    if k > 0 {
        lemma_no_read_files(scopes, k - 1);
        assert(scopes[k - 1] is Directory);
    }
}

proof fn lemma_no_write_files(named: Seq<NamedFile>, scopes: Seq<ScopePath>, env: Envelope, k: int)
    requires
        0 <= k <= scopes.len(),
        forall|i: int| 0 <= i < scopes.len() ==> (#[trigger] scopes[i]) is Directory,
    ensures
        write_files(named, scopes, env, k) == named,
    decreases k,
{
    if k > 0 {
        lemma_no_write_files(named, scopes, env, k - 1);
        assert(scopes[k - 1] is Directory);
    }
}

/// Selected entities that are issued lie inside the read envelope of the task.
pub proof fn law_issued_symbols_lie_in_the_envelope(
    o: resolve::Ontology,
    source: Snapshot,
    memory: Seq<MemoryRecord>,
    policy: ProjectPolicy,
    task: TaskInspection,
    env: Envelope,
    i: int,
)
    requires
        base_refusal(o, source, memory, policy, task, env) is None,
        0 <= i < task.packet.graph_entities@.len(),
    ensures
        plan::entity_at(o.entities@, task.packet.graph_entities@[i]@, 0) matches Some(n)
            && env.reaches(o.entities@[n].provenance.path@),
{
    let ids = text::texts(task.packet.graph_entities@);
    lemma_symbols(o, source, env, ids, BASE_TEXT_BYTES as int, 0, i);
    assert(ids[i] == task.packet.graph_entities@[i]@);
}

proof fn lemma_symbols(
    o: resolve::Ontology,
    source: Snapshot,
    env: Envelope,
    ids: Seq<Seq<char>>,
    allowance: int,
    from: int,
    i: int,
)
    requires
        0 <= from <= i < ids.len(),
        symbols_refusal(o, source, env, ids, allowance, from) is None,
    ensures
        symbol_refusal(o, source, env, ids[i], symbols_left(o, source, ids, allowance, i)) is None,
    decreases i - from,
{
    if from < i {
        lemma_symbols(o, source, env, ids, allowance, from + 1, i);
    }
}

} // verus!
