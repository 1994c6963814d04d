//! What a worker is issued, told by the task, the envelope and the source.
use crate::excerpt;
use crate::planning::model::{NamedCommand, ProjectPolicy, TaskInspection, VerificationProfile};
use crate::planning::scope::ScopePath;
use crate::runtime::answers;
use crate::runtime::context;
use crate::runtime::context::{
    Envelope, IssuedContext, IssuedFile, IssuedMemory, IssuedSymbol, MemoryRecord,
    RelatedEntity, Snapshot,
};
use crate::runtime::issue;
use crate::runtime::issue::NamedFile;
use crate::runtime::resolve;
use crate::runtime::resolve::Neighbor;
use crate::text;
use vstd::prelude::*;
use vstd::utf8::*;

verus! {

// ---------------------------------------------------------------------------
// Files
// ---------------------------------------------------------------------------
/// Whether some scope is just a file.
pub open spec fn names_file(scopes: Seq<ScopePath>, path: Seq<char>) -> bool {
    exists|n: int|
        0 <= n < scopes.len() && (#[trigger] scopes[n]) is File && scopes[n].at() == path
}

proof fn lemma_read_files(scopes: Seq<ScopePath>, k: int, path: Seq<char>)
    requires
        0 <= k <= scopes.len(),
    ensures
        issue::is_named(issue::read_files(scopes, k), path) <==> names_file(scopes.take(k), path),
    decreases k,
{
    if k > 0 {
        lemma_read_files(scopes, k - 1, path);
        let all = issue::read_files(scopes, k);
        let before = issue::read_files(scopes, k - 1);
        lemma_file_taken(scopes, k, path);
        if all.len() > before.len() {
            assert(all.drop_last() =~= before);
        }
        lemma_pushed(before, all, path);
    } else {
        assert(scopes.take(0).len() == 0);
    }
}

proof fn lemma_file_taken(scopes: Seq<ScopePath>, k: int, path: Seq<char>)
    requires
        0 < k <= scopes.len(),
    ensures
        names_file(scopes.take(k), path) <==> names_file(scopes.take(k - 1), path) || (scopes[k
            - 1] is File && scopes[k - 1].at() == path),
{
    let all = scopes.take(k);
    let before = scopes.take(k - 1);
    if names_file(before, path) {
        let n = choose|n: int|
            0 <= n < before.len() && (#[trigger] before[n]) is File && before[n].at() == path;
        assert(all[n] is File);
    }
    if scopes[k - 1] is File && scopes[k - 1].at() == path {
        assert(all[k - 1] is File);
    }
    if names_file(all, path) {
        let n = choose|n: int|
            0 <= n < all.len() && (#[trigger] all[n]) is File && all[n].at() == path;
        if n < k - 1 {
            assert(before[n] is File);
        }
    }
}

proof fn lemma_pushed(before: Seq<NamedFile>, all: Seq<NamedFile>, path: Seq<char>)
    requires
        all == before || (all.len() == before.len() + 1 && all.drop_last() == before),
    ensures
        issue::is_named(all, path) <==> issue::is_named(before, path) || (all.len() > before.len()
            && all.last().path@ == path),
{
    if all.len() > before.len() {
        if issue::is_named(before, path) {
            let n = choose|n: int| 0 <= n < before.len() && (#[trigger] before[n]).path@ == path;
            assert(all[n] == all.drop_last()[n]);
            assert(all[n].path@ == path);
        }
        if all.last().path@ == path {
            assert(all[all.len() - 1].path@ == path);
        }
        if issue::is_named(all, path) {
            let n = choose|n: int| 0 <= n < all.len() && (#[trigger] all[n]).path@ == path;
            if n < before.len() {
                assert(all.drop_last()[n] == all[n]);
                assert(before[n].path@ == path);
            }
        }
    }
}

proof fn lemma_write_files(
    named: Seq<NamedFile>,
    scopes: Seq<ScopePath>,
    env: Envelope,
    k: int,
    path: Seq<char>,
)
    requires
        0 <= k <= scopes.len(),
    ensures
        issue::is_named(issue::write_files(named, scopes, env, k), path) <==> issue::is_named(
            named,
            path,
        ) || (names_file(scopes.take(k), path) && answers::allowed(env, path)),
    decreases k,
{
    if k > 0 {
        lemma_write_files(named, scopes, env, k - 1, path);
        lemma_file_taken(scopes, k, path);
        let before = issue::write_files(named, scopes, env, k - 1);
        let all = issue::write_files(named, scopes, env, k);
        if all.len() > before.len() {
            assert(all.drop_last() =~= before);
        }
        lemma_pushed(before, all, path);
    } else {
        assert(scopes.take(0).len() == 0);
    }
}

/// The files that are issued are those that the task names to read, and those that it
/// names to write and may read; a directory issues none.
pub proof fn law_issued_files_are_the_named_ones(
    read: Seq<ScopePath>,
    write: Seq<ScopePath>,
    env: Envelope,
    path: Seq<char>,
)
    ensures
        issue::is_named(issue::named_files(read, write, env), path) <==> names_file(read, path) || (
        names_file(write, path) && answers::allowed(env, path)),
{
    lemma_read_files(read, read.len() as int, path);
    lemma_write_files(
        issue::read_files(read, read.len() as int),
        write,
        env,
        write.len() as int,
        path,
    );
    assert(read.take(read.len() as int) =~= read);
    assert(write.take(write.len() as int) =~= write);
}

proof fn lemma_shown(bytes: Seq<u8>, allowance: int)
    requires
        valid_utf8(bytes),
        0 <= allowance,
    ensures
        0 <= issue::shown_bytes(bytes, allowance) <= allowance,
        issue::shown_bytes(bytes, allowance) <= 16384,
        issue::shown_bytes(bytes, allowance) <= bytes.len(),
        bytes.len() <= 16384 && bytes.len() <= allowance ==> issue::shown_bytes(bytes, allowance)
            == bytes.len(),
{
    is_char_boundary_start_end_of_seq(bytes);
    let end = issue::smaller(issue::smaller(bytes.len() as int, 16384), allowance);
    excerpt::lemma_floor(bytes, 0, end);
}

/// An issued file is the captured one of its path: absent where there is none, without
/// text where it is no text, and otherwise the start of it, all of it where it is not said
/// to be cut, which it is not where it fits.
pub proof fn law_issued_files_show_the_source(
    f: IssuedFile,
    source: Snapshot,
    n: NamedFile,
    allowance: int,
    k: int,
)
    requires
        issue::file_is(f, source, n, allowance),
        0 <= allowance,
        0 <= k < source.files@.len(),
        source.files@[k].path@ == n.path@,
        forall|j: int| 0 <= j < k ==> (#[trigger] source.files@[j]).path@ != n.path@,
    ensures
        f.path@ == n.path@,
        f.present,
        f.content_hash == Some(source.files@[k].hash),
        f.text is Some <==> valid_utf8(source.files@[k].content@),
        f.text is Some ==> {
            let content = source.files@[k].content@;
            let shown = encode_utf8(f.text->0@);
            &&& shown.len() <= 16384 && shown.len() <= allowance
            &&& shown.len() <= content.len()
            &&& shown == content.subrange(0, shown.len() as int)
            &&& f.truncated <==> shown.len() < content.len()
            &&& content.len() <= 16384 && content.len() <= allowance ==> shown == content
        },
{
    answers::lemma_file_at(source.files@, n.path@, 0);
    let at = context::file_at(source.files@, n.path@, 0);
    assert(at is Some);
    assert(at->0 == k);
    let content = source.files@[k].content@;
    if valid_utf8(content) {
        lemma_shown(content, allowance);
        assert(content.subrange(0, content.len() as int) =~= content);
    }
}

// ---------------------------------------------------------------------------
// Symbols
// ---------------------------------------------------------------------------
proof fn lemma_stubs(
    env: Envelope,
    list: Seq<Neighbor>,
    limit: int,
    i: int,
    s: RelatedEntity,
    n: int,
)
    requires
        0 <= i,
        0 <= limit,
    ensures
        ({
            let out = issue::stubs(env, list, limit, i);
            &&& out.len() <= limit
            &&& out.contains(s) ==> exists|m: int|
                i <= m < list.len() && answers::allowed(
                    env,
                    (#[trigger] list[m]).entity.provenance.path@,
                ) && s == context::relates(list[m].entity, list[m].edge)
            &&& i <= n < list.len() && answers::allowed(env, list[n].entity.provenance.path@)
                ==> out.len() == limit || out.contains(
                context::relates(list[n].entity, list[n].edge),
            )
        }),
    decreases list.len() - i,
{
    if i < list.len() && limit > 0 {
        let out = issue::stubs(env, list, limit, i);
        if env.reaches(list[i].entity.provenance.path@) {
            lemma_stubs(env, list, limit - 1, i + 1, s, n);
            let rest = issue::stubs(env, list, limit - 1, i + 1);
            let own = context::relates(list[i].entity, list[i].edge);
            assert(answers::allowed(env, list[i].entity.provenance.path@));
            assert(out[0] == own);
            if out.contains(s) && s != own {
                let m = choose|m: int| 0 <= m < out.len() && out[m] == s;
                assert(rest[m - 1] == s);
            }
            if i < n < list.len() {
                let x = context::relates(list[n].entity, list[n].edge);
                if rest.contains(x) {
                    let m = choose|m: int| 0 <= m < rest.len() && rest[m] == x;
                    assert(out[m + 1] == x);
                }
            }
        } else {
            lemma_stubs(env, list, limit, i + 1, s, n);
        }
    }
}

/// The callers and callees that are shown with a symbol are its neighbors inside the
/// envelope, at most eight each, and all of them where they are fewer; what is not shown
/// is counted.
pub proof fn law_shown_neighbors_lie_in_the_envelope(
    s: IssuedSymbol,
    o: resolve::Ontology,
    source: Snapshot,
    env: Envelope,
    id: Seq<char>,
    allowance: int,
    incoming: bool,
    x: RelatedEntity,
    n: int,
)
    requires
        issue::symbol_is(s, o, source, env, id, allowance),
    ensures
        ({
            let list = resolve::neighbors_of(o, id, incoming, 64);
            let shown = if incoming {
                s.callers@
            } else {
                s.callees@
            };
            &&& shown.len() <= 8
            &&& shown.contains(x) ==> exists|m: int|
                0 <= m < list.len() && answers::allowed(
                    env,
                    (#[trigger] list[m]).entity.provenance.path@,
                ) && x == context::relates(list[m].entity, list[m].edge)
            &&& 0 <= n < list.len() && answers::allowed(env, list[n].entity.provenance.path@)
                && shown.len() < 8 ==> shown.contains(
                context::relates(list[n].entity, list[n].edge),
            )
            &&& s.withheld + s.callers@.len() + s.callees@.len() == resolve::neighbors_of(
                o,
                id,
                true,
                64,
            ).len() + resolve::neighbors_of(o, id, false, 64).len()
        }),
{
    lemma_stubs(env, resolve::neighbors_of(o, id, incoming, 64), 8, 0, x, n);
}

// ---------------------------------------------------------------------------
// Memory
// ---------------------------------------------------------------------------
proof fn lemma_memories(list: Seq<MemoryRecord>, ids: Seq<Seq<char>>, k: int, n: int)
    requires
        0 <= k <= n < ids.len(),
        issue::memories_refusal(list, ids, k) is None,
    ensures
        issue::memory_refusal(list, ids[n]) is None,
    decreases n - k,
{
    if k < n {
        lemma_memories(list, ids, k + 1, n);
    }
}

/// Memory that a task refers to is issued only where it is there, active and not stale.
pub proof fn law_issued_memory_is_alive(
    o: resolve::Ontology,
    source: Snapshot,
    memory: Seq<MemoryRecord>,
    policy: ProjectPolicy,
    task: TaskInspection,
    env: Envelope,
    n: int,
) -> (k: int)
    requires
        issue::base_refusal(o, source, memory, policy, task, env) is None,
        0 <= n < task.contract.memory_refs@.len(),
    ensures
        0 <= k < memory.len(),
        memory[k].id@ == task.contract.memory_refs@[n]@,
        forall|j: int|
            0 <= j < k ==> (#[trigger] memory[j]).id@ != task.contract.memory_refs@[n]@,
        memory[k].active,
        !memory[k].stale,
{
    let ids = text::texts(task.contract.memory_refs@);
    lemma_memories(memory, ids, 0, n);
    answers::lemma_memory_at(memory, ids[n], 0);
    context::memory_at(memory, ids[n], 0)->0
}

/// Issued memory is the record of its name with the start of its content, all of it
/// where it is not said to be cut, and never more than what is left.
pub proof fn law_issued_memory_shows_the_record(x: IssuedMemory, m: MemoryRecord, allowance: int)
    requires
        issue::memory_is(x, m, allowance),
        0 <= allowance,
    ensures
        x.id@ == m.id@,
        encode_utf8(x.content@).len() <= allowance,
        !x.content_truncated ==> x.content@ == m.content@,
        m.content@.len() <= 4096 && encode_utf8(m.content@).len() <= allowance
            ==> !x.content_truncated,
{
    let bytes = encode_utf8(text::clipped(m.content@, 4096));
    encode_utf8_valid_utf8(text::clipped(m.content@, 4096));
    is_char_boundary_start_end_of_seq(bytes);
    excerpt::lemma_floor(bytes, 0, allowance);
    if !x.content_truncated {
        assert(bytes.subrange(0, bytes.len() as int) =~= bytes);
        text::lemma_same_bytes(x.content@, m.content@);
    }
}

// ---------------------------------------------------------------------------
// Checks
// ---------------------------------------------------------------------------
proof fn lemma_profile(list: Seq<VerificationProfile>, name: Seq<char>, i: int)
    requires
        0 <= i,
    ensures
        match issue::profile_at(list, name, i) {
            Some(k) => i <= k < list.len() && list[k].name@ == name && forall|j: int|
                i <= j < k ==> (#[trigger] list[j]).name@ != name,
            None => forall|j: int| i <= j < list.len() ==> (#[trigger] list[j]).name@ != name,
        },
    decreases list.len() - i,
{
    if i < list.len() {
        lemma_profile(list, name, i + 1);
    }
}

/// A profile is found by its name, and the first of that name is.
pub proof fn law_profiles_are_found_by_name(list: Seq<VerificationProfile>, name: Seq<char>)
    ensures
        match issue::profile_at(list, name, 0) {
            Some(k) => 0 <= k < list.len() && list[k].name@ == name && forall|j: int|
                0 <= j < k ==> (#[trigger] list[j]).name@ != name,
            None => forall|j: int| 0 <= j < list.len() ==> (#[trigger] list[j]).name@ != name,
        },
{
    lemma_profile(list, name, 0);
}

proof fn lemma_command(list: Seq<NamedCommand>, name: Seq<char>, i: int)
    requires
        0 <= i,
    ensures
        match issue::command_at(list, name, i) {
            Some(k) => i <= k < list.len() && list[k].name@ == name && forall|j: int|
                i <= j < k ==> (#[trigger] list[j]).name@ != name,
            None => forall|j: int| i <= j < list.len() ==> (#[trigger] list[j]).name@ != name,
        },
    decreases list.len() - i,
{
    if i < list.len() {
        lemma_command(list, name, i + 1);
    }
}

/// The commands of a check are those that its profile refers to and that there are.
pub proof fn law_checks_run_the_commands_they_name(
    list: Seq<NamedCommand>,
    refs: Seq<Seq<char>>,
    i: int,
    k: int,
)
    requires
        0 <= i,
    ensures
        ({
            let at = issue::commands_at(list, refs, i);
            at.contains(k) <==> {
                &&& 0 <= k < list.len()
                &&& forall|j: int| 0 <= j < k ==> (#[trigger] list[j]).name@ != list[k].name@
                &&& exists|n: int| i <= n < refs.len() && #[trigger] refs[n] == list[k].name@
            }
        }),
    decreases refs.len() - i,
{
    if i < refs.len() {
        law_checks_run_the_commands_they_name(list, refs, i + 1, k);
        lemma_command(list, refs[i], 0);
        let at = issue::commands_at(list, refs, i);
        let rest = issue::commands_at(list, refs, i + 1);
        match issue::command_at(list, refs[i], 0) {
            Some(m) => {
                assert(at[0] == m);
                assert(list[m].name@ == refs[i]);
                if rest.contains(k) {
                    let x = choose|x: int| 0 <= x < rest.len() && rest[x] == k;
                    assert(at[x + 1] == k);
                }
                if at.contains(k) && k != m {
                    let x = choose|x: int| 0 <= x < at.len() && at[x] == k;
                    assert(rest[x - 1] == k);
                }
                if k == m {
                    assert(refs[i] == list[k].name@);
                }
                if 0 <= k < list.len() && refs[i] == list[k].name@ && k != m {
                    if k < m {
                        assert(list[k].name@ != refs[i]);
                    } else {
                        assert(list[m].name@ == list[k].name@);
                    }
                }
            },
            None => {
                if 0 <= k < list.len() {
                    assert(list[k].name@ != refs[i]);
                }
            },
        }
    }
}

// ---------------------------------------------------------------------------
// Nothing is cut in silence
// ---------------------------------------------------------------------------
proof fn lemma_symbols_cut(
    o: resolve::Ontology,
    source: Snapshot,
    ids: Seq<Seq<char>>,
    allowance: int,
    k: int,
    n: int,
)
    requires
        0 <= n < k,
        !issue::symbols_cut(o, source, ids, allowance, k),
    ensures
        !issue::symbol_cut(
            o,
            source,
            ids[n],
            issue::symbols_left(o, source, ids, allowance, n),
        ),
    decreases k,
{
    if n < k - 1 {
        lemma_symbols_cut(o, source, ids, allowance, k - 1, n);
    }
}

proof fn lemma_files_cut(source: Snapshot, list: Seq<NamedFile>, allowance: int, k: int, n: int)
    requires
        0 <= n < k,
        !issue::files_cut(source, list, allowance, k),
    ensures
        !issue::file_cut(source, list[n].path@, issue::files_left(source, list, allowance, n)),
    decreases k,
{
    if n < k - 1 {
        lemma_files_cut(source, list, allowance, k - 1, n);
    }
}

proof fn lemma_memories_cut(
    list: Seq<MemoryRecord>,
    ids: Seq<Seq<char>>,
    allowance: int,
    k: int,
    n: int,
)
    requires
        0 <= n < k,
        !issue::memories_cut(list, ids, allowance, k),
    ensures
        !issue::memory_cut(
            list[context::memory_at(list, ids[n], 0)->0],
            issue::memories_left(list, ids, allowance, n),
        ),
    decreases k,
{
    if n < k - 1 {
        lemma_memories_cut(list, ids, allowance, k - 1, n);
    }
}

/// A task is issued every symbol, every file, every memory and every check that it names,
/// in order; and where nothing is said to be cut, no file and no memory is, and every
/// symbol comes with its whole definition.
pub proof fn law_nothing_is_cut_in_silence(
    c: IssuedContext,
    o: resolve::Ontology,
    source: Snapshot,
    memory: Seq<MemoryRecord>,
    policy: ProjectPolicy,
    task: TaskInspection,
    env: Envelope,
    s: int,
    f: int,
    m: int,
)
    requires
        issue::base_is(c, o, source, memory, policy, task, env),
    ensures
        c.symbols@.len() == task.packet.graph_entities@.len(),
        c.memory@.len() == task.contract.memory_refs@.len(),
        c.checks@.len() == task.packet.verification.requirement_refs@.len(),
        c.files@.len() == issue::named_files(
            task.packet.read_scope@,
            task.packet.write_scope@,
            env,
        ).len(),
        !c.truncated && 0 <= s < c.symbols@.len() ==> c.symbols@[s].definition is Some
            && !c.symbols@[s].definition->0.truncated,
        !c.truncated && 0 <= f < c.files@.len() ==> !c.files@[f].truncated,
        !c.truncated && 0 <= m < c.memory@.len() ==> !c.memory@[m].content_truncated,
{
    let all = issue::BASE_TEXT_BYTES as int;
    let ids = text::texts(task.packet.graph_entities@);
    let after = issue::symbols_left(o, source, ids, all, ids.len() as int);
    let files = issue::named_files(task.packet.read_scope@, task.packet.write_scope@, env);
    let rest = issue::files_left(source, files, after, files.len() as int);
    let refs = text::texts(task.contract.memory_refs@);
    if !c.truncated {
        if 0 <= s < c.symbols@.len() {
            lemma_symbols_cut(o, source, ids, all, ids.len() as int, s);
            assert(issue::symbol_is(
                c.symbols@[s],
                o,
                source,
                env,
                ids[s],
                issue::symbols_left(o, source, ids, all, s),
            ));
        }
        if 0 <= f < c.files@.len() {
            lemma_files_cut(source, files, after, files.len() as int, f);
            assert(issue::file_is(
                c.files@[f],
                source,
                files[f],
                issue::files_left(source, files, after, f),
            ));
        }
        if 0 <= m < c.memory@.len() {
            lemma_memories_cut(memory, refs, rest, refs.len() as int, m);
            assert(issue::memory_is(
                c.memory@[m],
                memory[context::memory_at(memory, refs[m], 0)->0],
                issue::memories_left(memory, refs, rest, m),
            ));
        }
    }
}

} // verus!
