//! Bringing the captured result of a branch back into the canonical checkout,
//! without ever overwriting what nobody expected.
use crate::error::{invalid, Error};
use crate::planning::model::SourceStateRef;
use crate::planning::scope;
use crate::planning::scope::ScopePath;
use crate::protocol::TaskPacket;
use crate::runtime::concurrency::{Compatibility, CompatibilityDecision};
use crate::runtime::record::PendingTask;
use crate::source;
use crate::source::{
    ArtifactRef, FileChange, FileEntry, FileState, IgnoredEntry, SourceSnapshot, StateView,
};
use crate::text;
use vstd::prelude::*;

verus! {

/// One path of a publication: what must be there before, and what is there
/// after it.
#[derive(Debug, PartialEq, Eq)]
pub struct ReconciliationPath {
    pub path: String,
    pub before: Option<FileState>,
    pub after: Option<FileState>,
}

/// Whether a path of a publication is that of a change.
pub open spec fn publishes(p: ReconciliationPath, c: FileChange) -> bool {
    p.path@ == c.path@ && source::state_view(p.before) == source::state_view(c.before)
        && source::state_view(p.after) == source::state_view(c.after)
}

/// Whether every decision is a positive one.
pub open spec fn all_compatible(list: Seq<CompatibilityDecision>) -> bool {
    forall|i: int| 0 <= i < list.len() ==> (#[trigger] list[i]).decision == Compatibility::Compatible
}

pub fn are_compatible(list: &Vec<CompatibilityDecision>) -> (r: bool)
    ensures
        r == all_compatible(list@),
{
    let mut i: usize = 0;
    while i < list.len()
        invariant
            i <= list@.len(),
            forall|j: int|
                0 <= j < i ==> (#[trigger] list@[j]).decision == Compatibility::Compatible,
        decreases list@.len() - i,
    {
        if list[i].decision != Compatibility::Compatible {
            return false;
        }
        i += 1;
    }
    true
}

/// Whether two captures agree on every path in a scope.
pub open spec fn unchanged(before: Seq<FileEntry>, current: Seq<FileEntry>, s: ScopePath) -> bool {
    forall|path: Seq<char>|
        scope::allows(s, path) ==> #[trigger] source::at(before, path, 0) == source::at(
            current,
            path,
            0,
        )
}

fn agree_in(listed: &Vec<FileEntry>, before: &Vec<FileEntry>, current: &Vec<FileEntry>, s: &ScopePath) -> (r:
    bool)
    ensures
        r == (forall|i: int|
            0 <= i < listed@.len() && scope::allows(*s, (#[trigger] listed@[i]).path@)
                ==> source::at(before@, listed@[i].path@, 0) == source::at(
                current@,
                listed@[i].path@,
                0,
            )),
{
    let mut i: usize = 0;
    while i < listed.len()
        invariant
            i <= listed@.len(),
            forall|j: int|
                0 <= j < i && scope::allows(*s, (#[trigger] listed@[j]).path@) ==> source::at(
                    before@,
                    listed@[j].path@,
                    0,
                ) == source::at(current@, listed@[j].path@, 0),
        decreases listed@.len() - i,
    {
        let path: &str = listed[i].path.as_str();
        if scope::permits(s, path) && !source::agree_at(before, current, path) {
            return false;
        }
        i += 1;
    }
    true
}

/// Whether two captures agree on every path in a scope.
pub fn scope_unchanged(before: &Vec<FileEntry>, current: &Vec<FileEntry>, s: &ScopePath) -> (r: bool)
    ensures
        r == unchanged(before@, current@, *s),
{
    let r: bool = agree_in(before, before, current, s) && agree_in(current, before, current, s);
    proof {
        if r {
            assert forall|path: Seq<char>| scope::allows(*s, path) implies #[trigger] source::at(
                before@,
                path,
                0,
            ) == source::at(current@, path, 0) by {
                if source::at(before@, path, 0) is Some {
                    source::lemma_at_listed(before@, path, 0);
                    let j = choose|j: int|
                        0 <= j < before@.len() && (#[trigger] before@[j]).path@ == path;
                    assert(before@[j].path@ == path);
                } else if source::at(current@, path, 0) is Some {
                    source::lemma_at_listed(current@, path, 0);
                    let j = choose|j: int|
                        0 <= j < current@.len() && (#[trigger] current@[j]).path@ == path;
                    assert(current@[j].path@ == path);
                }
            }
        }
    }
    r
}

/// Why the scopes from the `i`-th on keep a branch from being brought back.
pub open spec fn scopes_refusal(
    before: Seq<FileEntry>,
    current: Seq<FileEntry>,
    scopes: Seq<ScopePath>,
    i: int,
) -> Option<Seq<char>>
    decreases scopes.len() - i,
{
    if i < 0 || i >= scopes.len() {
        None
    } else if unchanged(before, current, scopes[i]) {
        scopes_refusal(before, current, scopes, i + 1)
    } else {
        Some(
            "RECONCILIATION_CONFLICT: issued scope "@ + scopes[i].at()
                + " changed while branch executed"@,
        )
    }
}

fn scopes_settled(before: &Vec<FileEntry>, current: &Vec<FileEntry>, scopes: &Vec<ScopePath>) -> (r: Result<
    (),
    Error,
>)
    ensures
        crate::error::settles(r, scopes_refusal(before@, current@, scopes@, 0)),
{
    let mut i: usize = 0;
    while i < scopes.len()
        invariant
            i <= scopes@.len(),
            scopes_refusal(before@, current@, scopes@, 0) == scopes_refusal(
                before@,
                current@,
                scopes@,
                i as int,
            ),
        decreases scopes@.len() - i,
    {
        if !scope_unchanged(before, current, &scopes[i]) {
            let m: String = text::join3(
                "RECONCILIATION_CONFLICT: issued scope ",
                scopes[i].path(),
                " changed while branch executed",
            );
            return invalid(m.as_str());
        }
        i += 1;
    }
    Ok(())
}

/// Why the changes from the `i`-th on cannot be published.
pub open spec fn changes_refusal(current: Seq<FileEntry>, changes: Seq<FileChange>, i: int) -> Option<
    Seq<char>,
>
    decreases changes.len() - i,
{
    if i < 0 || i >= changes.len() {
        None
    } else if !(changes[i].before_ignored is None && changes[i].after_ignored is None) {
        Some("RECONCILIATION_CONFLICT: ignored-file content is intentionally unavailable"@)
    } else if source::at(current, changes[i].path@, 0) != source::state_view(changes[i].before) {
        Some(
            "RECONCILIATION_CONFLICT: "@ + changes[i].path@
                + " no longer matches the branch baseline"@,
        )
    } else {
        changes_refusal(current, changes, i + 1)
    }
}

fn changes_apply(current: &Vec<FileEntry>, changes: &Vec<FileChange>) -> (r: Result<(), Error>)
    ensures
        crate::error::settles(r, changes_refusal(current@, changes@, 0)),
{
    let mut i: usize = 0;
    while i < changes.len()
        invariant
            i <= changes@.len(),
            changes_refusal(current@, changes@, 0) == changes_refusal(
                current@,
                changes@,
                i as int,
            ),
        decreases changes@.len() - i,
    {
        let c: &FileChange = &changes[i];
        if !(c.before_ignored.is_none() && c.after_ignored.is_none()) {
            return invalid(
                "RECONCILIATION_CONFLICT: ignored-file content is intentionally unavailable",
            );
        }
        if !source::same_state(source::get(current, c.path.as_str()), &c.before) {
            let m: String = text::join3(
                "RECONCILIATION_CONFLICT: ",
                c.path.as_str(),
                " no longer matches the branch baseline",
            );
            return invalid(m.as_str());
        }
        i += 1;
    }
    Ok(())
}

/// Why a branch cannot be brought back, if anything: its evidence, its Git
/// baseline, what was read or written, or what it changed.
pub open spec fn intent_refusal(
    task: TaskPacket,
    compatibility: Seq<CompatibilityDecision>,
    before: SourceSnapshot,
    current: SourceSnapshot,
    changes: Seq<FileChange>,
) -> Option<Seq<char>> {
    if !all_compatible(compatibility) {
        Some("UNKNOWN: branch lacks positive compatibility evidence"@)
    } else if !source::same_baseline(before, current) {
        Some("STALE_SOURCE_CONFLICT: branch and canonical Git baselines differ"@)
    } else {
        crate::error::either(
            scopes_refusal(before.files@, current.files@, task.read_scope@, 0),
            crate::error::either(
                scopes_refusal(before.files@, current.files@, task.write_scope@, 0),
                changes_refusal(current.files@, changes, 0),
            ),
        )
    }
}

/// What is at a path after the first `k` changes.
pub open spec fn after_changes(files: Seq<FileEntry>, changes: Seq<FileChange>, path: Seq<char>, k: int) -> Option<
    StateView,
>
    decreases k,
{
    if k <= 0 {
        source::at(files, path, 0)
    } else if changes[k - 1].path@ == path {
        source::state_view(changes[k - 1].after)
    } else {
        after_changes(files, changes, path, k - 1)
    }
}

fn copy_files(files: &Vec<FileEntry>) -> (r: Vec<FileEntry>)
    ensures
        r@ == files@,
{
    let mut out: Vec<FileEntry> = Vec::new();
    let mut i: usize = 0;
    while i < files.len()
        invariant
            i <= files@.len(),
            out@ == files@.take(i as int),
        decreases files@.len() - i,
    {
        let e: FileEntry = FileEntry { path: files[i].path.clone(), state: files[i].state.clone() };
        assert(e == files@[i as int]);
        out.push(e);
        i += 1;
        assert(out@ =~= files@.take(i as int));
    }
    assert(out@ =~= files@);
    out
}

fn copy_ignored(list: &Vec<IgnoredEntry>) -> (r: Vec<IgnoredEntry>)
    ensures
        r@ == list@,
{
    let mut out: Vec<IgnoredEntry> = Vec::new();
    let mut i: usize = 0;
    while i < list.len()
        invariant
            i <= list@.len(),
            out@ == list@.take(i as int),
        decreases list@.len() - i,
    {
        let e: IgnoredEntry = IgnoredEntry {
            path: list[i].path.clone(),
            state: list[i].state.clone(),
        };
        assert(e == list@[i as int]);
        out.push(e);
        i += 1;
        assert(out@ =~= list@.take(i as int));
    }
    assert(out@ =~= list@);
    out
}

fn copy_state(s: &Option<FileState>) -> (r: Option<FileState>)
    ensures
        r == *s,
{
    match s {
        Some(x) => Some(x.clone()),
        None => None,
    }
}

/// A publication: the paths it touches and the source that it leads to.
#[derive(Debug)]
pub struct Intended {
    pub source: SourceSnapshot,
    pub paths: Vec<ReconciliationPath>,
}

/// Whether a publication follows from a branch: the current source with the
/// changes of the branch.
pub open spec fn intends(
    x: Intended,
    before: SourceSnapshot,
    current: SourceSnapshot,
    changes: Seq<FileChange>,
) -> bool {
    &&& source::same_baseline(x.source, current)
    &&& x.source.ignored@ == current.ignored@
    &&& forall|path: Seq<char>| #[trigger]
        source::at(x.source.files@, path, 0) == after_changes(
            current.files@,
            changes,
            path,
            changes.len() as int,
        )
    &&& x.source.dirty == (!source::same_files(x.source.files@, before.files@) || current.dirty)
    &&& x.paths@.len() == changes.len()
    &&& forall|i: int| 0 <= i < changes.len() ==> publishes(#[trigger] x.paths@[i], changes[i])
}

/// Checks one captured branch and builds the complete publication for it,
/// without touching the canonical source.
pub fn reconciliation_intent(
    task: &TaskPacket,
    compatibility: &Vec<CompatibilityDecision>,
    before: &SourceSnapshot,
    current: &SourceSnapshot,
    changes: &Vec<FileChange>,
) -> (r: Result<Intended, Error>)
    ensures
        crate::error::settles(
            r,
            intent_refusal(*task, compatibility@, *before, *current, changes@),
        ),
        r matches Ok(x) ==> intends(x, *before, *current, changes@),
{
    if !are_compatible(compatibility) {
        return invalid("UNKNOWN: branch lacks positive compatibility evidence");
    }
    if !before.based_alike(current) {
        return invalid("STALE_SOURCE_CONFLICT: branch and canonical Git baselines differ");
    }
    match scopes_settled(&before.files, &current.files, &task.read_scope) {
        Ok(()) => {},
        Err(e) => return Err(e),
    }
    match scopes_settled(&before.files, &current.files, &task.write_scope) {
        Ok(()) => {},
        Err(e) => return Err(e),
    }
    match changes_apply(&current.files, changes) {
        Ok(()) => {},
        Err(e) => return Err(e),
    }
    let mut files: Vec<FileEntry> = copy_files(&current.files);
    let mut paths: Vec<ReconciliationPath> = Vec::new();
    let mut k: usize = 0;
    while k < changes.len()
        invariant
            k <= changes@.len(),
            forall|path: Seq<char>| #[trigger]
                source::at(files@, path, 0) == after_changes(
                    current.files@,
                    changes@,
                    path,
                    k as int,
                ),
            paths@.len() == k,
            forall|i: int| 0 <= i < k ==> publishes(#[trigger] paths@[i], changes@[i]),
        decreases changes@.len() - k,
    {
        let c: &FileChange = &changes[k];
        let ghost so_far = files@;
        files = source::replaced(&files, c.path.as_str(), &c.after);
        proof {
            assert forall|path: Seq<char>| #[trigger] source::at(files@, path, 0) == after_changes(
                current.files@,
                changes@,
                path,
                k + 1,
            ) by {
                assert(source::at(so_far, path, 0) == after_changes(
                    current.files@,
                    changes@,
                    path,
                    k as int,
                ));
            }
        }
        paths.push(
            ReconciliationPath {
                path: c.path.clone(),
                before: copy_state(&c.before),
                after: copy_state(&c.after),
            },
        );
        k += 1;
    }
    let dirty: bool = !source::files_agree(&files, &before.files) || current.dirty;
    let source: SourceSnapshot = SourceSnapshot {
        repository_id: current.repository_id.clone(),
        workspace_id: current.workspace_id.clone(),
        head: current.head.clone(),
        dirty,
        index_hash: current.index_hash.clone(),
        files,
        ignored: copy_ignored(&current.ignored),
        exclude_hash: current.exclude_hash.clone(),
    };
    Ok(Intended { source, paths })
}

// ---------------------------------------------------------------------------
// Publication
// ---------------------------------------------------------------------------

/// Whether a publication touches a path.
pub open spec fn affects(paths: Seq<ReconciliationPath>, path: Seq<char>) -> bool {
    exists|i: int| 0 <= i < paths.len() && (#[trigger] paths[i]).path@ == path
}

fn is_affected(paths: &Vec<ReconciliationPath>, path: &str) -> (r: bool)
    ensures
        r == affects(paths@, path@),
{
    let mut i: usize = 0;
    while i < paths.len()
        invariant
            i <= paths@.len(),
            forall|j: int| 0 <= j < i ==> (#[trigger] paths@[j]).path@ != path@,
        decreases paths@.len() - i,
    {
        if text::same(paths[i].path.as_str(), path) {
            return true;
        }
        i += 1;
    }
    false
}

/// Whether two captures agree on every path that a publication does not touch.
pub open spec fn rest_agrees(
    actual: Seq<FileEntry>,
    expected: Seq<FileEntry>,
    paths: Seq<ReconciliationPath>,
) -> bool {
    forall|path: Seq<char>|
        !affects(paths, path) ==> #[trigger] source::at(actual, path, 0) == source::at(
            expected,
            path,
            0,
        )
}

fn rest_in(
    listed: &Vec<FileEntry>,
    actual: &Vec<FileEntry>,
    expected: &Vec<FileEntry>,
    paths: &Vec<ReconciliationPath>,
) -> (r: bool)
    ensures
        r == (forall|i: int|
            0 <= i < listed@.len() && !affects(paths@, (#[trigger] listed@[i]).path@)
                ==> source::at(actual@, listed@[i].path@, 0) == source::at(
                expected@,
                listed@[i].path@,
                0,
            )),
{
    let mut i: usize = 0;
    while i < listed.len()
        invariant
            i <= listed@.len(),
            forall|j: int|
                0 <= j < i && !affects(paths@, (#[trigger] listed@[j]).path@) ==> source::at(
                    actual@,
                    listed@[j].path@,
                    0,
                ) == source::at(expected@, listed@[j].path@, 0),
        decreases listed@.len() - i,
    {
        let path: &str = listed[i].path.as_str();
        if !is_affected(paths, path) && !source::agree_at(actual, expected, path) {
            return false;
        }
        i += 1;
    }
    true
}

fn rest_settled(actual: &Vec<FileEntry>, expected: &Vec<FileEntry>, paths: &Vec<ReconciliationPath>) -> (r:
    bool)
    ensures
        r == rest_agrees(actual@, expected@, paths@),
{
    let r: bool = rest_in(actual, actual, expected, paths) && rest_in(
        expected,
        actual,
        expected,
        paths,
    );
    proof {
        if r {
            assert forall|path: Seq<char>| !affects(paths@, path) implies #[trigger] source::at(
                actual@,
                path,
                0,
            ) == source::at(expected@, path, 0) by {
                if source::at(actual@, path, 0) is Some {
                    source::lemma_at_listed(actual@, path, 0);
                    let j = choose|j: int|
                        0 <= j < actual@.len() && (#[trigger] actual@[j]).path@ == path;
                    assert(actual@[j].path@ == path);
                } else if source::at(expected@, path, 0) is Some {
                    source::lemma_at_listed(expected@, path, 0);
                    let j = choose|j: int|
                        0 <= j < expected@.len() && (#[trigger] expected@[j]).path@ == path;
                    assert(expected@[j].path@ == path);
                }
            }
        }
    }
    r
}

/// Why the paths of a publication from the `i`-th on are in no known state.
pub open spec fn paths_refusal(actual: Seq<FileEntry>, paths: Seq<ReconciliationPath>, i: int) -> Option<
    Seq<char>,
>
    decreases paths.len() - i,
{
    if i < 0 || i >= paths.len() {
        None
    } else {
        let seen = source::at(actual, paths[i].path@, 0);
        if seen == source::state_view(paths[i].before) || seen == source::state_view(
            paths[i].after,
        ) {
            paths_refusal(actual, paths, i + 1)
        } else {
            Some(
                "RECONCILIATION_UNRESOLVED: "@ + paths[i].path@
                    + " matches neither expected-before nor intended-after content"@,
            )
        }
    }
}

/// Why a publication must not start or resume, if anything: the checkout is not
/// the expected one with some of the intended paths already published.
pub open spec fn classification_refusal(
    expected: SourceSnapshot,
    actual: SourceSnapshot,
    paths: Seq<ReconciliationPath>,
) -> Option<Seq<char>> {
    if !(source::same_baseline(actual, expected) && source::same_ignored(
        actual.ignored@,
        expected.ignored@,
    )) {
        Some(
            "RECONCILIATION_UNRESOLVED: canonical Git/ignored-source identity differs from durable intent"@,
        )
    } else if !rest_agrees(actual.files@, expected.files@, paths) {
        Some(
            "RECONCILIATION_UNRESOLVED: non-publication source changed while intent was pending"@,
        )
    } else {
        paths_refusal(actual.files@, paths, 0)
    }
}

/// Checks that a publication may start or resume.
pub fn classify(expected: &SourceSnapshot, actual: &SourceSnapshot, paths: &Vec<ReconciliationPath>) -> (r:
    Result<(), Error>)
    ensures
        crate::error::settles(r, classification_refusal(*expected, *actual, paths@)),
{
    if !(actual.based_alike(expected) && source::ignored_agree(
        &actual.ignored,
        &expected.ignored,
    )) {
        return invalid(
            "RECONCILIATION_UNRESOLVED: canonical Git/ignored-source identity differs from durable intent",
        );
    }
    if !rest_settled(&actual.files, &expected.files, paths) {
        return invalid(
            "RECONCILIATION_UNRESOLVED: non-publication source changed while intent was pending",
        );
    }
    let mut i: usize = 0;
    while i < paths.len()
        invariant
            i <= paths@.len(),
            classification_refusal(*expected, *actual, paths@) == paths_refusal(
                actual.files@,
                paths@,
                i as int,
            ),
        decreases paths@.len() - i,
    {
        let p: &ReconciliationPath = &paths[i];
        let known: bool = source::same_state(
            source::get(&actual.files, p.path.as_str()),
            &p.before,
        ) || source::same_state(source::get(&actual.files, p.path.as_str()), &p.after);
        if !known {
            let m: String = text::join3(
                "RECONCILIATION_UNRESOLVED: ",
                p.path.as_str(),
                " matches neither expected-before nor intended-after content",
            );
            return invalid(m.as_str());
        }
        i += 1;
    }
    Ok(())
}

/// What is to be done at one path.
#[derive(Debug, Clone, Copy, PartialEq, Eq, Structural)]
pub enum Publication {
    /// The path is published already.
    Skip,
    /// The intended content is written; `create` where nothing may be there.
    Write { create: bool },
    Remove,
}

/// What is to be done at one path, given what is there right before. A path that
/// is in neither known state is left alone.
pub open spec fn publication(p: ReconciliationPath, seen: Option<StateView>) -> Option<Publication> {
    if seen == source::state_view(p.after) {
        Some(Publication::Skip)
    } else if seen != source::state_view(p.before) {
        None
    } else if p.after is Some {
        Some(Publication::Write { create: p.before is None })
    } else {
        Some(Publication::Remove)
    }
}

/// Decides what is to be done at one path, from a capture made right before.
pub fn publish_path(p: &ReconciliationPath, current: &Vec<FileEntry>) -> (r: Result<
    Publication,
    Error,
>)
    ensures
        match publication(*p, source::at(current@, p.path@, 0)) {
            Some(x) => r == Ok::<Publication, Error>(x),
            None => crate::error::refused(
                r,
                "RECONCILIATION_UNRESOLVED: "@ + p.path@
                    + " changed after classification and before publication"@,
            ),
        },
{
    if source::same_state(source::get(current, p.path.as_str()), &p.after) {
        return Ok(Publication::Skip);
    }
    if !source::same_state(source::get(current, p.path.as_str()), &p.before) {
        let m: String = text::join3(
            "RECONCILIATION_UNRESOLVED: ",
            p.path.as_str(),
            " changed after classification and before publication",
        );
        return invalid(m.as_str());
    }
    match &p.after {
        Some(_) => Ok(Publication::Write { create: p.before.is_none() }),
        None => Ok(Publication::Remove),
    }
}

/// Checks that one path has reached its intended content.
pub fn check_published(p: &ReconciliationPath, published: &Vec<FileEntry>) -> (r: Result<(), Error>)
    ensures
        crate::error::settles(
            r,
            if source::at(published@, p.path@, 0) == source::state_view(p.after) {
                None
            } else {
                Some(
                    "RECONCILIATION_UNRESOLVED: "@ + p.path@
                        + " did not reach intended-after identity"@,
                )
            },
        ),
{
    if source::same_state(source::get(published, p.path.as_str()), &p.after) {
        return Ok(());
    }
    let m: String = text::join3(
        "RECONCILIATION_UNRESOLVED: ",
        p.path.as_str(),
        " did not reach intended-after identity",
    );
    invalid(m.as_str())
}

/// Checks that a publication has reached its intended source.
pub fn check_result(result: &SourceSnapshot, intended: &SourceSnapshot) -> (r: Result<(), Error>)
    ensures
        crate::error::settles(
            r,
            if source::same_snapshot(*result, *intended) {
                None
            } else {
                Some(
                    "RECONCILIATION_UNRESOLVED: publication did not reach its intended canonical source"@,
                )
            },
        ),
{
    if result.same(intended) {
        Ok(())
    } else {
        invalid("RECONCILIATION_UNRESOLVED: publication did not reach its intended canonical source")
    }
}

/// The files of a checkout after what is decided at one path is done.
pub open spec fn done_at(files: Map<Seq<char>, StateView>, p: ReconciliationPath) -> Map<
    Seq<char>,
    StateView,
> {
    match publication(p, files.get(p.path@)) {
        Some(Publication::Write { .. }) => files.insert(p.path@, source::state_view(p.after)->0),
        Some(Publication::Remove) => files.remove(p.path@),
        _ => files,
    }
}

/// The files of a checkout after the first `k` paths are done.
pub open spec fn done(files: Map<Seq<char>, StateView>, paths: Seq<ReconciliationPath>, k: int) -> Map<
    Seq<char>,
    StateView,
>
    decreases k,
{
    if k <= 0 {
        files
    } else {
        done_at(done(files, paths, k - 1), paths[k - 1])
    }
}

/// What a verifier is told of a result that was published from a worktree.
pub const RECONCILIATION_GUARANTEE: &'static str =
    "This executor ran in an isolated worktree, so `diff` was captured at `branch_result`. agentctl then published exactly `diff` onto `canonical_before`: every path was changed only from its recorded before-image, and publication refuses unless the resulting canonical source reaches `canonical_after`. `canonical_after` is therefore the exact result of this diff, and is the source this job was issued and the source every check evidence record is bound to.";

/// How a result came from its worktree into the canonical checkout.
#[derive(Debug, PartialEq, Eq)]
pub struct ReconciliationChain {
    pub task_id: String,
    pub executor_job_id: String,
    pub diff: ArtifactRef,
    pub execution_workspace: Option<String>,
    pub branch_result: SourceStateRef,
    pub canonical_before: SourceStateRef,
    pub canonical_after: SourceStateRef,
    pub guarantee: &'static str,
}

/// Tells a verifier how a result came into the canonical checkout, or nothing
/// where its executor worked there itself. `branch`, `before` and `after` are the
/// sources of the worktree, and of the checkout before and after publication.
pub fn reconciliation_chain(
    pending: &PendingTask,
    branch: SourceStateRef,
    before: SourceStateRef,
    after: SourceStateRef,
) -> (r: Option<ReconciliationChain>)
    ensures
        match r {
            Some(c) => {
                &&& pending.reconciled_from is Some
                &&& c.task_id@ == pending.task_id@
                &&& c.executor_job_id@ == pending.executor@
                &&& c.diff == pending.diff
                &&& text::same_option(c.execution_workspace, pending.execution_workspace)
                &&& c.branch_result == branch
                &&& c.canonical_before == before
                &&& c.canonical_after == after
                &&& c.guarantee == RECONCILIATION_GUARANTEE
            },
            None => pending.reconciled_from is None,
        },
{
    if pending.reconciled_from.is_none() {
        return None;
    }
    Some(
        ReconciliationChain {
            task_id: pending.task_id.clone(),
            executor_job_id: pending.executor.clone(),
            diff: pending.diff.clone(),
            execution_workspace: match &pending.execution_workspace {
                Some(workspace) => Some(workspace.clone()),
                None => None,
            },
            branch_result: branch,
            canonical_before: before,
            canonical_after: after,
            guarantee: RECONCILIATION_GUARANTEE,
        },
    )
}

/// A path that holds neither the expected nor the intended content is never
/// touched.
pub proof fn law_unknown_content_is_never_touched(files: Map<Seq<char>, StateView>, p: ReconciliationPath)
    requires
        files.get(p.path@) != source::state_view(p.before),
        files.get(p.path@) != source::state_view(p.after),
    ensures
        publication(p, files.get(p.path@)) is None,
        done_at(files, p) == files,
{
}

/// Doing what is decided at a path leaves every other path as it is, brings that
/// path from the expected to the intended content, and changes nothing the
/// second time.
pub proof fn law_publishing_a_path_is_exact_and_idempotent(
    files: Map<Seq<char>, StateView>,
    p: ReconciliationPath,
    other: Seq<char>,
)
    requires
        files.get(p.path@) == source::state_view(p.before) || files.get(p.path@)
            == source::state_view(p.after),
        other != p.path@,
    ensures
        done_at(files, p).get(p.path@) == source::state_view(p.after),
        done_at(files, p).get(other) == files.get(other),
        done_at(done_at(files, p), p) == done_at(files, p),
{
}

/// From any checkout in which some of the paths are published already and the
/// others are as expected, publishing them all brings every path to its intended
/// content and leaves all others as they are: a publication that was cut short
/// at any point is completed by starting it again.
pub proof fn law_any_prefix_is_completed(
    files: Map<Seq<char>, StateView>,
    paths: Seq<ReconciliationPath>,
    k: int,
    path: Seq<char>,
)
    requires
        0 <= k <= paths.len(),
        forall|i: int|
            #![trigger paths[i]]
            0 <= i < paths.len() ==> files.get(paths[i].path@) == source::state_view(
                paths[i].before,
            ) || files.get(paths[i].path@) == source::state_view(paths[i].after),
        forall|i: int, j: int|
            0 <= i < j < paths.len() ==> (#[trigger] paths[i]).path@ != (#[trigger] paths[j]).path@,
    ensures
        forall|i: int|
            0 <= i < k ==> done(files, paths, k).get((#[trigger] paths[i]).path@)
                == source::state_view(paths[i].after),
        forall|i: int|
            k <= i < paths.len() ==> done(files, paths, k).get((#[trigger] paths[i]).path@)
                == files.get(paths[i].path@),
        !affects(paths, path) ==> done(files, paths, k).get(path) == files.get(path),
    decreases k,
{
    if k > 0 {
        law_any_prefix_is_completed(files, paths, k - 1, path);
        let so_far = done(files, paths, k - 1);
        let p = paths[k - 1];
        assert(so_far.get(p.path@) == files.get(p.path@));
        assert forall|i: int| 0 <= i < k implies done(files, paths, k).get(
            (#[trigger] paths[i]).path@,
        ) == source::state_view(paths[i].after) by {
            if i < k - 1 {
                assert(paths[i].path@ != p.path@);
            }
        }
        assert forall|i: int| k <= i < paths.len() implies done(files, paths, k).get(
            (#[trigger] paths[i]).path@,
        ) == files.get(paths[i].path@) by {
            assert(p.path@ != paths[i].path@);
        }
        if !affects(paths, path) {
            assert(p.path@ != path);
        }
    }
}

} // verus!
