//! Captured source states: what a workspace held, and how two captures differ.
use crate::text;
use vstd::prelude::*;

verus! {

/// A stored document, by content hash and size.
#[derive(Debug, PartialEq, Eq)]
pub struct ArtifactRef {
    pub hash: String,
    pub bytes: u64,
}

impl Clone for ArtifactRef {
    fn clone(&self) -> (r: Self)
        ensures
            r == *self,
    {
        ArtifactRef { hash: self.hash.clone(), bytes: self.bytes }
    }
}

/// Whether two references are to the same document.
pub open spec fn same_artifact(a: ArtifactRef, b: ArtifactRef) -> bool {
    a.hash@ == b.hash@ && a.bytes == b.bytes
}

impl ArtifactRef {
    pub fn same(&self, other: &ArtifactRef) -> (r: bool)
        ensures
            r == same_artifact(*self, *other),
    {
        text::same(self.hash.as_str(), other.hash.as_str()) && self.bytes == other.bytes
    }
}

/// Content and mode of one captured file.
#[derive(Debug, PartialEq, Eq)]
pub struct FileState {
    pub content: ArtifactRef,
    pub mode: u32,
}

impl Clone for FileState {
    fn clone(&self) -> (r: Self)
        ensures
            r == *self,
    {
        FileState { content: self.content.clone(), mode: self.mode }
    }
}

/// An individually ignored file, known by its metadata alone.
#[derive(Debug, PartialEq, Eq)]
pub struct IgnoredFile {
    pub bytes: u64,
    pub modified_at_ms: Option<u64>,
}

impl Clone for IgnoredFile {
    fn clone(&self) -> (r: Self)
        ensures
            r == *self,
    {
        IgnoredFile { bytes: self.bytes, modified_at_ms: self.modified_at_ms }
    }
}

/// One path that two captures do not agree on.
#[derive(Debug, PartialEq, Eq)]
pub struct FileChange {
    pub path: String,
    pub before: Option<FileState>,
    pub after: Option<FileState>,
    pub before_ignored: Option<IgnoredFile>,
    pub after_ignored: Option<IgnoredFile>,
}

// ---------------------------------------------------------------------------
// States
// ---------------------------------------------------------------------------

/// What a captured file is: its content and mode.
pub struct StateView {
    pub hash: Seq<char>,
    pub bytes: u64,
    pub mode: u32,
}

impl View for FileState {
    type V = StateView;

    open spec fn view(&self) -> StateView {
        StateView { hash: self.content.hash@, bytes: self.content.bytes, mode: self.mode }
    }
}

/// What an optional file is.
pub open spec fn state_view(s: Option<FileState>) -> Option<StateView> {
    match s {
        Some(x) => Some(x@),
        None => None,
    }
}

impl FileState {
    pub fn same(&self, other: &FileState) -> (r: bool)
        ensures
            r == (self@ == other@),
    {
        text::same(self.content.hash.as_str(), other.content.hash.as_str()) && self.content.bytes
            == other.content.bytes && self.mode == other.mode
    }
}

/// Whether two optional files are the same.
pub fn same_state(a: Option<&FileState>, b: &Option<FileState>) -> (r: bool)
    ensures
        r == (match a {
            Some(x) => Some(x@),
            None => None,
        } == state_view(*b)),
{
    match (a, b) {
        (Some(x), Some(y)) => x.same(y),
        (None, None) => true,
        _ => false,
    }
}

/// A captured file under its path.
#[derive(Debug, PartialEq, Eq)]
pub struct FileEntry {
    pub path: String,
    pub state: FileState,
}

/// An ignored file under its path.
#[derive(Debug, PartialEq, Eq)]
pub struct IgnoredEntry {
    pub path: String,
    pub state: IgnoredFile,
}

/// A captured checkout.
#[derive(Debug, PartialEq, Eq)]
pub struct SourceSnapshot {
    pub repository_id: String,
    pub workspace_id: String,
    pub head: Option<String>,
    pub dirty: bool,
    pub index_hash: String,
    pub files: Vec<FileEntry>,
    pub ignored: Vec<IgnoredEntry>,
    pub exclude_hash: Option<String>,
}

/// What is captured at a path, looked up from the `i`-th entry on.
pub open spec fn at(files: Seq<FileEntry>, path: Seq<char>, i: int) -> Option<StateView>
    decreases files.len() - i,
{
    if i < 0 || i >= files.len() {
        None
    } else if files[i].path@ == path {
        Some(files[i].state@)
    } else {
        at(files, path, i + 1)
    }
}

/// The captured file at a path.
pub fn get<'a>(files: &'a Vec<FileEntry>, path: &str) -> (r: Option<&'a FileState>)
    ensures
        match r {
            Some(s) => at(files@, path@, 0) == Some(s@),
            None => at(files@, path@, 0) is None,
        },
{
    let mut i: usize = 0;
    while i < files.len()
        invariant
            i <= files@.len(),
            at(files@, path@, 0) == at(files@, path@, i as int),
        decreases files@.len() - i,
    {
        if text::same(files[i].path.as_str(), path) {
            return Some(&files[i].state);
        }
        i += 1;
    }
    None
}

/// Whether two captures hold the same file at a path.
pub fn agree_at(a: &Vec<FileEntry>, b: &Vec<FileEntry>, path: &str) -> (r: bool)
    ensures
        r == (at(a@, path@, 0) == at(b@, path@, 0)),
{
    match (get(a, path), get(b, path)) {
        (Some(x), Some(y)) => x.same(y),
        (None, None) => true,
        _ => false,
    }
}

/// Whether two captures hold the same files.
pub open spec fn same_files(a: Seq<FileEntry>, b: Seq<FileEntry>) -> bool {
    forall|path: Seq<char>| #[trigger] at(a, path, 0) == at(b, path, 0)
}

pub proof fn lemma_at_listed(files: Seq<FileEntry>, path: Seq<char>, i: int)
    requires
        0 <= i,
        at(files, path, i) is Some,
    ensures
        exists|j: int| i <= j < files.len() && (#[trigger] files[j]).path@ == path,
    decreases files.len() - i,
{
    if i < files.len() && files[i].path@ != path {
        lemma_at_listed(files, path, i + 1);
    }
}

fn covered(a: &Vec<FileEntry>, b: &Vec<FileEntry>) -> (r: bool)
    ensures
        r == (forall|i: int|
            0 <= i < a@.len() ==> at(a@, (#[trigger] a@[i]).path@, 0) == at(b@, a@[i].path@, 0)),
{
    let mut i: usize = 0;
    while i < a.len()
        invariant
            i <= a@.len(),
            forall|j: int|
                0 <= j < i ==> at(a@, (#[trigger] a@[j]).path@, 0) == at(b@, a@[j].path@, 0),
        decreases a@.len() - i,
    {
        if !agree_at(a, b, a[i].path.as_str()) {
            return false;
        }
        i += 1;
    }
    true
}

/// Whether two captures hold the same files.
pub fn files_agree(a: &Vec<FileEntry>, b: &Vec<FileEntry>) -> (r: bool)
    ensures
        r == same_files(a@, b@),
{
    let r: bool = covered(a, b) && covered(b, a);
    proof {
        if r {
            assert forall|path: Seq<char>| #[trigger] at(a@, path, 0) == at(b@, path, 0) by {
                if at(a@, path, 0) is Some {
                    lemma_at_listed(a@, path, 0);
                    let j = choose|j: int| 0 <= j < a@.len() && (#[trigger] a@[j]).path@ == path;
                    assert(a@[j].path@ == path);
                } else if at(b@, path, 0) is Some {
                    lemma_at_listed(b@, path, 0);
                    let j = choose|j: int| 0 <= j < b@.len() && (#[trigger] b@[j]).path@ == path;
                    assert(b@[j].path@ == path);
                }
            }
        }
    }
    r
}

/// Whether two captures hold the same ignored files, in order.
pub open spec fn same_ignored(a: Seq<IgnoredEntry>, b: Seq<IgnoredEntry>) -> bool {
    &&& a.len() == b.len()
    &&& forall|i: int|
        0 <= i < a.len() ==> (#[trigger] a[i]).path@ == b[i].path@ && a[i].state.bytes
            == b[i].state.bytes && a[i].state.modified_at_ms == b[i].state.modified_at_ms
}

pub fn ignored_agree(a: &Vec<IgnoredEntry>, b: &Vec<IgnoredEntry>) -> (r: bool)
    ensures
        r == same_ignored(a@, b@),
{
    if a.len() != b.len() {
        return false;
    }
    let mut i: usize = 0;
    while i < a.len()
        invariant
            i <= a@.len(),
            a@.len() == b@.len(),
            forall|j: int|
                0 <= j < i ==> (#[trigger] a@[j]).path@ == b@[j].path@ && a@[j].state.bytes
                    == b@[j].state.bytes && a@[j].state.modified_at_ms
                    == b@[j].state.modified_at_ms,
        decreases a@.len() - i,
    {
        let modified: bool = match (a[i].state.modified_at_ms, b[i].state.modified_at_ms) {
            (Some(x), Some(y)) => x == y,
            (None, None) => true,
            _ => false,
        };
        if !(modified && text::same(a[i].path.as_str(), b[i].path.as_str()) && a[i].state.bytes
            == b[i].state.bytes) {
            return false;
        }
        i += 1;
    }
    true
}

/// Whether two captures are of the same Git baseline.
pub open spec fn same_baseline(a: SourceSnapshot, b: SourceSnapshot) -> bool {
    &&& a.repository_id@ == b.repository_id@
    &&& a.workspace_id@ == b.workspace_id@
    &&& text::same_option(a.head, b.head)
    &&& a.index_hash@ == b.index_hash@
    &&& text::same_option(a.exclude_hash, b.exclude_hash)
}

/// Whether two captures are the same.
pub open spec fn same_snapshot(a: SourceSnapshot, b: SourceSnapshot) -> bool {
    same_baseline(a, b) && a.dirty == b.dirty && same_files(a.files@, b.files@) && same_ignored(
        a.ignored@,
        b.ignored@,
    )
}

impl SourceSnapshot {
    pub fn based_alike(&self, other: &SourceSnapshot) -> (r: bool)
        ensures
            r == same_baseline(*self, *other),
    {
        text::same(self.repository_id.as_str(), other.repository_id.as_str()) && text::same(
            self.workspace_id.as_str(),
            other.workspace_id.as_str(),
        ) && text::same_optional(&self.head, &other.head) && text::same(
            self.index_hash.as_str(),
            other.index_hash.as_str(),
        ) && text::same_optional(&self.exclude_hash, &other.exclude_hash)
    }

    pub fn same(&self, other: &SourceSnapshot) -> (r: bool)
        ensures
            r == same_snapshot(*self, *other),
    {
        self.based_alike(other) && self.dirty == other.dirty && files_agree(
            &self.files,
            &other.files,
        ) && ignored_agree(&self.ignored, &other.ignored)
    }
}

proof fn lemma_at_push(files: Seq<FileEntry>, e: FileEntry, path: Seq<char>, i: int)
    requires
        0 <= i <= files.len(),
    ensures
        at(files.push(e), path, i) == match at(files, path, i) {
            Some(s) => Some(s),
            None => if e.path@ == path {
                Some(e.state@)
            } else {
                None
            },
        },
    decreases files.len() - i,
{
    if i < files.len() {
        assert(files.push(e)[i] == files[i]);
        if files[i].path@ != path {
            lemma_at_push(files, e, path, i + 1);
        }
    } else {
        assert(files.push(e)[i] == e);
        assert(at(files.push(e), path, i + 1) is None);
    }
}

/// The entries of a capture that are not at a path, and one more entry in their
/// place where there is one.
pub fn replaced(files: &Vec<FileEntry>, path: &str, state: &Option<FileState>) -> (r: Vec<FileEntry>)
    ensures
        forall|p: Seq<char>| #[trigger]
            at(r@, p, 0) == if p == path@ {
                state_view(*state)
            } else {
                at(files@, p, 0)
            },
{
    let mut out: Vec<FileEntry> = Vec::new();
    let mut i: usize = 0;
    while i < files.len()
        invariant
            i <= files@.len(),
            forall|p: Seq<char>| #[trigger]
                at(out@, p, 0) == if p == path@ {
                    None
                } else {
                    at(files@.take(i as int), p, 0)
                },
        decreases files@.len() - i,
    {
        let ghost so_far = out@;
        let ghost taken = files@.take(i as int);
        let ghost next = files@.take(i + 1);
        assert(next =~= taken.push(files@[i as int]));
        if !text::same(files[i].path.as_str(), path) {
            let e: FileEntry = FileEntry {
                path: files[i].path.clone(),
                state: files[i].state.clone(),
            };
            out.push(e);
            assert(out@ =~= so_far.push(e));
            assert(e == files@[i as int]);
        }
        proof {
            assert forall|p: Seq<char>| #[trigger] at(out@, p, 0) == if p == path@ {
                None
            } else {
                at(next, p, 0)
            } by {
                lemma_at_push(taken, files@[i as int], p, 0);
                lemma_at_push(so_far, files@[i as int], p, 0);
                assert(at(so_far, p, 0) == if p == path@ {
                    None
                } else {
                    at(taken, p, 0)
                });
            }
        }
        i += 1;
    }
    assert(files@.take(i as int) =~= files@);
    if let Some(s) = state {
        let ghost so_far = out@;
        let e: FileEntry = FileEntry { path: path.to_owned(), state: s.clone() };
        out.push(e);
        proof {
            assert(out@ =~= so_far.push(e));
            assert forall|p: Seq<char>| #[trigger] at(out@, p, 0) == if p == path@ {
                state_view(*state)
            } else {
                at(files@, p, 0)
            } by {
                lemma_at_push(so_far, e, p, 0);
                assert(at(so_far, p, 0) == if p == path@ {
                    None
                } else {
                    at(files@, p, 0)
                });
            }
        }
    }
    out
}

} // verus!
