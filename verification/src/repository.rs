//! Repository and workspace identities, what a checkout was observed to be,
//! and the Git configuration that makes observing it safe.
use crate::error::{invalid, Error};
use crate::text;
use sha2::{Digest, Sha256};
use vstd::prelude::*;
use vstd::string::*;
use vstd::utf8::*;

verus! {

// ---------------------------------------------------------------------------
// Digests
// ---------------------------------------------------------------------------

/// The SHA-256 digest of a byte sequence.
pub uninterp spec fn sha256(bytes: Seq<u8>) -> Seq<u8>;

/// `Sha256::digest` of sha2: the digest is a function of the bytes and is
/// 32 bytes long.
#[verifier::external_body]
fn sha256_digest(bytes: &[u8]) -> (r: Vec<u8>)
    ensures
        r@ == sha256(bytes@),
        r@.len() == 32,
{
    Sha256::digest(bytes).to_vec()
}

/// A lowercase hexadecimal digit.
pub open spec fn is_hex(c: char) -> bool {
    ('0' <= c && c <= '9') || ('a' <= c && c <= 'f')
}

/// The hexadecimal digit of a number below 16.
pub open spec fn nibble(n: int) -> char {
    if n < 10 {
        ('0' as u32 + n) as char
    } else {
        ('a' as u32 + (n - 10)) as char
    }
}

/// Bytes in lowercase hexadecimal, two digits each.
pub open spec fn hex(bytes: Seq<u8>) -> Seq<char>
    decreases bytes.len(),
{
    if bytes.len() == 0 {
        Seq::empty()
    } else {
        hex(bytes.drop_last()) + seq![
            nibble(bytes.last() as int / 16),
            nibble(bytes.last() as int % 16),
        ]
    }
}

pub proof fn lemma_hex(bytes: Seq<u8>)
    ensures
        hex(bytes).len() == 2 * bytes.len(),
        forall|i: int| 0 <= i < hex(bytes).len() ==> is_hex(#[trigger] hex(bytes)[i]),
    decreases bytes.len(),
{
    if bytes.len() > 0 {
        lemma_hex(bytes.drop_last());
        let b = bytes.last() as int;
        assert(0 <= b / 16 < 16 && 0 <= b % 16 < 16);
    }
}

fn hex_digit(n: u8) -> (r: &'static str)
    requires
        n < 16,
    ensures
        r@ == seq![nibble(n as int)],
{
    proof {
        reveal_strlit("0");
        reveal_strlit("1");
        reveal_strlit("2");
        reveal_strlit("3");
        reveal_strlit("4");
        reveal_strlit("5");
        reveal_strlit("6");
        reveal_strlit("7");
        reveal_strlit("8");
        reveal_strlit("9");
        reveal_strlit("a");
        reveal_strlit("b");
        reveal_strlit("c");
        reveal_strlit("d");
        reveal_strlit("e");
        reveal_strlit("f");
    }
    let r: &'static str = if n == 0 {
        "0"
    } else if n == 1 {
        "1"
    } else if n == 2 {
        "2"
    } else if n == 3 {
        "3"
    } else if n == 4 {
        "4"
    } else if n == 5 {
        "5"
    } else if n == 6 {
        "6"
    } else if n == 7 {
        "7"
    } else if n == 8 {
        "8"
    } else if n == 9 {
        "9"
    } else if n == 10 {
        "a"
    } else if n == 11 {
        "b"
    } else if n == 12 {
        "c"
    } else if n == 13 {
        "d"
    } else if n == 14 {
        "e"
    } else {
        "f"
    };
    assert(r@ =~= seq![nibble(n as int)]);
    r
}

/// Bytes in lowercase hexadecimal.
pub fn to_hex(bytes: &Vec<u8>) -> (r: String)
    ensures
        r@ == hex(bytes@),
{
    let mut out: String = String::new();
    let mut i: usize = 0;
    assert(bytes@.take(0) =~= Seq::<u8>::empty());
    while i < bytes.len()
        invariant
            i <= bytes@.len(),
            out@ == hex(bytes@.take(i as int)),
        decreases bytes@.len() - i,
    {
        let b: u8 = bytes[i];
        let high: &'static str = hex_digit(b / 16);
        let low: &'static str = hex_digit(b % 16);
        out.append(high);
        out.append(low);
        proof {
            let next = bytes@.take(i + 1);
            assert(next.drop_last() =~= bytes@.take(i as int));
            assert(out@ =~= hex(next));
        }
        i += 1;
    }
    assert(bytes@.take(i as int) =~= bytes@);
    out
}

/// `prefix` followed by the hexadecimal digest of `tag` and `path` in a row.
pub open spec fn identity(prefix: Seq<char>, tag: Seq<char>, path: Seq<char>) -> Seq<char> {
    prefix + hex(sha256(encode_utf8(tag + path)))
}

/// `prefix` followed by 64 lowercase hexadecimal digits.
pub open spec fn is_identity(prefix: Seq<char>, id: Seq<char>) -> bool {
    &&& id.len() == prefix.len() + 64
    &&& text::begins(id, prefix)
    &&& forall|i: int| prefix.len() <= i < id.len() ==> is_hex(#[trigger] id[i])
}

fn identify(prefix: &str, tag: &str, path: &str) -> (r: String)
    ensures
        r@ == identity(prefix@, tag@, path@),
        is_identity(prefix@, r@),
{
    let material: String = text::join2(tag, path);
    let digest: Vec<u8> = sha256_digest(material.as_str().as_bytes());
    let digits: String = to_hex(&digest);
    let r: String = text::join2(prefix, digits.as_str());
    proof {
        lemma_hex(digest@);
        assert(r@.take(prefix@.len() as int) =~= prefix@);
        assert forall|i: int| prefix@.len() <= i < r@.len() implies is_hex(#[trigger] r@[i]) by {
            assert(r@[i] == hex(digest@)[i - prefix@.len()]);
        }
    }
    r
}

fn well_formed_identity(prefix: &str, id: &str) -> (r: bool)
    ensures
        r == is_identity(prefix@, id@),
{
    let all: Vec<char> = text::chars(id);
    let n: usize = prefix.unicode_len();
    if all.len() < n || all.len() - n != 64 || !text::starts_with(id, prefix) {
        return false;
    }
    let mut i: usize = n;
    while i < all.len()
        invariant
            n == prefix@.len(),
            n <= i <= all@.len(),
            all@ == id@,
            forall|j: int| n <= j < i ==> is_hex(#[trigger] id@[j]),
        decreases all@.len() - i,
    {
        let c: char = all[i];
        if !(('0' <= c && c <= '9') || ('a' <= c && c <= 'f')) {
            assert(!is_hex(id@[i as int]));
            return false;
        }
        i += 1;
    }
    true
}

pub const REPOSITORY_PREFIX: &'static str = "repo-";

pub const REPOSITORY_TAG: &'static str = "agentctl-local-git-v1\0";

pub const WORKSPACE_PREFIX: &'static str = "workspace-";

pub const WORKSPACE_TAG: &'static str = "agentctl-workspace-v1\0";

pub const REPOSITORY_ID_RULE: &'static str =
    "repository ID must be repo- followed by 64 lowercase hex digits";

pub const WORKSPACE_ID_RULE: &'static str =
    "workspace ID must be workspace- followed by 64 lowercase hex digits";

/// Logical local repository identity, derived from the canonical Git common
/// directory.
#[derive(Debug, PartialEq, Eq)]
pub struct RepositoryId(String);

impl View for RepositoryId {
    type V = Seq<char>;

    closed spec fn view(&self) -> Seq<char> {
        self.0@
    }
}

impl RepositoryId {
    #[verifier::type_invariant]
    spec fn well_formed(self) -> bool {
        is_identity(REPOSITORY_PREFIX@, self.0@)
    }

    pub fn for_common_directory(path: &str) -> (r: Self)
        ensures
            r@ == identity(REPOSITORY_PREFIX@, REPOSITORY_TAG@, path@),
            is_identity(REPOSITORY_PREFIX@, r@),
    {
        RepositoryId(identify(REPOSITORY_PREFIX, REPOSITORY_TAG, path))
    }

    pub fn as_str(&self) -> (r: &str)
        ensures
            r@ == self@,
            is_identity(REPOSITORY_PREFIX@, r@),
    {
        proof {
            use_type_invariant(self);
        }
        self.0.as_str()
    }

    pub fn try_from(value: String) -> (r: Result<Self, String>)
        ensures
            match r {
                Ok(id) => id@ == value@ && is_identity(REPOSITORY_PREFIX@, value@),
                Err(m) => !is_identity(REPOSITORY_PREFIX@, value@) && m@ == REPOSITORY_ID_RULE@,
            },
    {
        if well_formed_identity(REPOSITORY_PREFIX, value.as_str()) {
            Ok(RepositoryId(value))
        } else {
            Err(REPOSITORY_ID_RULE.to_owned())
        }
    }

    /// The text of an identity.
    pub fn into_string(self) -> (r: String)
        ensures
            r@ == self@,
    {
        self.0
    }
}

impl Clone for RepositoryId {
    fn clone(&self) -> (r: Self)
        ensures
            r@ == self@,
    {
        proof {
            use_type_invariant(self);
        }
        RepositoryId(self.0.clone())
    }
}

/// Concrete checkout identity, independent of repository-level ownership.
#[derive(Debug, PartialEq, Eq)]
pub struct WorkspaceId(String);

impl View for WorkspaceId {
    type V = Seq<char>;

    closed spec fn view(&self) -> Seq<char> {
        self.0@
    }
}

impl WorkspaceId {
    #[verifier::type_invariant]
    spec fn well_formed(self) -> bool {
        is_identity(WORKSPACE_PREFIX@, self.0@)
    }

    pub fn for_git_directory(path: &str) -> (r: Self)
        ensures
            r@ == identity(WORKSPACE_PREFIX@, WORKSPACE_TAG@, path@),
            is_identity(WORKSPACE_PREFIX@, r@),
    {
        WorkspaceId(identify(WORKSPACE_PREFIX, WORKSPACE_TAG, path))
    }

    pub fn as_str(&self) -> (r: &str)
        ensures
            r@ == self@,
            is_identity(WORKSPACE_PREFIX@, r@),
    {
        proof {
            use_type_invariant(self);
        }
        self.0.as_str()
    }

    pub fn try_from(value: String) -> (r: Result<Self, String>)
        ensures
            match r {
                Ok(id) => id@ == value@ && is_identity(WORKSPACE_PREFIX@, value@),
                Err(m) => !is_identity(WORKSPACE_PREFIX@, value@) && m@ == WORKSPACE_ID_RULE@,
            },
    {
        if well_formed_identity(WORKSPACE_PREFIX, value.as_str()) {
            Ok(WorkspaceId(value))
        } else {
            Err(WORKSPACE_ID_RULE.to_owned())
        }
    }

    /// The text of an identity.
    pub fn into_string(self) -> (r: String)
        ensures
            r@ == self@,
    {
        self.0
    }
}

impl Clone for WorkspaceId {
    fn clone(&self) -> (r: Self)
        ensures
            r@ == self@,
    {
        proof {
            use_type_invariant(self);
        }
        WorkspaceId(self.0.clone())
    }
}

// ---------------------------------------------------------------------------
// Observations
// ---------------------------------------------------------------------------

/// What a checkout was observed to be.
#[derive(Debug, PartialEq, Eq)]
pub struct RepositorySourceState {
    pub repository_id: RepositoryId,
    pub workspace_id: WorkspaceId,
    pub head_commit: Option<String>,
    pub dirty: bool,
    /// Even a clean Git status is not a fingerprint of the whole filesystem.
    pub worktree_fingerprint: Option<String>,
    pub observed_at_ms: u64,
}

/// Whether two observations are the same.
pub open spec fn same_observation(a: RepositorySourceState, b: RepositorySourceState) -> bool {
    &&& a.repository_id@ == b.repository_id@
    &&& a.workspace_id@ == b.workspace_id@
    &&& text::same_option(a.head_commit, b.head_commit)
    &&& a.dirty == b.dirty
    &&& text::same_option(a.worktree_fingerprint, b.worktree_fingerprint)
    &&& a.observed_at_ms == b.observed_at_ms
}

impl RepositorySourceState {
    pub fn same(&self, other: &Self) -> (r: bool)
        ensures
            r == same_observation(*self, *other),
    {
        text::same(self.repository_id.as_str(), other.repository_id.as_str()) && text::same(
            self.workspace_id.as_str(),
            other.workspace_id.as_str(),
        ) && text::same_optional(&self.head_commit, &other.head_commit) && self.dirty == other.dirty
            && text::same_optional(&self.worktree_fingerprint, &other.worktree_fingerprint)
            && self.observed_at_ms == other.observed_at_ms
    }
}

impl Clone for RepositorySourceState {
    fn clone(&self) -> (r: Self)
        ensures
            same_observation(r, *self),
    {
        RepositorySourceState {
            repository_id: self.repository_id.clone(),
            workspace_id: self.workspace_id.clone(),
            head_commit: self.head_commit.clone(),
            dirty: self.dirty,
            worktree_fingerprint: self.worktree_fingerprint.clone(),
            observed_at_ms: self.observed_at_ms,
        }
    }
}

/// Replacement detection for a directory; not a distributed identity.
#[derive(Debug, Clone, Copy, PartialEq, Eq, Structural)]
pub struct DirectoryIdentity {
    pub device: u64,
    pub inode: u64,
}

/// The URLs of one Git remote, in configuration order.
#[derive(Debug, PartialEq, Eq)]
pub struct Remote {
    pub name: String,
    pub urls: Vec<String>,
}

/// A discovered checkout.
#[derive(Debug, PartialEq, Eq)]
pub struct RepositoryInfo {
    pub repository_id: RepositoryId,
    pub workspace_id: WorkspaceId,
    pub root: String,
    pub git_directory: String,
    pub common_directory: String,
    pub git_directory_identity: Option<DirectoryIdentity>,
    pub common_directory_identity: Option<DirectoryIdentity>,
    pub remotes: Vec<Remote>,
    pub source: RepositorySourceState,
}

pub const IDENTITY_MISMATCH: &'static str =
    "repository/workspace identity does not match its Git directory";

pub const SOURCE_ENVELOPE: &'static str = "invalid Stage 1 source-state envelope";

/// Why an observation cannot be used, if anything. What the path rule of the
/// machine says of the three directories comes first.
pub open spec fn info_refusal(info: RepositoryInfo, paths: Option<String>) -> Option<Seq<char>> {
    match paths {
        Some(m) => Some(m@),
        None => if !(info.repository_id@ == identity(
            REPOSITORY_PREFIX@,
            REPOSITORY_TAG@,
            info.common_directory@,
        ) && info.workspace_id@ == identity(WORKSPACE_PREFIX@, WORKSPACE_TAG@, info.git_directory@)) {
            Some(IDENTITY_MISMATCH@)
        } else if !(info.source.repository_id@ == info.repository_id@ && info.source.workspace_id@
            == info.workspace_id@ && info.source.worktree_fingerprint is None) {
            Some(SOURCE_ENVELOPE@)
        } else {
            None
        },
    }
}

impl RepositoryInfo {
    pub fn validate(&self, paths: &Option<String>) -> (r: Result<(), Error>)
        ensures
            crate::error::settles(r, info_refusal(*self, *paths)),
    {
        if let Some(m) = paths {
            return invalid(m.as_str());
        }
        let repository: RepositoryId = RepositoryId::for_common_directory(
            self.common_directory.as_str(),
        );
        let workspace: WorkspaceId = WorkspaceId::for_git_directory(self.git_directory.as_str());
        if !(text::same(self.repository_id.as_str(), repository.as_str()) && text::same(
            self.workspace_id.as_str(),
            workspace.as_str(),
        )) {
            return invalid(IDENTITY_MISMATCH);
        }
        if !(text::same(self.source.repository_id.as_str(), self.repository_id.as_str())
            && text::same(self.source.workspace_id.as_str(), self.workspace_id.as_str())
            && self.source.worktree_fingerprint.is_none()) {
            return invalid(SOURCE_ENVELOPE);
        }
        Ok(())
    }
}

} // verus!
