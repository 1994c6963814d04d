//! Isolated checkouts: how they and their jobs are named, where machine state
//! may lie, and how a checkout is made to hold an issued baseline.
use crate::error::{invalid, Error};
use crate::source;
use crate::source::{FileEntry, SourceSnapshot, StateView};
use crate::text;
use vstd::prelude::*;
use vstd::string::*;

verus! {

// ---------------------------------------------------------------------------
// Names
// ---------------------------------------------------------------------------

/// An identifier as a name in a directory.
pub open spec fn dashed(id: Seq<char>) -> Seq<char> {
    id.map_values(
        |c: char|
            if c == ':' {
                '-'
            } else {
                c
            },
    )
}

pub fn directory_name(id: &str) -> (r: String)
    ensures
        r@ == dashed(id@),
{
    let n: usize = id.unicode_len();
    let mut out: String = String::new();
    assert(out@ =~= dashed(id@).take(0));
    proof {
        reveal_strlit("-");
        assert("-"@ =~= seq!['-']);
    }
    let mut i: usize = 0;
    while i < n
        invariant
            i <= n,
            n == id@.len(),
            "-"@ == seq!['-'],
            out@ == dashed(id@).take(i as int),
        decreases n - i,
    {
        let c: char = id.get_char(i);
        let next: String = text::join2(
            out.as_str(),
            if c == ':' {
                "-"
            } else {
                id.substring_char(i, i + 1)
            },
        );
        proof {
            assert(id@.subrange(i as int, i + 1) =~= seq![id@[i as int]]);
            assert(next@ =~= dashed(id@).take(i + 1));
        }
        out = next;
        i += 1;
    }
    assert(dashed(id@).take(i as int) =~= dashed(id@));
    out
}

/// The directory of a task's worktree, unique by its nonce.
pub fn worktree_name(task: &str, nonce: &str) -> (r: String)
    ensures
        r@ == dashed(task@) + "-"@ + nonce@,
{
    let name: String = directory_name(task);
    text::join3(name.as_str(), "-", nonce)
}

/// The name of a directory holds no colon.
pub proof fn law_directory_names_hold_no_colon(id: Seq<char>, i: int)
    requires
        0 <= i < id.len(),
    ensures
        dashed(id).len() == id.len(),
        dashed(id)[i] != ':',
{
}

/// A job and its provider session, from a random hexadecimal text.
#[derive(Debug)]
pub struct Identity {
    pub job_id: String,
    pub session_id: String,
}

pub fn identity(hex: &str) -> (r: Identity)
    requires
        hex@.len() >= 20,
    ensures
        r.job_id@ == "runtime:"@ + hex@,
        r.session_id@ == hex@.subrange(0, 8) + "-"@ + hex@.subrange(8, 12) + "-4"@ + hex@.subrange(
            13,
            16,
        ) + "-a"@ + hex@.subrange(17, 20) + "-"@ + hex@.subrange(20, hex@.len() as int),
{
    let n: usize = hex.unicode_len();
    let a: String = text::join3(hex.substring_char(0, 8), "-", hex.substring_char(8, 12));
    let b: String = text::join3(a.as_str(), "-4", hex.substring_char(13, 16));
    let c: String = text::join3(b.as_str(), "-a", hex.substring_char(17, 20));
    let session_id: String = text::join3(c.as_str(), "-", hex.substring_char(20, n));
    Identity { job_id: text::join2("runtime:", hex), session_id }
}

// ---------------------------------------------------------------------------
// Machine state
// ---------------------------------------------------------------------------

/// Whether a path, by its components, lies in a directory.
pub open spec fn inside(path: Seq<Seq<char>>, directory: Seq<Seq<char>>) -> bool {
    directory.len() <= path.len() && path.take(directory.len() as int) == directory
}

pub fn lies_inside(path: &Vec<String>, directory: &Vec<String>) -> (r: bool)
    ensures
        r == inside(text::texts(path@), text::texts(directory@)),
{
    let ghost (p, d) = (text::texts(path@), text::texts(directory@));
    if directory.len() > path.len() {
        return false;
    }
    let mut i: usize = 0;
    while i < directory.len()
        invariant
            i <= directory@.len() <= path@.len(),
            p == text::texts(path@),
            d == text::texts(directory@),
            forall|k: int| 0 <= k < i ==> p[k] == #[trigger] d[k],
        decreases directory@.len() - i,
    {
        assert(p[i as int] == path@[i as int]@ && d[i as int] == directory@[i as int]@);
        if !text::same(path[i].as_str(), directory[i].as_str()) {
            assert(p.take(d.len() as int)[i as int] != d[i as int]);
            return false;
        }
        i += 1;
    }
    assert(p.take(d.len() as int) =~= d);
    true
}

pub const STATE_INSIDE: &'static str = "runtime machine state must be outside the workspace";

/// Refuses machine state inside the workspace that it is about.
pub fn check_machine_state(data: &Vec<String>, config: &Vec<String>, workspace: &Vec<String>) -> (r:
    Result<(), Error>)
    ensures
        crate::error::settles(
            r,
            if inside(text::texts(data@), text::texts(workspace@)) || inside(
                text::texts(config@),
                text::texts(workspace@),
            ) {
                Some(STATE_INSIDE@)
            } else {
                None
            },
        ),
{
    if lies_inside(data, workspace) || lies_inside(config, workspace) {
        invalid(STATE_INSIDE)
    } else {
        Ok(())
    }
}

// ---------------------------------------------------------------------------
// Baselines
// ---------------------------------------------------------------------------

/// What has to be done to a checkout so that it holds a baseline.
#[derive(Debug, PartialEq, Eq)]
pub struct Changes {
    pub remove: Vec<String>,
    pub write: Vec<String>,
}

/// The paths of a checkout that a baseline does not have, from the `i`-th on.
pub open spec fn surplus(actual: Seq<FileEntry>, expected: Seq<FileEntry>, i: int) -> Seq<Seq<char>>
    decreases actual.len() - i,
{
    if i < 0 || i >= actual.len() {
        Seq::empty()
    } else if source::at(expected, actual[i].path@, 0) is None {
        seq![actual[i].path@] + surplus(actual, expected, i + 1)
    } else {
        surplus(actual, expected, i + 1)
    }
}

/// The paths of a baseline that a checkout does not hold as they are, from the
/// `i`-th on.
pub open spec fn lacking(actual: Seq<FileEntry>, expected: Seq<FileEntry>, i: int) -> Seq<Seq<char>>
    decreases expected.len() - i,
{
    if i < 0 || i >= expected.len() {
        Seq::empty()
    } else if source::at(actual, expected[i].path@, 0) != source::at(
        expected,
        expected[i].path@,
        0,
    ) {
        seq![expected[i].path@] + lacking(actual, expected, i + 1)
    } else {
        lacking(actual, expected, i + 1)
    }
}

fn list_surplus(actual: &Vec<FileEntry>, expected: &Vec<FileEntry>) -> (r: Vec<String>)
    ensures
        text::texts(r@) == surplus(actual@, expected@, 0),
{
    let ghost all = surplus(actual@, expected@, 0);
    let mut out: Vec<String> = Vec::new();
    assert(text::texts(out@) + all =~= all);
    let mut i: usize = 0;
    while i < actual.len()
        invariant
            i <= actual@.len(),
            text::texts(out@) + surplus(actual@, expected@, i as int) == all,
        decreases actual@.len() - i,
    {
        if source::get(expected, actual[i].path.as_str()).is_none() {
            let ghost so_far = text::texts(out@);
            let ghost rest = surplus(actual@, expected@, i + 1);
            out.push(actual[i].path.clone());
            proof {
                let one = actual@[i as int].path@;
                assert(text::texts(out@) =~= so_far.push(one));
                assert(so_far.push(one) + rest =~= so_far + (seq![one] + rest));
            }
        }
        i += 1;
    }
    assert(text::texts(out@) + surplus(actual@, expected@, i as int) =~= text::texts(out@));
    out
}

fn list_lacking(actual: &Vec<FileEntry>, expected: &Vec<FileEntry>) -> (r: Vec<String>)
    ensures
        text::texts(r@) == lacking(actual@, expected@, 0),
{
    let ghost all = lacking(actual@, expected@, 0);
    let mut out: Vec<String> = Vec::new();
    assert(text::texts(out@) + all =~= all);
    let mut i: usize = 0;
    while i < expected.len()
        invariant
            i <= expected@.len(),
            text::texts(out@) + lacking(actual@, expected@, i as int) == all,
        decreases expected@.len() - i,
    {
        if !source::agree_at(actual, expected, expected[i].path.as_str()) {
            let ghost so_far = text::texts(out@);
            let ghost rest = lacking(actual@, expected@, i + 1);
            out.push(expected[i].path.clone());
            proof {
                let one = expected@[i as int].path@;
                assert(text::texts(out@) =~= so_far.push(one));
                assert(so_far.push(one) + rest =~= so_far + (seq![one] + rest));
            }
        }
        i += 1;
    }
    assert(text::texts(out@) + lacking(actual@, expected@, i as int) =~= text::texts(out@));
    out
}

pub const IGNORED_UNKNOWN: &'static str =
    "UNKNOWN: isolated execution cannot reproduce ignored-file metadata safely";

pub const OTHER_BASELINE: &'static str =
    "SOURCE_INCOMPATIBLE: isolated worktree Git baseline differs";

pub const NOT_REPRODUCED: &'static str =
    "SOURCE_INCOMPATIBLE: isolated worktree could not reproduce issued baseline";

/// Why a checkout cannot be made to hold a baseline, if it cannot.
pub open spec fn materialize_refusal(expected: SourceSnapshot, actual: SourceSnapshot) -> Option<
    Seq<char>,
> {
    if expected.ignored@.len() > 0 {
        Some(IGNORED_UNKNOWN@)
    } else if !(text::same_option(actual.head, expected.head) && text::same_option(
        actual.exclude_hash,
        expected.exclude_hash,
    )) {
        Some(OTHER_BASELINE@)
    } else {
        None
    }
}

/// Decides what has to be done to a checkout so that it holds a baseline.
pub fn materialize(expected: &SourceSnapshot, actual: &SourceSnapshot) -> (r: Result<Changes, Error>)
    ensures
        crate::error::settles(r, materialize_refusal(*expected, *actual)),
        r matches Ok(c) ==> text::texts(c.remove@) == surplus(actual.files@, expected.files@, 0)
            && text::texts(c.write@) == lacking(actual.files@, expected.files@, 0),
{
    if expected.ignored.len() > 0 {
        return invalid(IGNORED_UNKNOWN);
    }
    if !(text::same_optional(&actual.head, &expected.head) && text::same_optional(
        &actual.exclude_hash,
        &expected.exclude_hash,
    )) {
        return invalid(OTHER_BASELINE);
    }
    Ok(
        Changes {
            remove: list_surplus(&actual.files, &expected.files),
            write: list_lacking(&actual.files, &expected.files),
        },
    )
}

/// Checks that a checkout holds a baseline, whatever its own index is.
pub fn check_materialized(observed: SourceSnapshot, expected: &SourceSnapshot) -> (r: Result<
    (),
    Error,
>)
    ensures
        crate::error::settles(
            r,
            if source::same_snapshot(
                (SourceSnapshot { index_hash: expected.index_hash, ..observed }),
                *expected,
            ) {
                None
            } else {
                Some(NOT_REPRODUCED@)
            },
        ),
{
    let mut normalized: SourceSnapshot = observed;
    normalized.index_hash = expected.index_hash.clone();
    if normalized.same(expected) {
        Ok(())
    } else {
        invalid(NOT_REPRODUCED)
    }
}

/// The head that a branch starts from; concurrent execution needs a commit.
pub fn committed_head(baseline: &SourceSnapshot) -> (r: Result<String, Error>)
    ensures
        crate::error::settles(
            r,
            if baseline.head is Some {
                None
            } else {
                Some("concurrent execution requires a committed baseline"@)
            },
        ),
        r matches Ok(head) ==> baseline.head == Some(head),
{
    match &baseline.head {
        Some(head) => Ok(head.clone()),
        None => invalid("concurrent execution requires a committed baseline"),
    }
}

proof fn lemma_surplus(actual: Seq<FileEntry>, expected: Seq<FileEntry>, i: int, k: int)
    requires
        0 <= i <= k < actual.len(),
        source::at(expected, actual[k].path@, 0) is None,
    ensures
        surplus(actual, expected, i).contains(actual[k].path@),
    decreases k - i,
{
    let here = surplus(actual, expected, i);
    if i == k {
        assert(here[0] == actual[k].path@);
    } else {
        lemma_surplus(actual, expected, i + 1, k);
        let rest = surplus(actual, expected, i + 1);
        let m = choose|m: int| 0 <= m < rest.len() && rest[m] == actual[k].path@;
        if here.len() == rest.len() {
            assert(here[m] == actual[k].path@);
        } else {
            assert(here[m + 1] == rest[m]);
        }
    }
}

proof fn lemma_lacking(actual: Seq<FileEntry>, expected: Seq<FileEntry>, i: int, k: int)
    requires
        0 <= i <= k < expected.len(),
        source::at(actual, expected[k].path@, 0) != source::at(expected, expected[k].path@, 0),
    ensures
        lacking(actual, expected, i).contains(expected[k].path@),
    decreases k - i,
{
    let here = lacking(actual, expected, i);
    if i == k {
        assert(here[0] == expected[k].path@);
    } else {
        lemma_lacking(actual, expected, i + 1, k);
        let rest = lacking(actual, expected, i + 1);
        let m = choose|m: int| 0 <= m < rest.len() && rest[m] == expected[k].path@;
        if here.len() == rest.len() {
            assert(here[m] == expected[k].path@);
        } else {
            assert(here[m + 1] == rest[m]);
        }
    }
}

/// A checkout in which exactly the surplus paths were removed and exactly the
/// lacking ones written holds the files of the baseline.
pub proof fn law_materializing_reaches_the_baseline(
    actual: Seq<FileEntry>,
    expected: Seq<FileEntry>,
    after: spec_fn(Seq<char>) -> Option<StateView>,
    path: Seq<char>,
)
    requires
        forall|p: Seq<char>|
            surplus(actual, expected, 0).contains(p) ==> (#[trigger] after(p)) is None,
        forall|p: Seq<char>|
            !surplus(actual, expected, 0).contains(p) && lacking(actual, expected, 0).contains(p)
                ==> #[trigger] after(p) == source::at(expected, p, 0),
        forall|p: Seq<char>|
            !surplus(actual, expected, 0).contains(p) && !lacking(actual, expected, 0).contains(p)
                ==> #[trigger] after(p) == source::at(actual, p, 0),
    ensures
        after(path) == source::at(expected, path, 0),
{
    let (s, l) = (surplus(actual, expected, 0), lacking(actual, expected, 0));
    let _ = after(path);
    if s.contains(path) {
        lemma_surplus_absent(actual, expected, 0, path);
    } else if !l.contains(path) {
        if source::at(expected, path, 0) is Some {
            source::lemma_at_listed(expected, path, 0);
            let k = choose|k: int| 0 <= k < expected.len() && (#[trigger] expected[k]).path@ == path;
            if source::at(actual, path, 0) != source::at(expected, path, 0) {
                lemma_lacking(actual, expected, 0, k);
            }
        } else if source::at(actual, path, 0) is Some {
            source::lemma_at_listed(actual, path, 0);
            let k = choose|k: int| 0 <= k < actual.len() && (#[trigger] actual[k]).path@ == path;
            lemma_surplus(actual, expected, 0, k);
        }
    }
}

proof fn lemma_surplus_absent(actual: Seq<FileEntry>, expected: Seq<FileEntry>, i: int, path: Seq<char>)
    requires
        0 <= i,
        surplus(actual, expected, i).contains(path),
    ensures
        source::at(expected, path, 0) is None,
    decreases actual.len() - i,
{
    let here = surplus(actual, expected, i);
    let m = choose|m: int| 0 <= m < here.len() && here[m] == path;
    if source::at(expected, actual[i].path@, 0) is None {
        if m > 0 {
            let rest = surplus(actual, expected, i + 1);
            assert(rest[m - 1] == path);
            lemma_surplus_absent(actual, expected, i + 1, path);
        }
    } else {
        lemma_surplus_absent(actual, expected, i + 1, path);
    }
}

} // verus!
