//! Git configuration listings: the remotes they name, and the overrides that
//! keep Git from running programs that a repository or a user configured.
use crate::error::{invalid, Error};
use crate::repository::Remote;
use crate::runtime::credentials;
use crate::runtime::credentials::lossy_text;
use crate::text;
use vstd::prelude::*;
use vstd::string::*;

verus! {

/// Filter/driver keys whose values name programs Git would execute.
pub const DRIVER_KEYS: &'static str =
    "^(filter|diff|merge)\\..+\\.(clean|smudge|process|required|textconv|command|driver)$";

/// Largest single listing record accepted (one repository-relative path).
pub const LISTING_RECORD_BYTES: u64 = 65536;

pub const MALFORMED_METADATA: &'static str = "malformed Git remote metadata";

pub const MALFORMED_NAME: &'static str = "malformed Git remote name";

pub const BAD_RECORD: &'static str = "Git source listing record is unterminated or oversized";

// ---------------------------------------------------------------------------
// Remotes
// ---------------------------------------------------------------------------

/// What one record of a remote listing says: a key and a URL on two lines, the
/// key being `remote.<name>.url`.
pub enum RemoteRecord {
    Url(Seq<char>, Seq<char>),
    BadRecord,
    BadName,
}

/// Whether a key names the URL of a remote.
pub open spec fn is_remote_key(key: Seq<char>) -> bool {
    &&& text::begins(key, "remote."@)
    &&& key.len() >= "remote."@.len() + ".url"@.len()
    &&& key.skip(key.len() - ".url"@.len()) == ".url"@
}

/// The remote that a key names.
pub open spec fn remote_name(key: Seq<char>) -> Seq<char> {
    key.subrange("remote."@.len() as int, key.len() - ".url"@.len())
}

/// Reads one record.
pub open spec fn remote_record(record: Seq<char>) -> RemoteRecord {
    let lines = text::pieces(record, '\n');
    if lines.len() < 2 {
        RemoteRecord::BadRecord
    } else if !is_remote_key(lines[0]) {
        RemoteRecord::BadName
    } else {
        RemoteRecord::Url(remote_name(lines[0]), text::joined(lines.drop_first(), '\n'))
    }
}

/// Why a listing cannot be read, from its `i`-th record on.
pub open spec fn remotes_refusal(records: Seq<Seq<char>>, i: int) -> Option<Seq<char>>
    decreases records.len() - i,
{
    if i < 0 || i >= records.len() {
        None
    } else if records[i].len() == 0 {
        remotes_refusal(records, i + 1)
    } else {
        match remote_record(records[i]) {
            RemoteRecord::Url(_, _) => remotes_refusal(records, i + 1),
            RemoteRecord::BadRecord => Some(MALFORMED_METADATA@),
            RemoteRecord::BadName => Some(MALFORMED_NAME@),
        }
    }
}

/// The URLs that the first `upto` records give a remote, in order.
pub open spec fn urls_of(records: Seq<Seq<char>>, name: Seq<char>, upto: int) -> Seq<Seq<char>>
    decreases upto,
{
    if upto <= 0 || upto > records.len() {
        Seq::empty()
    } else {
        let so_far = urls_of(records, name, upto - 1);
        let record = records[upto - 1];
        match remote_record(record) {
            RemoteRecord::Url(n, url) => if record.len() > 0 && n == name {
                so_far.push(url)
            } else {
                so_far
            },
            _ => so_far,
        }
    }
}

/// The names of remotes.
pub open spec fn names(remotes: Seq<Remote>) -> Seq<Seq<char>> {
    Seq::new(remotes.len(), |i: int| remotes[i].name@)
}

/// Whether a table of remotes holds what the first `upto` records say: one
/// entry per name that occurs, in order, with its URLs.
pub open spec fn tabulates(remotes: Seq<Remote>, records: Seq<Seq<char>>, upto: int) -> bool {
    &&& text::ascending(names(remotes))
    &&& forall|i: int|
        0 <= i < remotes.len() ==> text::texts((#[trigger] remotes[i]).urls@) == urls_of(
            records,
            remotes[i].name@,
            upto,
        ) && urls_of(records, remotes[i].name@, upto).len() > 0
    &&& forall|n: Seq<char>|
        (#[trigger] urls_of(records, n, upto)).len() > 0 ==> names(remotes).contains(n)
}

/// Adds a URL to the table.
fn add_url(remotes: &mut Vec<Remote>, name: &str, url: &str, Ghost(records): Ghost<Seq<Seq<char>>>, Ghost(upto): Ghost<int>)
    requires
        tabulates(old(remotes)@, records, upto - 1),
        0 < upto <= records.len(),
        records[upto - 1].len() > 0,
        remote_record(records[upto - 1]) == RemoteRecord::Url(name@, url@),
    ensures
        tabulates(final(remotes)@, records, upto),
{
    let ghost before = remotes@;
    let ghost all = names(before);
    let mut i: usize = 0;
    while i < remotes.len() && text::less(remotes[i].name.as_str(), name)
        invariant
            remotes@ == before,
            all == names(before),
            i <= remotes@.len(),
            forall|j: int| 0 <= j < i ==> text::before(#[trigger] all[j], name@),
        decreases remotes@.len() - i,
    {
        assert(all[i as int] == remotes@[i as int].name@);
        i += 1;
    }
    if i < remotes.len() && text::same(remotes[i].name.as_str(), name) {
        let mut entry: Remote = remotes.remove(i);
        assert(entry == before[i as int]);
        let ghost had = entry.urls@;
        entry.urls.push(url.to_owned());
        remotes.insert(i, entry);
        proof {
            let after = remotes@;
            assert(after =~= before.update(i as int, entry));
            assert(names(after) =~= all);
            assert(text::texts(entry.urls@) =~= text::texts(had).push(url@));
            assert forall|k: int| 0 <= k < after.len() implies text::texts((#[trigger] after[k]).urls@)
                == urls_of(records, after[k].name@, upto) && urls_of(records, after[k].name@, upto).len() > 0 by {
                assert(text::texts(before[k].urls@) == urls_of(records, before[k].name@, upto - 1));
                if k != i {
                    if k < i {
                        assert(text::before(all[k], all[i as int]));
                    } else {
                        assert(text::before(all[i as int], all[k]));
                    }
                    text::lemma_before_total(all[k], all[i as int]);
                }
            }
            assert forall|n: Seq<char>| (#[trigger] urls_of(records, n, upto)).len() > 0 implies names(
                after,
            ).contains(n) by {
                if n == name@ {
                    assert(names(after)[i as int] == n);
                } else {
                    assert(urls_of(records, n, upto - 1).len() > 0);
                }
            }
        }
    } else {
        let mut urls: Vec<String> = Vec::new();
        urls.push(url.to_owned());
        let entry = Remote { name: name.to_owned(), urls };
        remotes.insert(i, entry);
        proof {
            let after = remotes@;
            assert(after =~= before.insert(i as int, entry));
            assert(names(after) =~= all.insert(i as int, name@));
            assert(!all.contains(name@)) by {
                if all.contains(name@) {
                    let j = choose|j: int| 0 <= j < all.len() && all[j] == name@;
                    text::lemma_before_total(name@, name@);
                    if j > i {
                        assert(text::before(all[i as int], all[j]));
                    }
                    if i < all.len() {
                        text::lemma_before_total(all[i as int], name@);
                    }
                }
            }
            assert(urls_of(records, name@, upto - 1).len() == 0);
            assert(urls_of(records, name@, upto) =~= seq![url@]);
            assert(text::texts(entry.urls@) =~= seq![url@]);
            if i < all.len() {
                text::lemma_before_total(all[i as int], name@);
            }
            assert forall|x: int, y: int| 0 <= x < y < names(after).len() implies text::before(
                #[trigger] names(after)[x],
                #[trigger] names(after)[y],
            ) by {
                if y < i {
                    assert(text::before(all[x], all[y]));
                } else if y == i {
                    assert(text::before(all[x], name@));
                } else if x == i {
                    if y - 1 > i {
                        assert(text::before(all[i as int], all[y - 1]));
                        text::lemma_before_transitive(name@, all[i as int], all[y - 1]);
                    }
                } else if x < i {
                    assert(text::before(all[x], all[y - 1]));
                } else {
                    assert(text::before(all[x - 1], all[y - 1]));
                }
            }
            assert forall|k: int| 0 <= k < after.len() implies text::texts((#[trigger] after[k]).urls@)
                == urls_of(records, after[k].name@, upto) && urls_of(records, after[k].name@, upto).len() > 0 by {
                if k != i {
                    let o = if k < i { k } else { k - 1 };
                    assert(after[k] == before[o]);
                    assert(all[o] == before[o].name@);
                    assert(all.contains(before[o].name@));
                    assert(text::texts(before[o].urls@) == urls_of(records, before[o].name@, upto - 1));
                }
            }
            assert forall|n: Seq<char>| (#[trigger] urls_of(records, n, upto)).len() > 0 implies names(
                after,
            ).contains(n) by {
                if n == name@ {
                    assert(names(after)[i as int] == n);
                } else {
                    assert(urls_of(records, n, upto - 1).len() > 0);
                    let j = choose|j: int| 0 <= j < all.len() && all[j] == n;
                    if j < i {
                        assert(names(after)[j] == n);
                    } else {
                        assert(names(after)[j + 1] == n);
                    }
                }
            }
        }
    }
}

/// The text of pieces with `sep` between them.
fn rejoin(parts: &Vec<&str>, from: usize, to: usize, sep: &str, Ghost(c): Ghost<char>) -> (r: String)
    requires
        from <= to <= parts@.len(),
        sep@ == seq![c],
    ensures
        r@ == text::joined(text::strs(parts@).subrange(from as int, to as int), c),
    decreases to - from,
{
    let ghost range = text::strs(parts@).subrange(from as int, to as int);
    if from == to {
        String::new()
    } else if from + 1 == to {
        parts[from].to_owned()
    } else {
        let rest: String = rejoin(parts, from + 1, to, sep, Ghost(c));
        assert(range.drop_first() =~= text::strs(parts@).subrange(from + 1, to as int));
        let r: String = text::join3(parts[from], sep, rest.as_str());
        r
    }
}

/// Reads a listing of remote URLs: NUL-separated records of a key and a URL.
pub fn parse_remotes(listing: &str) -> (r: Result<Vec<Remote>, Error>)
    ensures
        crate::error::settles(r, remotes_refusal(text::pieces(listing@, '\0'), 0)),
        r matches Ok(remotes) ==> tabulates(
            remotes@,
            text::pieces(listing@, '\0'),
            text::pieces(listing@, '\0').len() as int,
        ),
{
    let records: Vec<&str> = text::split_ascii(listing, 0u8);
    let ghost all = text::pieces(listing@, '\0');
    assert(0u8 as char == '\0');
    let mut remotes: Vec<Remote> = Vec::new();
    proof {
        assert(names(remotes@) =~= Seq::empty());
        reveal_strlit("\n");
        assert("\n"@ =~= seq!['\n']);
    }
    let mut i: usize = 0;
    while i < records.len()
        invariant
            all == text::pieces(listing@, '\0'),
            text::strs(records@) == all,
            i <= records@.len(),
            remotes_refusal(all, 0) == remotes_refusal(all, i as int),
            tabulates(remotes@, all, i as int),
            "\n"@ == seq!['\n'],
        decreases records@.len() - i,
    {
        let record: &str = records[i];
        assert(record@ == all[i as int]);
        if !record.is_empty() {
            let lines: Vec<&str> = text::split_ascii(record, 10u8);
            assert(10u8 as char == '\n');
            assert(text::strs(lines@).len() == lines@.len());
            if lines.len() < 2 {
                return invalid(MALFORMED_METADATA);
            }
            let key: &str = lines[0];
            assert(key@ == text::pieces(record@, '\n')[0]);
            match remote_of(key) {
                None => {
                    return invalid(MALFORMED_NAME);
                },
                Some(name) => {
                    let n: usize = lines.len();
                    let url: String = rejoin(&lines, 1, n, "\n", Ghost('\n'));
                    assert(text::strs(lines@).subrange(1, n as int) =~= text::pieces(record@, '\n').drop_first());
                    add_url(&mut remotes, name, url.as_str(), Ghost(all), Ghost(i + 1));
                },
            }
        } else {
            proof {
                assert forall|k: int| 0 <= k < remotes@.len() implies text::texts(
                    (#[trigger] remotes@[k]).urls@,
                ) == urls_of(all, remotes@[k].name@, i + 1) && urls_of(all, remotes@[k].name@, i + 1).len() > 0 by {
                    assert(urls_of(all, remotes@[k].name@, i + 1) == urls_of(all, remotes@[k].name@, i as int));
                }
                assert forall|n: Seq<char>| (#[trigger] urls_of(all, n, i + 1)).len() > 0 implies names(
                    remotes@,
                ).contains(n) by {
                    assert(urls_of(all, n, i as int).len() > 0);
                }
            }
        }
        i += 1;
    }
    Ok(remotes)
}

/// The remote that a key names, if it is the key of a remote's URL.
fn remote_of(key: &str) -> (r: Option<&str>)
    ensures
        match r {
            Some(name) => is_remote_key(key@) && name@ == remote_name(key@),
            None => !is_remote_key(key@),
        },
{
    let n: usize = key.unicode_len();
    proof {
        reveal_strlit("remote.");
        reveal_strlit(".url");
    }
    if n < 11 || !text::starts_with(key, "remote.") {
        return None;
    }
    let tail: &str = key.substring_char(n - 4, n);
    assert(tail@ =~= key@.skip(n - 4));
    if text::same(tail, ".url") {
        Some(key.substring_char(7, n - 4))
    } else {
        None
    }
}

// ---------------------------------------------------------------------------
// Overrides
// ---------------------------------------------------------------------------

/// What a driver key configures.
pub enum Driver {
    Filter(Seq<char>),
    Diff(Seq<char>),
    Merge(Seq<char>),
    Other,
}

/// A text without the newlines at its end.
pub open spec fn without_newlines(s: Seq<char>) -> Seq<char>
    decreases s.len(),
{
    if s.len() > 0 && s.last() == '\n' {
        without_newlines(s.drop_last())
    } else {
        s
    }
}

/// What the key of a listing configures: `<section>.<name>.<variable>`, where
/// the name may itself hold dots.
pub open spec fn driver(key: Seq<char>) -> Driver {
    let parts = text::pieces(without_newlines(key), '.');
    if parts.len() < 3 {
        Driver::Other
    } else {
        let section = text::lowered(parts[0]);
        let name = text::joined(parts.subrange(1, parts.len() - 1), '.');
        if section == "filter"@ {
            Driver::Filter(name)
        } else if section == "diff"@ {
            Driver::Diff(name)
        } else if section == "merge"@ {
            Driver::Merge(name)
        } else {
            Driver::Other
        }
    }
}

/// The diff and merge drivers that the first `upto` keys configure, each set to
/// nothing.
pub open spec fn driver_lines(keys: Seq<Seq<char>>, upto: int) -> Seq<(Seq<char>, Seq<char>)>
    decreases upto,
{
    if upto <= 0 || upto > keys.len() {
        Seq::empty()
    } else {
        let so_far = driver_lines(keys, upto - 1);
        match driver(keys[upto - 1]) {
            Driver::Diff(name) => so_far + seq![
                ("diff."@ + name + ".textconv"@, Seq::<char>::empty()),
                ("diff."@ + name + ".command"@, Seq::<char>::empty()),
            ],
            Driver::Merge(name) => so_far + seq![
                ("merge."@ + name + ".driver"@, Seq::<char>::empty()),
            ],
            _ => so_far,
        }
    }
}

/// Whether one of the first `upto` keys configures a filter of this name.
pub open spec fn names_filter(keys: Seq<Seq<char>>, name: Seq<char>, upto: int) -> bool {
    exists|i: int| 0 <= i < upto && driver(#[trigger] keys[i]) == Driver::Filter(name)
}

/// The lines that neutralise the first `upto` of some filters.
pub open spec fn filter_lines(filters: Seq<Seq<char>>, upto: int) -> Seq<(Seq<char>, Seq<char>)>
    decreases upto,
{
    if upto <= 0 || upto > filters.len() {
        Seq::empty()
    } else {
        let name = filters[upto - 1];
        filter_lines(filters, upto - 1) + seq![
            ("filter."@ + name + ".clean"@, Seq::<char>::empty()),
            ("filter."@ + name + ".smudge"@, Seq::<char>::empty()),
            ("filter."@ + name + ".process"@, Seq::<char>::empty()),
            ("filter."@ + name + ".required"@, "false"@),
        ]
    }
}

/// The contents of configuration lines.
pub open spec fn line_views(lines: Seq<(String, String)>) -> Seq<(Seq<char>, Seq<char>)> {
    Seq::new(lines.len(), |i: int| (lines[i].0@, lines[i].1@))
}

/// Whether some lines override every driver that a listing names, and nothing
/// else: diff and merge drivers in listing order, then each filter once, by
/// name.
pub open spec fn neutralises(lines: Seq<(String, String)>, keys: Seq<Seq<char>>) -> bool {
    exists|filters: Seq<Seq<char>>|
        {
            &&& #[trigger] text::ascending(filters)
            &&& forall|n: Seq<char>| #[trigger]
                filters.contains(n) <==> names_filter(keys, n, keys.len() as int)
            &&& line_views(lines) == driver_lines(keys, keys.len() as int) + filter_lines(
                filters,
                filters.len() as int,
            )
        }
}

fn trim_newlines(s: &str) -> (r: &str)
    ensures
        r@ == without_newlines(s@),
    decreases s@.len(),
{
    let n: usize = s.unicode_len();
    if n > 0 && s.get_char(n - 1) == '\n' {
        let shorter: &str = s.substring_char(0, n - 1);
        assert(shorter@ =~= s@.drop_last());
        trim_newlines(shorter)
    } else {
        s
    }
}

fn push_line(lines: &mut Vec<(String, String)>, section: &str, name: &str, variable: &str, value: &str)
    ensures
        line_views(final(lines)@) == line_views(old(lines)@).push(
            (section@ + name@ + variable@, value@),
        ),
{
    let key: String = text::join3(section, name, variable);
    lines.push((key, value.to_owned()));
    assert(line_views(lines@) =~= line_views(old(lines)@).push(
        (section@ + name@ + variable@, value@),
    ));
}

/// The configuration lines that set every driver named by a key listing (NUL
/// separated) to a no-op.
pub fn driver_overrides(listing: &str) -> (r: Vec<(String, String)>)
    ensures
        neutralises(r@, text::pieces(listing@, '\0')),
{
    let keys: Vec<&str> = text::split_ascii(listing, 0u8);
    let ghost all = text::pieces(listing@, '\0');
    assert(0u8 as char == '\0');
    proof {
        reveal_strlit(".");
        assert("."@ =~= seq!['.']);
        reveal_strlit("");
        assert(""@ =~= Seq::<char>::empty());
    }
    let mut filters: Vec<String> = Vec::new();
    let mut lines: Vec<(String, String)> = Vec::new();
    let mut i: usize = 0;
    proof {
        assert(line_views(lines@) =~= driver_lines(all, 0));
        assert(text::texts(filters@) =~= Seq::empty());
    }
    while i < keys.len()
        invariant
            "."@ == seq!['.'],
            ""@ == Seq::<char>::empty(),
            text::strs(keys@) == all,
            i <= keys@.len(),
            text::ascending(text::texts(filters@)),
            forall|n: Seq<char>| #[trigger]
                text::texts(filters@).contains(n) <==> names_filter(all, n, i as int),
            line_views(lines@) == driver_lines(all, i as int),
        decreases keys@.len() - i,
    {
        let key: &str = trim_newlines(keys[i]);
        assert(keys@[i as int]@ == all[i as int]);
        let parts: Vec<&str> = text::split_ascii(key, 46u8);
        assert(46u8 as char == '.');
        assert(text::strs(parts@).len() == parts@.len());
        let ghost before = text::texts(filters@);
        let ghost so_far = driver_lines(all, i as int);
        let mut is_filter: bool = false;
        let ghost mut filter_name = Seq::<char>::empty();
        if parts.len() >= 3 {
            let section: &str = parts[0];
            let name: String = rejoin(&parts, 1, parts.len() - 1, ".", Ghost('.'));
            if text::same_small(section, "filter") {
                is_filter = true;
                proof {
                    filter_name = name@;
                    assert(driver(all[i as int]) == Driver::Filter(name@));
                }
                text::set_insert(&mut filters, name.as_str());
            } else if text::same_small(section, "diff") {
                assert(driver(all[i as int]) == Driver::Diff(name@));
                push_line(&mut lines, "diff.", name.as_str(), ".textconv", "");
                push_line(&mut lines, "diff.", name.as_str(), ".command", "");
                assert(line_views(lines@) =~= driver_lines(all, i + 1));
            } else if text::same_small(section, "merge") {
                assert(driver(all[i as int]) == Driver::Merge(name@));
                push_line(&mut lines, "merge.", name.as_str(), ".driver", "");
                assert(line_views(lines@) =~= driver_lines(all, i + 1));
            }
        }
        proof {
            assert forall|n: Seq<char>| #[trigger] text::texts(filters@).contains(n) <==> names_filter(
                all,
                n,
                i + 1,
            ) by {
                assert(before.contains(n) <==> names_filter(all, n, i as int));
                if names_filter(all, n, i as int) {
                    let j = choose|j: int| 0 <= j < i && driver(#[trigger] all[j]) == Driver::Filter(n);
                    assert(driver(all[j]) == Driver::Filter(n));
                }
                if is_filter && n == filter_name {
                    assert(driver(all[i as int]) == Driver::Filter(n));
                }
                if names_filter(all, n, i + 1) && !names_filter(all, n, i as int) {
                    let j = choose|j: int| 0 <= j < i + 1 && driver(#[trigger] all[j]) == Driver::Filter(n);
                    assert(j == i);
                }
            }
            assert(driver_lines(all, i + 1) == line_views(lines@));
        }
        i += 1;
    }
    let ghost direct = line_views(lines@);
    let ghost sorted = text::texts(filters@);
    let mut f: usize = 0;
    assert(direct + filter_lines(sorted, 0) =~= direct);
    while f < filters.len()
        invariant
            ""@ == Seq::<char>::empty(),
            sorted == text::texts(filters@),
            f <= filters@.len(),
            line_views(lines@) == direct + filter_lines(sorted, f as int),
        decreases filters@.len() - f,
    {
        let name: &str = filters[f].as_str();
        assert(name@ == sorted[f as int]);
        push_line(&mut lines, "filter.", name, ".clean", "");
        push_line(&mut lines, "filter.", name, ".smudge", "");
        push_line(&mut lines, "filter.", name, ".process", "");
        push_line(&mut lines, "filter.", name, ".required", "false");
        assert(line_views(lines@) =~= direct + filter_lines(sorted, f + 1));
        f += 1;
    }
    assert(text::ascending(sorted));
    lines
}

/// Whether a listing record is complete: the bytes read for it, up to and
/// including its terminator, end with that terminator.
pub fn record_complete(record: &Vec<u8>) -> (r: Result<(), Error>)
    ensures
        crate::error::settles(
            r,
            if record@.len() > 0 && record@.last() == 0 {
                None
            } else {
                Some(BAD_RECORD@)
            },
        ),
{
    let n: usize = record.len();
    if n > 0 && record[n - 1] == 0 {
        Ok(())
    } else {
        invalid(BAD_RECORD)
    }
}

// ---------------------------------------------------------------------------
// Invocation
// ---------------------------------------------------------------------------

/// Whether a variable of the environment would reach Git: its name, in capitals,
/// starts with `GIT_`.
pub open spec fn is_git_variable(name: Seq<char>) -> bool {
    name.len() >= 4 && text::lowered(name.take(4)) == "git_"@
}

/// Whether a variable of the environment is kept from Git.
pub fn git_variable(name: &str) -> (r: bool)
    ensures
        r == is_git_variable(name@),
{
    if name.unicode_len() < 4 {
        return false;
    }
    let head: &str = name.substring_char(0, 4);
    assert(head@ =~= name@.take(4));
    text::same_small(head, "git_")
}

/// The configuration that every invocation of Git has: no monitor, no hooks and no
/// attributes of the user, and after that the overrides.
pub open spec fn fixed_lines(null_device: Seq<char>) -> Seq<(Seq<char>, Seq<char>)> {
    seq![
        ("core.fsmonitor"@, "false"@),
        ("core.hooksPath"@, null_device),
        ("core.attributesFile"@, null_device),
    ]
}

/// The variables that hand some configuration lines to Git, the first `n` of them.
pub open spec fn line_variables(lines: Seq<(Seq<char>, Seq<char>)>, n: int) -> Seq<(Seq<char>, Seq<char>)>
    decreases n,
{
    if n <= 0 {
        seq![("GIT_CONFIG_COUNT"@, text::digits(lines.len()))]
    } else {
        let i = text::digits((n - 1) as nat);
        line_variables(lines, n - 1).push(("GIT_CONFIG_KEY_"@ + i, lines[n - 1].0)).push(
            ("GIT_CONFIG_VALUE_"@ + i, lines[n - 1].1),
        )
    }
}

/// The variables that Git is started with.
pub open spec fn git_environment(lines: Seq<(Seq<char>, Seq<char>)>) -> Seq<(Seq<char>, Seq<char>)> {
    line_variables(lines, lines.len() as int) + seq![
        ("GIT_TERMINAL_PROMPT"@, "0"@),
        ("GIT_ATTR_NOSYSTEM"@, "1"@),
    ]
}

fn push_pair(lines: &mut Vec<(String, String)>, key: &str, value: &str)
    ensures
        line_views(final(lines)@) == line_views(old(lines)@).push((key@, value@)),
{
    let ghost before = line_views(lines@);
    lines.push((key.to_owned(), value.to_owned()));
    assert(line_views(lines@) =~= before.push((key@, value@)));
}

/// The configuration that Git is started with.
pub fn configuration(overrides: &Vec<(String, String)>, null_device: &str) -> (r: Vec<
    (String, String),
>)
    ensures
        line_views(r@) == fixed_lines(null_device@) + line_views(overrides@),
{
    let mut out: Vec<(String, String)> = Vec::new();
    assert(line_views(out@) =~= Seq::<(Seq<char>, Seq<char>)>::empty());
    push_pair(&mut out, "core.fsmonitor", "false");
    push_pair(&mut out, "core.hooksPath", null_device);
    push_pair(&mut out, "core.attributesFile", null_device);
    let ghost fixed = fixed_lines(null_device@);
    assert(line_views(out@) =~= fixed);
    let mut i: usize = 0;
    assert(line_views(out@) =~= fixed + line_views(overrides@).take(0));
    while i < overrides.len()
        invariant
            i <= overrides@.len(),
            line_views(out@) == fixed + line_views(overrides@).take(i as int),
        decreases overrides@.len() - i,
    {
        push_pair(&mut out, overrides[i].0.as_str(), overrides[i].1.as_str());
        i += 1;
        assert(line_views(out@) =~= fixed + line_views(overrides@).take(i as int));
    }
    assert(line_views(overrides@).take(i as int) =~= line_views(overrides@));
    out
}

/// The variables that Git is started with. Configuration travels in variables, so
/// that no name in it can be misread.
pub fn environment(lines: &Vec<(String, String)>) -> (r: Vec<(String, String)>)
    ensures
        line_views(r@) == git_environment(line_views(lines@)),
{
    let ghost all = line_views(lines@);
    let mut out: Vec<(String, String)> = Vec::new();
    assert(line_views(out@) =~= Seq::<(Seq<char>, Seq<char>)>::empty());
    let count: String = text::decimal(lines.len() as u64);
    push_pair(&mut out, "GIT_CONFIG_COUNT", count.as_str());
    assert(line_views(out@) =~= line_variables(all, 0));
    let mut i: usize = 0;
    while i < lines.len()
        invariant
            i <= lines@.len(),
            all == line_views(lines@),
            line_views(out@) == line_variables(all, i as int),
        decreases lines@.len() - i,
    {
        assert(all[i as int] == (lines@[i as int].0@, lines@[i as int].1@));
        let number: String = text::decimal(i as u64);
        let key: String = text::join2("GIT_CONFIG_KEY_", number.as_str());
        let value: String = text::join2("GIT_CONFIG_VALUE_", number.as_str());
        push_pair(&mut out, key.as_str(), lines[i].0.as_str());
        push_pair(&mut out, value.as_str(), lines[i].1.as_str());
        i += 1;
    }
    push_pair(&mut out, "GIT_TERMINAL_PROMPT", "0");
    push_pair(&mut out, "GIT_ATTR_NOSYSTEM", "1");
    assert(line_views(out@) =~= git_environment(all));
    out
}

// ---------------------------------------------------------------------------
// Failures
// ---------------------------------------------------------------------------

/// What is said of a failed query in a directory, given what Git wrote.
pub open spec fn failure(root: Seq<char>, errors: Seq<char>) -> Seq<char> {
    "Git discovery in "@ + root + " failed: "@ + text::trimmed(errors)
}

/// What is said of a failed query in a directory.
pub fn failure_text(root: &str, errors: &str) -> (r: String)
    ensures
        r@ == failure(root@, errors@),
{
    let said: String = text::join3("Git discovery in ", root, " failed: ");
    text::join2(said.as_str(), text::trim(errors))
}

/// What is said of a failed query in a directory, given the bytes that Git wrote.
pub fn git_failure(root: &str, errors: &[u8]) -> (r: String)
    ensures
        r@ == failure(root@, credentials::lossy(errors@)),
{
    let shown: String = lossy_text(errors);
    failure_text(root, shown.as_str())
}

/// Refuses a query that failed. Where nothing was found Git exits with one, which
/// is no failure where that is expected.
pub fn check_query(
    code: &Option<i32>,
    may_find_nothing: bool,
    root: &str,
    errors: &[u8],
) -> (r: Result<(), Error>)
    ensures
        crate::error::settles(
            r,
            if *code == Some(0i32) || (may_find_nothing && *code == Some(1i32)) {
                None
            } else {
                Some(failure(root@, credentials::lossy(errors@)))
            },
        ),
{
    match code {
        Some(n) => {
            if *n == 0 || (may_find_nothing && *n == 1) {
                return Ok(());
            }
        },
        None => {},
    }
    let said: String = git_failure(root, errors);
    invalid(said.as_str())
}

/// Refuses a listing that was read to its end although Git failed.
pub fn check_listing(success: bool, root: &str, errors: &str) -> (r: Result<(), Error>)
    ensures
        crate::error::settles(
            r,
            if !success {
                Some("Git source listing in "@ + root@ + " failed: "@ + text::trimmed(errors@))
            } else {
                None
            },
        ),
{
    if !success {
        let said: String = text::join3("Git source listing in ", root, " failed: ");
        let said: String = text::join2(said.as_str(), text::trim(errors));
        return invalid(said.as_str());
    }
    Ok(())
}

pub const PRIVILEGED: &'static str =
    "refusing to run agentctl Git operations as root on a repository owned by another user";

/// Refuses to drive Git as root in a repository of somebody else.
pub fn refuse_privileged(effective_user: u32, owner: u32) -> (r: Result<(), Error>)
    ensures
        crate::error::settles(
            r,
            if effective_user == 0 && owner != 0 {
                Some(PRIVILEGED@)
            } else {
                None
            },
        ),
{
    if effective_user == 0 && owner != 0 {
        return invalid(PRIVILEGED);
    }
    Ok(())
}

// ---------------------------------------------------------------------------
// Heads
// ---------------------------------------------------------------------------

/// What Git answered about the head of a repository: whether it is a commit, and
/// where it is none, whether it is symbolic and how the lookup of its branch
/// exited.
#[derive(Debug, PartialEq, Eq)]
pub struct HeadAnswers {
    pub resolved: bool,
    pub commit: String,
    pub symbolic: bool,
    pub lookup: Option<i32>,
}

/// Whether a repository has no commit yet: its head names a branch that does not
/// exist.
pub open spec fn unborn(a: HeadAnswers) -> bool {
    !a.resolved && a.symbolic && a.lookup == Some(1i32)
}

/// The commit that a repository stands at, if it has one. Any other answer than a
/// commit or a branch without one is a failure.
pub fn head_commit(answers: &HeadAnswers, failure: &str) -> (r: Result<Option<String>, Error>)
    ensures
        crate::error::settles(
            r,
            if answers.resolved || unborn(*answers) {
                None
            } else {
                Some(failure@)
            },
        ),
        r matches Ok(c) ==> match c {
            Some(text) => answers.resolved && text@ == without_newlines(answers.commit@),
            None => unborn(*answers),
        },
{
    if answers.resolved {
        return Ok(Some(trim_newlines(answers.commit.as_str()).to_owned()));
    }
    if !answers.symbolic {
        return invalid(failure);
    }
    match answers.lookup {
        Some(n) => {
            if n == 1 {
                return Ok(None);
            }
        },
        None => {},
    }
    invalid(failure)
}

/// A path that Git wrote on a line of its own.
pub fn path_line(output: &str) -> (r: &str)
    ensures
        r@ == if output@.len() > 0 && output@.last() == '\n' {
            output@.drop_last()
        } else {
            output@
        },
{
    let n: usize = output.unicode_len();
    if n > 0 && output.get_char(n - 1) == '\n' {
        let line: &str = output.substring_char(0, n - 1);
        assert(line@ =~= output@.drop_last());
        line
    } else {
        output
    }
}

// ---------------------------------------------------------------------------
// Laws
// ---------------------------------------------------------------------------

/// Whether some lines take away every program that a driver may name.
pub open spec fn disarms(lines: Seq<(Seq<char>, Seq<char>)>, d: Driver) -> bool {
    match d {
        Driver::Filter(name) => {
            &&& lines.contains(("filter."@ + name + ".clean"@, Seq::<char>::empty()))
            &&& lines.contains(("filter."@ + name + ".smudge"@, Seq::<char>::empty()))
            &&& lines.contains(("filter."@ + name + ".process"@, Seq::<char>::empty()))
            &&& lines.contains(("filter."@ + name + ".required"@, "false"@))
        },
        Driver::Diff(name) => {
            &&& lines.contains(("diff."@ + name + ".textconv"@, Seq::<char>::empty()))
            &&& lines.contains(("diff."@ + name + ".command"@, Seq::<char>::empty()))
        },
        Driver::Merge(name) => lines.contains(
            ("merge."@ + name + ".driver"@, Seq::<char>::empty()),
        ),
        Driver::Other => true,
    }
}

proof fn lemma_contains_more(
    lines: Seq<(Seq<char>, Seq<char>)>,
    before: Seq<(Seq<char>, Seq<char>)>,
    after: Seq<(Seq<char>, Seq<char>)>,
    d: Driver,
)
    requires
        disarms(lines, d),
    ensures
        disarms(before + lines + after, d),
{
    let all = before + lines + after;
    assert forall|line: (Seq<char>, Seq<char>)| lines.contains(line) implies #[trigger] all.contains(
        line,
    ) by {
        let k = choose|k: int| 0 <= k < lines.len() && lines[k] == line;
        assert(all[before.len() + k] == line);
    }
}

proof fn lemma_driver_lines(keys: Seq<Seq<char>>, upto: int, i: int)
    requires
        0 <= i < upto <= keys.len(),
        !(driver(keys[i]) is Filter),
    ensures
        disarms(driver_lines(keys, upto), driver(keys[i])),
    decreases upto,
{
    let so_far = driver_lines(keys, upto - 1);
    let all = driver_lines(keys, upto);
    let added = all.skip(so_far.len() as int);
    assert(all =~= so_far + added);
    if i < upto - 1 {
        lemma_driver_lines(keys, upto - 1, i);
        lemma_contains_more(so_far, Seq::empty(), added, driver(keys[i]));
        assert(all =~= Seq::<(Seq<char>, Seq<char>)>::empty() + so_far + added);
    } else {
        match driver(keys[i]) {
            Driver::Diff(name) => {
                assert(added[0] == ("diff."@ + name + ".textconv"@, Seq::<char>::empty()));
                assert(added[1] == ("diff."@ + name + ".command"@, Seq::<char>::empty()));
            },
            Driver::Merge(name) => {
                assert(added[0] == ("merge."@ + name + ".driver"@, Seq::<char>::empty()));
            },
            _ => {},
        }
        lemma_contains_more(added, so_far, Seq::empty(), driver(keys[i]));
        assert(all =~= so_far + added + Seq::<(Seq<char>, Seq<char>)>::empty());
    }
}

proof fn lemma_filter_lines(filters: Seq<Seq<char>>, upto: int, i: int)
    requires
        0 <= i < upto <= filters.len(),
    ensures
        disarms(filter_lines(filters, upto), Driver::Filter(filters[i])),
    decreases upto,
{
    let so_far = filter_lines(filters, upto - 1);
    let all = filter_lines(filters, upto);
    let added = all.skip(so_far.len() as int);
    assert(all =~= so_far + added);
    if i < upto - 1 {
        lemma_filter_lines(filters, upto - 1, i);
        lemma_contains_more(so_far, Seq::empty(), added, Driver::Filter(filters[i]));
        assert(all =~= Seq::<(Seq<char>, Seq<char>)>::empty() + so_far + added);
    } else {
        let name = filters[i];
        assert(added[0] == ("filter."@ + name + ".clean"@, Seq::<char>::empty()));
        assert(added[1] == ("filter."@ + name + ".smudge"@, Seq::<char>::empty()));
        assert(added[2] == ("filter."@ + name + ".process"@, Seq::<char>::empty()));
        assert(added[3] == ("filter."@ + name + ".required"@, "false"@));
        lemma_contains_more(added, so_far, Seq::empty(), Driver::Filter(name));
        assert(all =~= so_far + added + Seq::<(Seq<char>, Seq<char>)>::empty());
    }
}

/// No configuration can make Git run a program of its own: whatever drivers a
/// listing names, the configuration that Git is started with takes each of them
/// away, and has no hooks, no monitor and no attributes of the user.
pub proof fn law_no_configured_program_is_run(
    overrides: Seq<(String, String)>,
    keys: Seq<Seq<char>>,
    null_device: Seq<char>,
    i: int,
)
    requires
        neutralises(overrides, keys),
        0 <= i < keys.len(),
    ensures
        ({
            let lines = fixed_lines(null_device) + line_views(overrides);
            &&& disarms(lines, driver(keys[i]))
            &&& lines.contains(("core.fsmonitor"@, "false"@))
            &&& lines.contains(("core.hooksPath"@, null_device))
            &&& lines.contains(("core.attributesFile"@, null_device))
        }),
{
    let fixed = fixed_lines(null_device);
    let lines = fixed + line_views(overrides);
    let filters = choose|filters: Seq<Seq<char>>|
        {
            &&& #[trigger] text::ascending(filters)
            &&& forall|n: Seq<char>| #[trigger]
                filters.contains(n) <==> names_filter(keys, n, keys.len() as int)
            &&& line_views(overrides) == driver_lines(keys, keys.len() as int) + filter_lines(
                filters,
                filters.len() as int,
            )
        };
    let first = driver_lines(keys, keys.len() as int);
    let second = filter_lines(filters, filters.len() as int);
    match driver(keys[i]) {
        Driver::Filter(name) => {
            assert(names_filter(keys, name, keys.len() as int));
            assert(filters.contains(name));
            let k = choose|k: int| 0 <= k < filters.len() && filters[k] == name;
            lemma_filter_lines(filters, filters.len() as int, k);
            lemma_contains_more(second, fixed + first, Seq::empty(), driver(keys[i]));
            assert(lines =~= fixed + first + second + Seq::<(Seq<char>, Seq<char>)>::empty());
        },
        _ => {
            lemma_driver_lines(keys, keys.len() as int, i);
            lemma_contains_more(first, fixed, second, driver(keys[i]));
            assert(lines =~= fixed + first + second);
        },
    }
    assert(lines[0] == fixed[0] && lines[1] == fixed[1] && lines[2] == fixed[2]);
}

proof fn lemma_first_piece(head: Seq<char>, sep: char, rest: Seq<char>)
    requires
        !head.contains(sep),
    ensures
        text::pieces(head + seq![sep] + rest, sep) == seq![head] + text::pieces(rest, sep),
    decreases head.len(),
{
    let all = head + seq![sep] + rest;
    if head.len() == 0 {
        assert(all[0] == sep);
        assert(all.drop_first() =~= rest);
        assert(head =~= Seq::<char>::empty());
    } else {
        assert(head.contains(head[0]));
        assert(all[0] == head[0]);
        let tail = head.drop_first();
        assert forall|n: int| 0 <= n < tail.len() implies tail[n] != sep by {
            assert(tail[n] == head[n + 1]);
            assert(head.contains(head[n + 1]));
        }
        lemma_first_piece(tail, sep, rest);
        assert(all.drop_first() =~= tail + seq![sep] + rest);
        let others = seq![tail] + text::pieces(rest, sep);
        assert(others[0] == tail);
        assert(others.drop_first() =~= text::pieces(rest, sep));
        assert(seq![head[0]] + tail =~= head);
    }
}

proof fn lemma_some_piece(s: Seq<char>, sep: char)
    ensures
        text::pieces(s, sep).len() > 0,
    decreases s.len(),
{
    if s.len() > 0 {
        lemma_some_piece(s.drop_first(), sep);
    }
}

/// A configured remote is read with its own name and its whole address, whatever the two
/// hold but for a line break in the name.
pub proof fn law_remotes_are_read_by_name(name: Seq<char>, url: Seq<char>)
    requires
        !name.contains('\n'),
    ensures
        remote_record("remote."@ + name + ".url"@ + seq!['\n'] + url) == RemoteRecord::Url(name, url),
{
    reveal_strlit("remote.");
    reveal_strlit(".url");
    let key = "remote."@ + name + ".url"@;
    assert forall|n: int| 0 <= n < key.len() implies key[n] != '\n' by {
        if 7 <= n < 7 + name.len() {
            assert(key[n] == name[n - 7]);
            assert(name.contains(name[n - 7]));
        }
    }
    lemma_first_piece(key, '\n', url);
    lemma_some_piece(url, '\n');
    let lines = seq![key] + text::pieces(url, '\n');
    assert(lines[0] == key);
    assert(lines.drop_first() =~= text::pieces(url, '\n'));
    text::law_pieces_join(url, '\n');
    assert(key.take("remote."@.len() as int) =~= "remote."@);
    assert(key.skip(key.len() - ".url"@.len()) =~= ".url"@);
    assert(key.subrange("remote."@.len() as int, key.len() - ".url"@.len()) =~= name);
}

/// The addresses that are kept for a remote are those of the records that name it.
pub proof fn law_remotes_keep_their_own_addresses(
    records: Seq<Seq<char>>,
    name: Seq<char>,
    upto: int,
    url: Seq<char>,
)
    requires
        0 <= upto <= records.len(),
    ensures
        urls_of(records, name, upto).contains(url) <==> exists|n: int|
            0 <= n < upto && (#[trigger] records[n]).len() > 0 && remote_record(records[n])
                == RemoteRecord::Url(name, url),
    decreases upto,
{
    if upto > 0 {
        law_remotes_keep_their_own_addresses(records, name, upto - 1, url);
        let before = urls_of(records, name, upto - 1);
        let all = urls_of(records, name, upto);
        if all.len() > before.len() {
            if before.contains(url) {
                let m = choose|m: int| 0 <= m < before.len() && before[m] == url;
                assert(all[m] == url);
            }
            if remote_record(records[upto - 1]) == RemoteRecord::Url(name, url) {
                assert(all[before.len() as int] == url);
            }
            if all.contains(url) && !before.contains(url) {
                let m = choose|m: int| 0 <= m < all.len() && all[m] == url;
                if m < before.len() {
                    assert(before[m] == url);
                }
                assert(remote_record(records[upto - 1]) == RemoteRecord::Url(name, url));
            }
        }
    }
}

} // verus!
