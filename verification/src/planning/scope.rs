//! Path scopes: what they permit, when two of them meet, and which of them a
//! task may be given.
use crate::error::{invalid, Error};
use crate::text;
use vstd::prelude::*;
use vstd::string::*;

verus! {

/// A part of the repository, by repository-relative path.
#[derive(Debug, PartialEq, Eq)]
pub enum ScopePath {
    File { path: String },
    Directory { path: String },
}

impl Clone for ScopePath {
    fn clone(&self) -> (r: Self)
        ensures
            r == *self,
    {
        match self {
            ScopePath::File { path } => ScopePath::File { path: path.clone() },
            ScopePath::Directory { path } => ScopePath::Directory { path: path.clone() },
        }
    }
}

impl ScopePath {
    /// The path of a scope.
    pub open spec fn at(self) -> Seq<char> {
        match self {
            ScopePath::File { path } => path@,
            ScopePath::Directory { path } => path@,
        }
    }

    pub fn path(&self) -> (r: &str)
        ensures
            r@ == self.at(),
    {
        match self {
            ScopePath::File { path } => path.as_str(),
            ScopePath::Directory { path } => path.as_str(),
        }
    }
}

/// A path that project policy keeps workers away from.
#[derive(Debug, PartialEq, Eq)]
pub struct ProtectedPath {
    pub path: String,
    pub deny_read: bool,
    pub deny_write: bool,
}

/// Whether `path` is `parent` or lies below it.
pub open spec fn below(path: Seq<char>, parent: Seq<char>) -> bool {
    path == parent || (text::begins(path, parent) && path.len() > parent.len() && path[parent.len() as int]
        == '/')
}

/// Whether `path` is `parent` or lies below it.
pub fn inside(path: &str, parent: &str) -> (r: bool)
    ensures
        r == below(path@, parent@),
{
    if text::same(path, parent) {
        return true;
    }
    let n: usize = parent.unicode_len();
    text::starts_with(path, parent) && path.unicode_len() > n && path.get_char(n) == '/'
}

/// Whether a scope permits a path: a file only itself, a directory itself and
/// everything below it.
pub open spec fn allows(scope: ScopePath, path: Seq<char>) -> bool {
    match scope {
        ScopePath::File { path: p } => p@ == path,
        ScopePath::Directory { path: p } => below(path, p@),
    }
}

/// Whether a scope permits a path.
pub fn permits(scope: &ScopePath, path: &str) -> (r: bool)
    ensures
        r == allows(*scope, path@),
{
    match scope {
        ScopePath::File { path: p } => text::same(p.as_str(), path),
        ScopePath::Directory { path: p } => inside(path, p.as_str()),
    }
}

/// Whether one of two scopes permits the path of the other.
pub open spec fn meet(a: ScopePath, b: ScopePath) -> bool {
    allows(a, b.at()) || allows(b, a.at())
}

/// Whether one of two scopes permits the path of the other.
pub fn overlap(a: &ScopePath, b: &ScopePath) -> (r: bool)
    ensures
        r == meet(*a, *b),
{
    permits(a, b.path()) || permits(b, a.path())
}

/// Whether some scope permits a path.
pub open spec fn any_allows(scopes: Seq<ScopePath>, path: Seq<char>) -> bool {
    exists|i: int| 0 <= i < scopes.len() && allows(#[trigger] scopes[i], path)
}

/// Whether some scope permits a path.
pub fn any_permits(scopes: &Vec<ScopePath>, path: &str) -> (r: bool)
    ensures
        r == any_allows(scopes@, path@),
{
    let mut i: usize = 0;
    while i < scopes.len()
        invariant
            i <= scopes@.len(),
            forall|j: int| 0 <= j < i ==> !allows(#[trigger] scopes@[j], path@),
        decreases scopes@.len() - i,
    {
        if permits(&scopes[i], path) {
            return true;
        }
        i += 1;
    }
    false
}

/// Whether some scope meets another.
pub open spec fn any_meets(scopes: Seq<ScopePath>, other: ScopePath) -> bool {
    exists|i: int| 0 <= i < scopes.len() && meet(#[trigger] scopes[i], other)
}

/// Whether some scope meets another.
pub fn any_overlap(scopes: &Vec<ScopePath>, other: &ScopePath) -> (r: bool)
    ensures
        r == any_meets(scopes@, *other),
{
    let mut i: usize = 0;
    while i < scopes.len()
        invariant
            i <= scopes@.len(),
            forall|j: int| 0 <= j < i ==> !meet(#[trigger] scopes@[j], *other),
        decreases scopes@.len() - i,
    {
        if overlap(&scopes[i], other) {
            return true;
        }
        i += 1;
    }
    false
}

/// A copy of some scopes.
pub fn copied(scopes: &Vec<ScopePath>) -> (r: Vec<ScopePath>)
    ensures
        r@ == scopes@,
{
    let mut out: Vec<ScopePath> = Vec::new();
    let mut i: usize = 0;
    while i < scopes.len()
        invariant
            i <= scopes@.len(),
            out@ == scopes@.take(i as int),
        decreases scopes@.len() - i,
    {
        out.push(scopes[i].clone());
        i += 1;
        assert(out@ =~= scopes@.take(i as int));
    }
    assert(out@ =~= scopes@);
    out
}

/// Whether two scopes are the same.
pub open spec fn same_scope(a: ScopePath, b: ScopePath) -> bool {
    (a is File) == (b is File) && a.at() == b.at()
}

/// Whether two lists of scopes are the same.
pub open spec fn same_scopes(a: Seq<ScopePath>, b: Seq<ScopePath>) -> bool {
    &&& a.len() == b.len()
    &&& forall|i: int| 0 <= i < a.len() ==> same_scope(#[trigger] a[i], b[i])
}

pub fn scopes_same(a: &Vec<ScopePath>, b: &Vec<ScopePath>) -> (r: bool)
    ensures
        r == same_scopes(a@, b@),
{
    if a.len() != b.len() {
        return false;
    }
    let mut i: usize = 0;
    while i < a.len()
        invariant
            i <= a@.len(),
            a@.len() == b@.len(),
            forall|j: int| 0 <= j < i ==> same_scope(#[trigger] a@[j], b@[j]),
        decreases a@.len() - i,
    {
        let alike: bool = match (&a[i], &b[i]) {
            (ScopePath::File { .. }, ScopePath::File { .. }) => true,
            (ScopePath::Directory { .. }, ScopePath::Directory { .. }) => true,
            _ => false,
        };
        if !(alike && text::same(a[i].path(), b[i].path())) {
            assert(!same_scope(a@[i as int], b@[i as int]));
            return false;
        }
        i += 1;
    }
    true
}

/// Whether two scopes meet does not depend on their order.
pub proof fn law_meeting_is_symmetric(a: ScopePath, b: ScopePath)
    ensures
        meet(a, b) == meet(b, a),
{
}

/// Every scope permits its own path, and so meets itself.
pub proof fn law_a_scope_permits_itself(a: ScopePath)
    ensures
        allows(a, a.at()),
        meet(a, a),
{
}

/// What lies below a permitted directory is permitted.
pub proof fn law_permission_reaches_down(parent: Seq<char>, middle: Seq<char>, path: Seq<char>)
    requires
        below(middle, parent),
        below(path, middle),
    ensures
        below(path, parent),
{
    if path != middle && middle != parent {
        assert(path.take(parent.len() as int) =~= path.take(middle.len() as int).take(
            parent.len() as int,
        ));
        assert(path[parent.len() as int] == path.take(middle.len() as int)[parent.len() as int]);
    }
}

/// Two directories meet exactly when one lies below the other, so scopes that
/// do not meet share no path.
pub proof fn law_disjoint_directories_share_no_path(a: String, b: String, path: Seq<char>)
    requires
        !meet(ScopePath::Directory { path: a }, ScopePath::Directory { path: b }),
    ensures
        !(below(path, a@) && below(path, b@)),
{
    if below(path, a@) && below(path, b@) {
        let (x, y) = (a@, b@);
        if x.len() <= y.len() {
            assert(y.take(x.len() as int) =~= x) by {
                assert(path.take(y.len() as int) =~= y);
                assert(path.take(x.len() as int) =~= x);
                assert(y =~= path.take(y.len() as int));
                assert(y.take(x.len() as int) =~= path.take(x.len() as int));
            }
            if x.len() == y.len() {
                assert(x =~= y);
            } else {
                assert(y[x.len() as int] == path.take(y.len() as int)[x.len() as int]);
            }
            assert(below(y, x));
        } else {
            assert(x.take(y.len() as int) =~= y) by {
                assert(path.take(y.len() as int) =~= y);
                assert(path.take(x.len() as int) =~= x);
                assert(x.take(y.len() as int) =~= path.take(y.len() as int));
            }
            assert(x[y.len() as int] == path.take(x.len() as int)[y.len() as int]);
            assert(below(x, y));
        }
    }
}

// ---------------------------------------------------------------------------
// Scopes that a task may be given
// ---------------------------------------------------------------------------

pub const GIT_SCOPE: &'static str = "Git administrative paths are not task scope";

pub const SYMLINK_SCOPE: &'static str = "scope crosses a symlink";

/// Whether policy keeps a task away from what it asks for.
pub open spec fn denies(rule: ProtectedPath, scope: ScopePath, write: bool) -> bool {
    (rule.deny_read || (write && rule.deny_write)) && (allows(scope, rule.path@) || below(
        scope.at(),
        rule.path@,
    ))
}

/// The first rule from the `i`-th on that denies a scope.
pub open spec fn first_denial(
    rules: Seq<ProtectedPath>,
    scope: ScopePath,
    write: bool,
    i: int,
) -> Option<Seq<char>>
    decreases rules.len() - i,
{
    if i < 0 || i >= rules.len() {
        None
    } else if denies(rules[i], scope, write) {
        Some(
            "scope "@ + scope.at() + " intersects protected path "@ + rules[i].path@,
        )
    } else {
        first_denial(rules, scope, write, i + 1)
    }
}

/// Why a scope cannot be given to a task, if anything: the path rule of the
/// repository, Git's own storage, a protected path, or a symbolic link on the
/// way.
pub open spec fn scope_refusal(
    path_refusal: Option<String>,
    rules: Seq<ProtectedPath>,
    scope: ScopePath,
    write: bool,
    symlinked: bool,
) -> Option<Seq<char>> {
    match path_refusal {
        Some(m) => Some(m@),
        None => if text::pieces(scope.at(), '/').contains(".git"@) {
            Some(GIT_SCOPE@)
        } else {
            match first_denial(rules, scope, write, 0) {
                Some(m) => Some(m),
                None => if symlinked {
                    Some(SYMLINK_SCOPE@)
                } else {
                    None
                },
            }
        },
    }
}

/// Whether one of some pieces is the given text.
pub fn any_piece(pieces: &Vec<&str>, s: &str) -> (r: bool)
    ensures
        r == text::strs(pieces@).contains(s@),
{
    let mut i: usize = 0;
    while i < pieces.len()
        invariant
            i <= pieces@.len(),
            forall|j: int| 0 <= j < i ==> (#[trigger] pieces@[j])@ != s@,
        decreases pieces@.len() - i,
    {
        if text::same(pieces[i], s) {
            assert(text::strs(pieces@)[i as int] == s@);
            return true;
        }
        i += 1;
    }
    proof {
        if text::strs(pieces@).contains(s@) {
            let j = choose|j: int|
                0 <= j < text::strs(pieces@).len() && text::strs(pieces@)[j] == s@;
            assert(pieces@[j]@ == s@);
        }
    }
    false
}

/// Checks a scope that a task asks for. What the path rule of the repository
/// says of the path, and whether a symbolic link lies on the way, come from the
/// caller.
pub fn safe_scope(
    path_refusal: &Option<String>,
    rules: &Vec<ProtectedPath>,
    scope: &ScopePath,
    write: bool,
    symlinked: bool,
) -> (r: Result<(), Error>)
    ensures
        crate::error::settles(
            r,
            scope_refusal(*path_refusal, rules@, *scope, write, symlinked),
        ),
{
    if let Some(m) = path_refusal {
        return invalid(m.as_str());
    }
    let pieces: Vec<&str> = text::split_ascii(scope.path(), 47u8);
    assert(47u8 as char == '/');
    if any_piece(&pieces, ".git") {
        return invalid(GIT_SCOPE);
    }
    let mut i: usize = 0;
    while i < rules.len()
        invariant
            i <= rules@.len(),
            path_refusal is None,
            !text::pieces(scope.at(), '/').contains(".git"@),
            first_denial(rules@, *scope, write, 0) == first_denial(
                rules@,
                *scope,
                write,
                i as int,
            ),
        decreases rules@.len() - i,
    {
        let rule: &ProtectedPath = &rules[i];
        if (rule.deny_read || (write && rule.deny_write)) && (permits(scope, rule.path.as_str())
            || inside(scope.path(), rule.path.as_str())) {
            let m: String = text::join2("scope ", scope.path());
            let m: String = text::join3(m.as_str(), " intersects protected path ", rule.path.as_str());
            return invalid(m.as_str());
        }
        i += 1;
    }
    if symlinked {
        return invalid(SYMLINK_SCOPE);
    }
    Ok(())
}

/// A scope that passes touches no path that policy denies: a protected path
/// that may not be read is never permitted, nor one that may not be written
/// where the task writes.
pub proof fn law_a_safe_scope_permits_no_denied_path(
    rules: Seq<ProtectedPath>,
    scope: ScopePath,
    write: bool,
    i: int,
)
    requires
        scope_refusal(None, rules, scope, write, false) is None,
        0 <= i < rules.len(),
        rules[i].deny_read || (write && rules[i].deny_write),
    ensures
        !allows(scope, rules[i].path@),
        !below(scope.at(), rules[i].path@),
{
    lemma_no_denial(rules, scope, write, 0, i);
}

proof fn lemma_no_denial(
    rules: Seq<ProtectedPath>,
    scope: ScopePath,
    write: bool,
    from: int,
    i: int,
)
    requires
        0 <= from <= i < rules.len(),
        first_denial(rules, scope, write, from) is None,
    ensures
        !denies(rules[i], scope, write),
    decreases i - from,
{
    if from < i {
        lemma_no_denial(rules, scope, write, from + 1, i);
    }
}

/// A file scope permits its own path and no other. A directory scope permits itself and
/// whatever is reached from it through a `/`, and nothing else: not a sibling whose
/// name only starts with its own.
pub proof fn law_scopes_permit_what_they_hold(owner: String, path: Seq<char>, rest: Seq<char>)
    ensures
        allows(ScopePath::File { path: owner }, path) <==> path == owner@,
        allows(ScopePath::Directory { path: owner }, owner@),
        allows(ScopePath::Directory { path: owner }, owner@ + seq!['/'] + rest),
        allows(ScopePath::Directory { path: owner }, path) && path != owner@ ==> path == owner@
            + seq!['/'] + path.skip((owner@.len() + 1) as int),
{
    let longer = owner@ + seq!['/'] + rest;
    assert(longer.take(owner@.len() as int) =~= owner@);
    if allows(ScopePath::Directory { path: owner }, path) && path != owner@ {
        assert(path.take(owner@.len() as int) == owner@);
        assert(path =~= owner@ + seq!['/'] + path.skip((owner@.len() + 1) as int));
    }
}

proof fn lemma_denial(rules: Seq<ProtectedPath>, scope: ScopePath, write: bool, i: int)
    requires
        0 <= i,
    ensures
        first_denial(rules, scope, write, i) is None <==> forall|n: int|
            i <= n < rules.len() && ((#[trigger] rules[n]).deny_read || (write
                && rules[n].deny_write)) ==> !allows(scope, rules[n].path@) && !below(
                scope.at(),
                rules[n].path@,
            ),
    decreases rules.len() - i,
{
    if i < rules.len() {
        lemma_denial(rules, scope, write, i + 1);
        if first_denial(rules, scope, write, i) is None {
            assert forall|n: int|
                i <= n < rules.len() && ((#[trigger] rules[n]).deny_read || (write
                    && rules[n].deny_write)) implies !allows(scope, rules[n].path@) && !below(
                scope.at(),
                rules[n].path@,
            ) by {
                if n == i {
                    assert(!denies(rules[i], scope, write));
                }
            }
        } else if denies(rules[i], scope, write) {
            assert(!(!allows(scope, rules[i].path@) && !below(scope.at(), rules[i].path@)));
        }
    }
}

/// A scope is refused exactly where its path is ill formed, has a component `.git`, is
/// reached through a symbolic link, or meets a protected path that may not be read, or
/// not be written where the scope is written.
pub proof fn law_scopes_are_refused_for_a_reason(
    path_refusal: Option<String>,
    rules: Seq<ProtectedPath>,
    scope: ScopePath,
    write: bool,
    symlinked: bool,
)
    ensures
        scope_refusal(path_refusal, rules, scope, write, symlinked) is None <==> {
            &&& path_refusal is None
            &&& !symlinked
            &&& forall|n: int|
                0 <= n < text::pieces(scope.at(), '/').len() ==> #[trigger] text::pieces(
                    scope.at(),
                    '/',
                )[n] != ".git"@
            &&& forall|n: int|
                0 <= n < rules.len() && ((#[trigger] rules[n]).deny_read || (write
                    && rules[n].deny_write)) ==> !allows(scope, rules[n].path@) && !below(
                    scope.at(),
                    rules[n].path@,
                )
        },
{
    lemma_denial(rules, scope, write, 0);
    let parts = text::pieces(scope.at(), '/');
    if parts.contains(".git"@) {
        let n = choose|n: int| 0 <= n < parts.len() && parts[n] == ".git"@;
        assert(text::pieces(scope.at(), '/')[n] == ".git"@);
    }
}

} // verus!
