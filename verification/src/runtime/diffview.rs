//! Diff material for an independent verifier: exact line hunks whose size
//! follows the change and not the files it touches. A view shows every changed
//! line or, past its ceiling, is refused; nothing in it is summarized.
use crate::error::{invalid, Error};
use crate::runtime::edit;
use crate::runtime::edit::Op;
use crate::manifest::{SuppliedKind, SuppliedSource};
use crate::source::{FileChange, FileState, IgnoredFile};
use crate::text;
use vstd::prelude::*;
use vstd::string::*;
use vstd::utf8::*;

verus! {

pub const DIFF_VIEW_VERSION: &'static str = "agentctl-diff-view-1";

/// Unchanged lines shown before and after each change.
pub const CONTEXT_LINES: usize = 3;

/// Ceiling on the expanded verifier diff, for one task and for a whole plan.
pub const MAX_DIFF_VIEW_BYTES: usize = 131072;

#[derive(Debug, Clone, Copy, PartialEq, Eq, Structural)]
pub enum ChangeStatus {
    Added,
    Deleted,
    Modified,
    /// Identical content; only the file mode changed.
    ModeChanged,
    /// An individually ignored file observed by metadata alone.
    IgnoredMetadata,
}

/// Line count and final-newline presence of one side of a text change.
#[derive(Debug, Clone, Copy, PartialEq, Eq, Structural)]
pub struct TextShape {
    pub lines: usize,
    pub final_newline: bool,
}

/// One unified-diff hunk. Starts are one-based; a side with no lines names the
/// line it follows (0 at the start of the file).
#[derive(Debug, Clone, PartialEq, Eq)]
pub struct Hunk {
    pub before_start: usize,
    pub before_lines: usize,
    pub after_start: usize,
    pub after_lines: usize,
    /// Each line prefixed by ' ' (context), '-' (removed) or '+' (added),
    /// without its line terminator.
    pub lines: Vec<String>,
}

/// One changed path as a verifier sees it.
#[derive(Debug, PartialEq, Eq)]
pub struct ChangeView {
    pub path: String,
    pub status: ChangeStatus,
    pub before: Option<TextShape>,
    pub after: Option<TextShape>,
    pub hunks: Vec<Hunk>,
    /// Metadata of an individually ignored file on either side; its content is
    /// never captured, so the verifier sees only that it changed.
    pub ignored_before: Option<IgnoredFile>,
    pub ignored_after: Option<IgnoredFile>,
}

/// The contents of a [`Hunk`].
pub struct HunkView {
    pub before_start: int,
    pub before_lines: int,
    pub after_start: int,
    pub after_lines: int,
    pub lines: Seq<Seq<char>>,
}

impl View for Hunk {
    type V = HunkView;

    open spec fn view(&self) -> HunkView {
        HunkView {
            before_start: self.before_start as int,
            before_lines: self.before_lines as int,
            after_start: self.after_start as int,
            after_lines: self.after_lines as int,
            lines: text::texts(self.lines@),
        }
    }
}

/// The contents of several hunks.
pub open spec fn hunk_views(hunks: Seq<Hunk>) -> Seq<HunkView> {
    Seq::new(hunks.len(), |i: int| hunks[i]@)
}

// ---------------------------------------------------------------------------
// Lines
// ---------------------------------------------------------------------------

/// Whether a text ends with a newline.
pub open spec fn ends_in_newline(text: Seq<char>) -> bool {
    text.len() > 0 && text.last() == '\n'
}

/// The lines of a text, without their terminators.
pub open spec fn lines_of(text: Seq<char>) -> Seq<Seq<char>> {
    if text.len() == 0 {
        Seq::empty()
    } else if ends_in_newline(text) {
        text::pieces(text.drop_last(), '\n')
    } else {
        text::pieces(text, '\n')
    }
}

/// Text made of lines, with or without a newline after the last.
pub open spec fn text_of(lines: Seq<Seq<char>>, final_newline: bool) -> Seq<char> {
    text::joined(lines, '\n') + if final_newline {
        seq!['\n']
    } else {
        Seq::empty()
    }
}

/// The lines of a text and its final newline are the whole text.
pub proof fn law_lines_and_newline_are_the_text(text: Seq<char>)
    ensures
        text_of(lines_of(text), ends_in_newline(text)) == text,
{
    if text.len() == 0 {
        assert(text_of(lines_of(text), false) =~= text);
    } else if ends_in_newline(text) {
        text::law_pieces_join(text.drop_last(), '\n');
        assert(text.drop_last() + seq!['\n'] =~= text);
    } else {
        text::law_pieces_join(text, '\n');
        assert(text + Seq::<char>::empty() =~= text);
    }
}

proof fn lemma_pieces_push_separator(s: Seq<char>, sep: char)
    ensures
        text::pieces(s.push(sep), sep) == text::pieces(s, sep).push(Seq::<char>::empty()),
    decreases s.len(),
{
    if s.len() == 0 {
        assert(s.push(sep).drop_first() =~= Seq::<char>::empty());
        reveal_with_fuel(text::pieces, 2);
        assert(text::pieces(s.push(sep), sep) =~= text::pieces(s, sep).push(Seq::<char>::empty()));
    } else {
        assert(s.push(sep).drop_first() =~= s.drop_first().push(sep));
        lemma_pieces_push_separator(s.drop_first(), sep);
        text::lemma_pieces_nonempty(s.drop_first(), sep);
        assert(text::pieces(s.push(sep), sep) =~= text::pieces(s, sep).push(Seq::<char>::empty()));
    }
}

proof fn lemma_last_piece_empty(s: Seq<char>, sep: char)
    requires
        s.len() > 0,
        text::pieces(s, sep).last().len() == 0,
    ensures
        s.last() == sep,
    decreases s.len(),
{
    if s.len() == 1 {
        assert(s.drop_first() =~= Seq::<char>::empty());
        if s[0] != sep {
            assert(text::pieces(s, sep) =~= seq![seq![s[0]] + Seq::<char>::empty()]);
            assert(text::pieces(s, sep).last().len() == 1);
        }
    } else {
        text::lemma_pieces_nonempty(s.drop_first(), sep);
        let rest = text::pieces(s.drop_first(), sep);
        if s[0] == sep {
            assert(text::pieces(s, sep).last() == rest.last());
        } else if rest.len() > 1 {
            assert(text::pieces(s, sep).last() == rest.last());
        } else {
            assert(text::pieces(s, sep).last() =~= seq![s[0]] + rest[0]);
        }
        lemma_last_piece_empty(s.drop_first(), sep);
    }
}

/// Lines without terminators, and whether the text ends with a newline.
pub fn split<'a>(text: &'a str) -> (r: (Vec<&'a str>, bool))
    ensures
        text::strs(r.0@) == lines_of(text@),
        r.1 == ends_in_newline(text@),
{
    if text.is_empty() {
        let none: Vec<&'a str> = Vec::new();
        assert(text::strs(none@) =~= lines_of(text@));
        return (none, false);
    }
    let mut parts: Vec<&'a str> = text::split_ascii(text, 10u8);
    proof {
        text::lemma_pieces_nonempty(text@, '\n');
        assert(10u8 as char == '\n');
    }
    let last: &'a str = parts[parts.len() - 1];
    assert(last@ == text::pieces(text@, '\n').last());
    if last.is_empty() {
        proof {
            lemma_last_piece_empty(text@, '\n');
            assert(text@ =~= text@.drop_last().push('\n'));
            lemma_pieces_push_separator(text@.drop_last(), '\n');
        }
        let ghost all = parts@;
        let dropped = parts.pop();
        proof {
            assert(text::strs(parts@) =~= text::strs(all).drop_last());
            assert(text::pieces(text@, '\n').drop_last() =~= text::pieces(text@.drop_last(), '\n'));
        }
        (parts, true)
    } else {
        proof {
            if ends_in_newline(text@) {
                assert(text@ =~= text@.drop_last().push('\n'));
                lemma_pieces_push_separator(text@.drop_last(), '\n');
            }
        }
        (parts, false)
    }
}

// ---------------------------------------------------------------------------
// Hunks
// ---------------------------------------------------------------------------

/// Lines of the first side that the first `upto` steps use up.
pub open spec fn used_before(ops: Seq<Op>, upto: int) -> int
    decreases upto,
{
    if upto <= 0 {
        0
    } else {
        used_before(ops, upto - 1) + if ops[upto - 1] == Op::Insert {
            0int
        } else {
            1
        }
    }
}

/// Lines of the second side that the first `upto` steps use up.
pub open spec fn used_after(ops: Seq<Op>, upto: int) -> int
    decreases upto,
{
    if upto <= 0 {
        0
    } else {
        used_after(ops, upto - 1) + if ops[upto - 1] == Op::Delete {
            0int
        } else {
            1
        }
    }
}

/// The groups of changed steps among the first `upto`, by their first and last
/// changed step: changes with at most `2 * context` kept lines between them
/// belong to one group.
pub open spec fn groups(ops: Seq<Op>, context: int, upto: int) -> Seq<(int, int)>
    decreases upto,
{
    if upto <= 0 {
        Seq::empty()
    } else {
        let so_far = groups(ops, context, upto - 1);
        let p = upto - 1;
        if ops[p] == Op::Equal {
            so_far
        } else if so_far.len() > 0 && p - so_far.last().1 - 1 <= 2 * context {
            so_far.update(so_far.len() - 1, (so_far.last().0, p))
        } else {
            so_far.push((p, p))
        }
    }
}

/// The line shown for step `p`.
pub open spec fn shown_line(
    a: Seq<Seq<char>>,
    b: Seq<Seq<char>>,
    ops: Seq<Op>,
    p: int,
) -> Seq<char> {
    match ops[p] {
        Op::Equal => seq![' '] + a[used_before(ops, p)],
        Op::Delete => seq!['-'] + a[used_before(ops, p)],
        Op::Insert => seq!['+'] + b[used_after(ops, p)],
    }
}

/// The first step a group shows.
pub open spec fn first_shown(group: (int, int), context: int) -> int {
    if group.0 >= context {
        group.0 - context
    } else {
        0
    }
}

/// One past the last step a group shows.
pub open spec fn end_shown(ops: Seq<Op>, group: (int, int), context: int) -> int {
    if group.1 + context < ops.len() {
        group.1 + context + 1
    } else {
        ops.len() as int
    }
}

/// The hunk of a group: its steps with up to `context` kept lines on each side.
pub open spec fn hunk_of(
    a: Seq<Seq<char>>,
    b: Seq<Seq<char>>,
    ops: Seq<Op>,
    group: (int, int),
    context: int,
) -> HunkView {
    let lo = first_shown(group, context);
    let hi = end_shown(ops, group, context);
    let before_lines = used_before(ops, hi) - used_before(ops, lo);
    let after_lines = used_after(ops, hi) - used_after(ops, lo);
    HunkView {
        before_start: used_before(ops, lo) + if before_lines > 0 {
            1int
        } else {
            0
        },
        before_lines,
        after_start: used_after(ops, lo) + if after_lines > 0 {
            1int
        } else {
            0
        },
        after_lines,
        lines: Seq::new((hi - lo) as nat, |i: int| shown_line(a, b, ops, lo + i)),
    }
}

/// The hunks of an edit script.
pub open spec fn rendered(
    a: Seq<Seq<char>>,
    b: Seq<Seq<char>>,
    ops: Seq<Op>,
    context: int,
) -> Seq<HunkView> {
    let all = groups(ops, context, ops.len() as int);
    Seq::new(all.len(), |i: int| hunk_of(a, b, ops, all[i], context))
}

/// What patching reads from one line of a hunk: the lines of the second side
/// that come out and the next line of the first side, or nothing where a kept
/// or removed line is not the one that stands there.
pub open spec fn patch_lines(
    before: Seq<Seq<char>>,
    lines: Seq<Seq<char>>,
    next: int,
) -> Option<(Seq<Seq<char>>, int)>
    decreases lines.len(),
{
    if lines.len() == 0 {
        Some((Seq::empty(), next))
    } else if lines[0].len() == 0 {
        None
    } else {
        let content = lines[0].drop_first();
        let stands = 0 <= next < before.len() && before[next] == content;
        if lines[0][0] == '+' {
            match patch_lines(before, lines.drop_first(), next) {
                Some((rest, end)) => Some((seq![content] + rest, end)),
                None => None,
            }
        } else if lines[0][0] == '-' && stands {
            patch_lines(before, lines.drop_first(), next + 1)
        } else if lines[0][0] == ' ' && stands {
            match patch_lines(before, lines.drop_first(), next + 1) {
                Some((rest, end)) => Some((seq![content] + rest, end)),
                None => None,
            }
        } else {
            None
        }
    }
}

/// The result of applying hunks to the lines from `next` on.
pub open spec fn patch(
    before: Seq<Seq<char>>,
    hunks: Seq<HunkView>,
    next: int,
) -> Option<Seq<Seq<char>>>
    decreases hunks.len(),
{
    if hunks.len() == 0 {
        if 0 <= next <= before.len() {
            Some(before.skip(next))
        } else {
            None
        }
    } else {
        let h = hunks[0];
        let first = if h.before_lines > 0 {
            h.before_start - 1
        } else {
            h.before_start
        };
        if 0 <= next <= first <= before.len() {
            match patch_lines(before, h.lines, first) {
                Some((changed, end)) => match patch(before, hunks.drop_first(), end) {
                    Some(rest) => Some(before.subrange(next, first) + (changed + rest)),
                    None => None,
                },
                None => None,
            }
        } else {
            None
        }
    }
}

/// Number of steps in `lo..hi` that are not `op`.
pub open spec fn others(lines: Seq<Seq<char>>, tag: char) -> int
    decreases lines.len(),
{
    if lines.len() == 0 {
        0
    } else {
        others(lines.drop_last(), tag) + if lines.last().len() > 0 && lines.last()[0] == tag {
            0int
        } else {
            1
        }
    }
}

/// A script follows the lines that its steps use up.
proof fn lemma_positions(a: Seq<Seq<char>>, b: Seq<Seq<char>>, ops: Seq<Op>, p: int)
    requires
        edit::edits(a, b, ops),
        0 <= p <= ops.len(),
    ensures
        edit::edits_from(a, b, ops.skip(p), used_before(ops, p), used_after(ops, p)),
        0 <= used_before(ops, p) <= a.len(),
        0 <= used_after(ops, p) <= b.len(),
        p < ops.len() ==> match ops[p] {
            Op::Equal => used_before(ops, p) < a.len() && used_after(ops, p) < b.len()
                && a[used_before(ops, p)] == b[used_after(ops, p)],
            Op::Delete => used_before(ops, p) < a.len(),
            Op::Insert => used_after(ops, p) < b.len(),
        },
        p == ops.len() ==> used_before(ops, p) == a.len() && used_after(ops, p) == b.len(),
    decreases p,
{
    if p == 0 {
        assert(ops.skip(0) =~= ops);
    } else {
        lemma_positions(a, b, ops, p - 1);
        assert(ops.skip(p - 1).drop_first() =~= ops.skip(p));
    }
    let rest = ops.skip(p);
    assert(edit::edits_from(a, b, rest, used_before(ops, p), used_after(ops, p)));
    if p < ops.len() {
        assert(rest[0] == ops[p]);
    } else {
        assert(rest.len() == 0);
    }
    edit::lemma_inside(a, b, rest, used_before(ops, p), used_after(ops, p));
}

/// Whether each group starts and ends with a changed step before `upto`.
spec fn bounded(ops: Seq<Op>, all: Seq<(int, int)>, upto: int) -> bool {
    forall|i: int|
        0 <= i < all.len() ==> {
            let g = #[trigger] all[i];
            0 <= g.0 <= g.1 < upto && ops[g.0] != Op::Equal && ops[g.1] != Op::Equal
        }
}

/// Whether more than `2 * context` steps lie between any two groups.
spec fn separated(all: Seq<(int, int)>, context: int) -> bool {
    forall|i: int, j: int|
        0 <= i < j < all.len() ==> (#[trigger] all[i]).1 + 2 * context + 1 < (#[trigger] all[j]).0
}

/// Whether some group spans step `p`.
#[verifier::opaque]
spec fn covered(all: Seq<(int, int)>, p: int) -> bool {
    exists|i: int| 0 <= i < all.len() && (#[trigger] all[i]).0 <= p <= all[i].1
}

proof fn lemma_covering(all: Seq<(int, int)>, p: int) -> (j: int)
    requires
        covered(all, p),
    ensures
        0 <= j < all.len(),
        all[j].0 <= p <= all[j].1,
{
    reveal(covered);
    choose|j: int| 0 <= j < all.len() && (#[trigger] all[j]).0 <= p <= all[j].1
}

proof fn lemma_covers(all: Seq<(int, int)>, p: int, j: int)
    requires
        0 <= j < all.len(),
        all[j].0 <= p <= all[j].1,
    ensures
        covered(all, p),
{
    reveal(covered);
}

/// Whether every changed step before `upto` belongs to a group.
spec fn complete(ops: Seq<Op>, all: Seq<(int, int)>, upto: int) -> bool {
    forall|p: int| 0 <= p < upto && #[trigger] ops[p] != Op::Equal ==> covered(all, p)
}

spec fn grouped(ops: Seq<Op>, all: Seq<(int, int)>, context: int, upto: int) -> bool {
    bounded(ops, all, upto) && separated(all, context) && complete(ops, all, upto)
}

proof fn lemma_group_opened(ops: Seq<Op>, all: Seq<(int, int)>, context: int, p: int)
    requires
        0 <= p < ops.len(),
        context >= 0,
        grouped(ops, all, context, p),
        ops[p] != Op::Equal,
        all.len() > 0 ==> p - all.last().1 - 1 > 2 * context,
    ensures
        grouped(ops, all.push((p, p)), context, p + 1),
{
    let next = all.push((p, p));
    let n = all.len() as int;
    assert(next[n] == (p, p));
    assert forall|i: int, j: int| 0 <= i < j < next.len() implies (#[trigger] next[i]).1 + 2 * context
        + 1 < (#[trigger] next[j]).0 by {
        if j < n {
            assert(all[i].1 + 2 * context + 1 < all[j].0);
        } else {
            if i < n - 1 {
                assert(all[i].1 + 2 * context + 1 < all[n - 1].0);
                assert(all[n - 1].0 <= all[n - 1].1);
            }
        }
    }
    assert forall|q: int| 0 <= q < p + 1 && #[trigger] ops[q] != Op::Equal implies covered(next, q) by {
        if q == p {
            lemma_covers(next, q, n);
        } else {
            let i = lemma_covering(all, q);
            lemma_covers(next, q, i);
        }
    }
}

proof fn lemma_group_extended(ops: Seq<Op>, all: Seq<(int, int)>, context: int, p: int)
    requires
        0 <= p < ops.len(),
        context >= 0,
        grouped(ops, all, context, p),
        ops[p] != Op::Equal,
        all.len() > 0,
    ensures
        grouped(ops, all.update(all.len() - 1, (all.last().0, p)), context, p + 1),
{
    let n = all.len() - 1;
    let next = all.update(n, (all.last().0, p));
    assert(all[n].0 <= all[n].1 < p);
    assert forall|i: int, j: int| 0 <= i < j < next.len() implies (#[trigger] next[i]).1 + 2 * context
        + 1 < (#[trigger] next[j]).0 by {
        assert(all[i].1 + 2 * context + 1 < all[j].0);
    }
    assert forall|q: int| 0 <= q < p + 1 && #[trigger] ops[q] != Op::Equal implies covered(next, q) by {
        if q == p {
            lemma_covers(next, q, n);
        } else {
            let i = lemma_covering(all, q);
            lemma_covers(next, q, i);
        }
    }
}

proof fn lemma_grouped(ops: Seq<Op>, context: int, upto: int)
    requires
        0 <= upto <= ops.len(),
        context >= 0,
    ensures
        grouped(ops, groups(ops, context, upto), context, upto),
    decreases upto,
{
    if upto > 0 {
        lemma_grouped(ops, context, upto - 1);
        let all = groups(ops, context, upto - 1);
        let p = upto - 1;
        if ops[p] != Op::Equal {
            if all.len() > 0 && p - all.last().1 - 1 <= 2 * context {
                lemma_group_extended(ops, all, context, p);
            } else {
                lemma_group_opened(ops, all, context, p);
            }
        } else {
            assert(bounded(ops, all, upto));
        }
    }
}

/// Between the end of one group and the start of the next every line is kept.
proof fn lemma_gap(ops: Seq<Op>, all: Seq<(int, int)>, context: int, i: int)
    requires
        context >= 0,
        grouped(ops, all, context, ops.len() as int),
        0 <= i <= all.len(),
    ensures
        forall|p: int|
            (if i > 0 {
                all[i - 1].1 + 1
            } else {
                0
            }) <= p < (if i < all.len() {
                all[i].0
            } else {
                ops.len() as int
            }) ==> #[trigger] ops[p] == Op::Equal,
{
    assert forall|p: int|
        (if i > 0 {
            all[i - 1].1 + 1
        } else {
            0
        }) <= p < (if i < all.len() {
            all[i].0
        } else {
            ops.len() as int
        }) implies #[trigger] ops[p] == Op::Equal by {
        if i > 0 {
            assert(all[i - 1].0 <= all[i - 1].1);
        }
        if ops[p] != Op::Equal {
            let j = lemma_covering(all, p);
            if j < i - 1 {
                assert(all[j].1 + 2 * context + 1 < all[i - 1].0);
            } else if j > i {
                assert(all[i].1 + 2 * context + 1 < all[j].0);
                assert(all[i].0 <= all[i].1);
            }
        }
    }
}

/// The lines shown for the steps in `lo..hi`.
spec fn window(a: Seq<Seq<char>>, b: Seq<Seq<char>>, ops: Seq<Op>, lo: int, hi: int) -> Seq<
    Seq<char>,
> {
    Seq::new((hi - lo) as nat, |i: int| shown_line(a, b, ops, lo + i))
}

/// Patching with the lines shown for some steps gives the lines they lead to.
proof fn lemma_patch_window(
    a: Seq<Seq<char>>,
    b: Seq<Seq<char>>,
    ops: Seq<Op>,
    lo: int,
    hi: int,
)
    requires
        edit::edits(a, b, ops),
        0 <= lo <= hi <= ops.len(),
    ensures
        used_before(ops, lo) <= used_before(ops, hi),
        used_after(ops, lo) <= used_after(ops, hi) <= b.len(),
        patch_lines(a, window(a, b, ops, lo, hi), used_before(ops, lo)) == Some(
            (b.subrange(used_after(ops, lo), used_after(ops, hi)), used_before(ops, hi)),
        ),
    decreases hi - lo,
{
    let w = window(a, b, ops, lo, hi);
    lemma_positions(a, b, ops, lo);
    lemma_positions(a, b, ops, hi);
    if lo == hi {
        assert(b.subrange(used_after(ops, lo), used_after(ops, hi)) =~= Seq::empty());
    } else {
        lemma_patch_window(a, b, ops, lo + 1, hi);
        assert(w.drop_first() =~= window(a, b, ops, lo + 1, hi));
        let (i, j) = (used_before(ops, lo), used_after(ops, lo));
        let tail = b.subrange(used_after(ops, lo + 1), used_after(ops, hi));
        match ops[lo] {
            Op::Equal => {
                assert(w[0].drop_first() =~= a[i]);
                assert(seq![b[j]] + tail =~= b.subrange(j, used_after(ops, hi)));
            },
            Op::Delete => {
                assert(w[0].drop_first() =~= a[i]);
            },
            Op::Insert => {
                assert(w[0].drop_first() =~= b[j]);
                assert(seq![b[j]] + tail =~= b.subrange(j, used_after(ops, hi)));
            },
        }
    }
}

/// Steps that all keep lines leave both sides the same.
proof fn lemma_kept_window(a: Seq<Seq<char>>, b: Seq<Seq<char>>, ops: Seq<Op>, lo: int, hi: int)
    requires
        edit::edits(a, b, ops),
        0 <= lo <= hi <= ops.len(),
        forall|p: int| lo <= p < hi ==> #[trigger] ops[p] == Op::Equal,
    ensures
        used_before(ops, lo) <= used_before(ops, hi) <= a.len(),
        used_after(ops, lo) <= used_after(ops, hi) <= b.len(),
        a.subrange(used_before(ops, lo), used_before(ops, hi)) == b.subrange(
            used_after(ops, lo),
            used_after(ops, hi),
        ),
    decreases hi - lo,
{
    lemma_positions(a, b, ops, lo);
    lemma_positions(a, b, ops, hi);
    if lo < hi {
        lemma_kept_window(a, b, ops, lo, hi - 1);
        lemma_positions(a, b, ops, hi - 1);
        assert(ops[hi - 1] == Op::Equal);
        assert(a.subrange(used_before(ops, lo), used_before(ops, hi)) =~= a.subrange(
            used_before(ops, lo),
            used_before(ops, hi - 1),
        ).push(a[used_before(ops, hi - 1)]));
        assert(b.subrange(used_after(ops, lo), used_after(ops, hi)) =~= b.subrange(
            used_after(ops, lo),
            used_after(ops, hi - 1),
        ).push(b[used_after(ops, hi - 1)]));
    } else {
        assert(a.subrange(used_before(ops, lo), used_before(ops, hi)) =~= Seq::empty());
        assert(b.subrange(used_after(ops, lo), used_after(ops, hi)) =~= Seq::empty());
    }
}

/// Patching with the hunks from the `i`-th on, once everything before step
/// `pos` is done.
proof fn lemma_patch_from(
    a: Seq<Seq<char>>,
    b: Seq<Seq<char>>,
    ops: Seq<Op>,
    context: int,
    all: Seq<(int, int)>,
    i: int,
    pos: int,
)
    requires
        edit::edits(a, b, ops),
        context >= 0,
        all == groups(ops, context, ops.len() as int),
        0 <= i <= all.len(),
        pos == if i > 0 {
            end_shown(ops, all[i - 1], context)
        } else {
            0
        },
    ensures
        patch(a, rendered(a, b, ops, context).skip(i), used_before(ops, pos)) == Some(
            b.skip(used_after(ops, pos)),
        ),
    decreases all.len() - i,
{
    let n = ops.len() as int;
    let hunks = rendered(a, b, ops, context).skip(i);
    lemma_grouped(ops, context, n);
    lemma_gap(ops, all, context, i);
    if i > 0 {
        assert(all[i - 1].0 <= all[i - 1].1 < n);
    }
    lemma_positions(a, b, ops, pos);
    lemma_positions(a, b, ops, n);
    if i == all.len() {
        lemma_kept_window(a, b, ops, pos, n);
        assert(a.skip(used_before(ops, pos)) =~= a.subrange(used_before(ops, pos), a.len() as int));
        assert(b.skip(used_after(ops, pos)) =~= b.subrange(used_after(ops, pos), b.len() as int));
    } else {
        let g = all[i];
        assert(0 <= g.0 <= g.1 < n);
        let lo = first_shown(g, context);
        let hi = end_shown(ops, g, context);
        if i > 0 {
            assert(all[i - 1].1 + 2 * context + 1 < all[i].0);
        }
        assert(pos <= lo <= g.0);
        let h = hunks[0];
        assert(h == hunk_of(a, b, ops, g, context));
        assert(h.lines =~= window(a, b, ops, lo, hi));
        lemma_positions(a, b, ops, lo);
        lemma_positions(a, b, ops, hi);
        lemma_kept_window(a, b, ops, pos, lo);
        lemma_patch_window(a, b, ops, lo, hi);
        assert(hunks.drop_first() =~= rendered(a, b, ops, context).skip(i + 1));
        lemma_patch_from(a, b, ops, context, all, i + 1, hi);
        let changed = b.subrange(used_after(ops, lo), used_after(ops, hi));
        assert(b.skip(used_after(ops, pos)) =~= b.subrange(used_after(ops, pos), used_after(ops, lo))
            + (changed + b.skip(used_after(ops, hi))));
    }
}

/// Hunks are exact: applied to the first side, the hunks of any script that
/// turns it into the second give the second side, and every kept or removed
/// line they name stands where they say.
pub proof fn law_hunks_reproduce_the_after_lines(
    a: Seq<Seq<char>>,
    b: Seq<Seq<char>>,
    ops: Seq<Op>,
    context: int,
)
    requires
        edit::edits(a, b, ops),
        context >= 0,
    ensures
        patch(a, rendered(a, b, ops, context), 0) == Some(b),
{
    let all = groups(ops, context, ops.len() as int);
    lemma_patch_from(a, b, ops, context, all, 0, 0);
    assert(rendered(a, b, ops, context).skip(0) =~= rendered(a, b, ops, context));
    assert(b.skip(0) =~= b);
}

proof fn lemma_others(a: Seq<Seq<char>>, b: Seq<Seq<char>>, ops: Seq<Op>, lo: int, hi: int)
    requires
        0 <= lo <= hi <= ops.len(),
    ensures
        others(window(a, b, ops, lo, hi), '+') == used_before(ops, hi) - used_before(ops, lo),
        others(window(a, b, ops, lo, hi), '-') == used_after(ops, hi) - used_after(ops, lo),
    decreases hi - lo,
{
    if lo < hi {
        lemma_others(a, b, ops, lo, hi - 1);
        assert(window(a, b, ops, lo, hi).drop_last() =~= window(a, b, ops, lo, hi - 1));
    }
}

/// Every hunk shows at least one changed line, and its line counts are those of
/// the lines it shows.
pub proof fn law_hunks_show_a_change_and_count_it(
    a: Seq<Seq<char>>,
    b: Seq<Seq<char>>,
    ops: Seq<Op>,
    context: int,
    i: int,
)
    requires
        context >= 0,
        0 <= i < rendered(a, b, ops, context).len(),
    ensures
        ({
            let h = rendered(a, b, ops, context)[i];
            &&& exists|l: int| 0 <= l < h.lines.len() && (#[trigger] h.lines[l])[0] != ' '
            &&& h.before_lines == others(h.lines, '+')
            &&& h.after_lines == others(h.lines, '-')
        }),
{
    let n = ops.len() as int;
    let g = groups(ops, context, n)[i];
    lemma_grouped(ops, context, n);
    let lo = first_shown(g, context);
    let hi = end_shown(ops, g, context);
    let h = rendered(a, b, ops, context)[i];
    assert(h.lines =~= window(a, b, ops, lo, hi));
    lemma_others(a, b, ops, lo, hi);
    assert(h.lines[g.0 - lo] == shown_line(a, b, ops, g.0));
    assert(h.lines[g.0 - lo][0] != ' ');
}

/// How many lines of both sides the first steps of a script use up.
fn positions(a: &[&str], b: &[&str], ops: &Vec<Op>) -> (r: (Vec<usize>, Vec<usize>))
    requires
        edit::edits(text::strs(a@), text::strs(b@), ops@),
    ensures
        r.0@.len() == ops@.len() + 1,
        r.1@.len() == ops@.len() + 1,
        forall|p: int| 0 <= p <= ops@.len() ==> #[trigger] r.0@[p] == used_before(ops@, p),
        forall|p: int| 0 <= p <= ops@.len() ==> #[trigger] r.1@[p] == used_after(ops@, p),
{
    let ghost aa = text::strs(a@);
    let ghost bb = text::strs(b@);
    let n: usize = a.len();
    let m: usize = b.len();
    let mut before: Vec<usize> = Vec::new();
    let mut after: Vec<usize> = Vec::new();
    let mut i: usize = 0;
    let mut j: usize = 0;
    before.push(i);
    after.push(j);
    let mut p: usize = 0;
    while p < ops.len()
        invariant
            aa == text::strs(a@),
            bb == text::strs(b@),
            n == a@.len(),
            m == b@.len(),
            edit::edits(aa, bb, ops@),
            p <= ops@.len(),
            i == used_before(ops@, p as int),
            j == used_after(ops@, p as int),
            before@.len() == p + 1,
            after@.len() == p + 1,
            forall|q: int| 0 <= q <= p ==> #[trigger] before@[q] == used_before(ops@, q),
            forall|q: int| 0 <= q <= p ==> #[trigger] after@[q] == used_after(ops@, q),
        decreases ops@.len() - p,
    {
        proof {
            lemma_positions(aa, bb, ops@, p as int);
        }
        match ops[p] {
            Op::Equal => {
                i += 1;
                j += 1;
            },
            Op::Delete => {
                i += 1;
            },
            Op::Insert => {
                j += 1;
            },
        }
        p += 1;
        before.push(i);
        after.push(j);
    }
    (before, after)
}

/// The groups of changed steps, as index pairs.
spec fn group_views(found: Seq<(usize, usize)>) -> Seq<(int, int)> {
    Seq::new(found.len(), |i: int| (found[i].0 as int, found[i].1 as int))
}

fn find_groups(ops: &Vec<Op>, context: usize) -> (found: Vec<(usize, usize)>)
    ensures
        group_views(found@) == groups(ops@, context as int, ops@.len() as int),
{
    let mut found: Vec<(usize, usize)> = Vec::new();
    let mut p: usize = 0;
    assert(group_views(found@) =~= groups(ops@, context as int, 0));
    while p < ops.len()
        invariant
            p <= ops@.len(),
            group_views(found@) == groups(ops@, context as int, p as int),
        decreases ops@.len() - p,
    {
        proof {
            lemma_grouped(ops@, context as int, p as int);
        }
        if ops[p] != Op::Equal {
            let ghost so_far = group_views(found@);
            let count: usize = found.len();
            let mut joins: bool = false;
            if count > 0 {
                let last: (usize, usize) = found[count - 1];
                assert(so_far[count - 1] == (last.0 as int, last.1 as int));
                joins = (p - last.1 - 1) as u128 <= 2 * (context as u128);
            }
            if joins {
                let last: (usize, usize) = found[count - 1];
                found.set(count - 1, (last.0, p));
                assert(group_views(found@) =~= so_far.update(count - 1, (so_far.last().0, p as int)));
            } else {
                found.push((p, p));
                assert(group_views(found@) =~= so_far.push((p as int, p as int)));
            }
        }
        p += 1;
    }
    found
}

/// The text shown for one step.
fn tagged(tag: &str, line: &str) -> (r: String)
    ensures
        r@ == tag@ + line@,
{
    tag.to_owned().concat(line)
}

/// The lines shown for the steps in `lo..hi`.
fn shown_lines(
    a: &[&str],
    b: &[&str],
    ops: &Vec<Op>,
    before: &Vec<usize>,
    after: &Vec<usize>,
    lo: usize,
    hi: usize,
) -> (lines: Vec<String>)
    requires
        edit::edits(text::strs(a@), text::strs(b@), ops@),
        lo <= hi <= ops@.len(),
        before@.len() == ops@.len() + 1,
        after@.len() == ops@.len() + 1,
        forall|p: int| 0 <= p <= ops@.len() ==> #[trigger] before@[p] == used_before(ops@, p),
        forall|p: int| 0 <= p <= ops@.len() ==> #[trigger] after@[p] == used_after(ops@, p),
    ensures
        text::texts(lines@) == window(text::strs(a@), text::strs(b@), ops@, lo as int, hi as int),
{
    let ghost aa = text::strs(a@);
    let ghost bb = text::strs(b@);
    proof {
        reveal_strlit(" ");
        reveal_strlit("-");
        reveal_strlit("+");
        assert(" "@ =~= seq![' ']);
        assert("-"@ =~= seq!['-']);
        assert("+"@ =~= seq!['+']);
    }
    let mut lines: Vec<String> = Vec::new();
    let mut p: usize = lo;
    assert(text::texts(lines@) =~= window(aa, bb, ops@, lo as int, lo as int));
    while p < hi
        invariant
            " "@ == seq![' '],
            "-"@ == seq!['-'],
            "+"@ == seq!['+'],
            aa == text::strs(a@),
            bb == text::strs(b@),
            edit::edits(aa, bb, ops@),
            lo <= p <= hi <= ops@.len(),
            before@.len() == ops@.len() + 1,
            after@.len() == ops@.len() + 1,
            forall|q: int| 0 <= q <= ops@.len() ==> #[trigger] before@[q] == used_before(ops@, q),
            forall|q: int| 0 <= q <= ops@.len() ==> #[trigger] after@[q] == used_after(ops@, q),
            text::texts(lines@) == window(aa, bb, ops@, lo as int, p as int),
        decreases hi - p,
    {
        proof {
            lemma_positions(aa, bb, ops@, p as int);
        }
        let i: usize = before[p];
        let j: usize = after[p];
        let line: String = match ops[p] {
            Op::Equal => tagged(" ", a[i]),
            Op::Delete => tagged("-", a[i]),
            Op::Insert => tagged("+", b[j]),
        };
        assert(line@ == shown_line(aa, bb, ops@, p as int));
        let ghost so_far = lines@;
        lines.push(line);
        p += 1;
        assert(text::texts(lines@) =~= text::texts(so_far).push(line@));
        assert(text::texts(lines@) =~= window(aa, bb, ops@, lo as int, p as int));
    }
    lines
}

/// Unified hunks with `context` unchanged lines around each change; changes
/// whose contexts touch are merged into one hunk.
pub fn hunks(a: &[&str], b: &[&str], context: usize) -> (r: Vec<Hunk>)
    ensures
        exists|ops: Seq<Op>| #[trigger]
            edit::shown(text::strs(a@), text::strs(b@), ops) && hunk_views(r@) == rendered(
                text::strs(a@),
                text::strs(b@),
                ops,
                context as int,
            ),
        patch(text::strs(a@), hunk_views(r@), 0) == Some(text::strs(b@)),
{
    let ghost aa = text::strs(a@);
    let ghost bb = text::strs(b@);
    let ops: Vec<Op> = edit::script(a, b);
    let (before, after) = positions(a, b, &ops);
    let found: Vec<(usize, usize)> = find_groups(&ops, context);
    let ghost all = groups(ops@, context as int, ops@.len() as int);
    proof {
        lemma_grouped(ops@, context as int, ops@.len() as int);
    }
    let mut out: Vec<Hunk> = Vec::new();
    let mut g: usize = 0;
    while g < found.len()
        invariant
            aa == text::strs(a@),
            bb == text::strs(b@),
            edit::edits(aa, bb, ops@),
            all == groups(ops@, context as int, ops@.len() as int),
            group_views(found@) == all,
            bounded(ops@, all, ops@.len() as int),
            before@.len() == ops@.len() + 1,
            after@.len() == ops@.len() + 1,
            forall|q: int| 0 <= q <= ops@.len() ==> #[trigger] before@[q] == used_before(ops@, q),
            forall|q: int| 0 <= q <= ops@.len() ==> #[trigger] after@[q] == used_after(ops@, q),
            g <= found@.len(),
            out@.len() == g,
            forall|i: int| 0 <= i < g ==> (#[trigger] out@[i])@ == hunk_of(aa, bb, ops@, all[i], context as int),
        decreases found@.len() - g,
    {
        let (start, end) = found[g];
        assert(all[g as int] == (start as int, end as int));
        let lo: usize = if start >= context {
            start - context
        } else {
            0
        };
        let hi: usize = if context < ops.len() - end {
            end + context + 1
        } else {
            ops.len()
        };
        proof {
            assert(lo == first_shown(all[g as int], context as int));
            assert(hi == end_shown(ops@, all[g as int], context as int));
            lemma_positions(aa, bb, ops@, lo as int);
            lemma_positions(aa, bb, ops@, hi as int);
            lemma_patch_window(aa, bb, ops@, lo as int, hi as int);
        }
        let before_lines: usize = before[hi] - before[lo];
        let after_lines: usize = after[hi] - after[lo];
        let before_start: usize = if before_lines > 0 {
            before[lo] + 1
        } else {
            before[lo]
        };
        let after_start: usize = if after_lines > 0 {
            after[lo] + 1
        } else {
            after[lo]
        };
        let lines: Vec<String> = shown_lines(a, b, &ops, &before, &after, lo, hi);
        let hunk = Hunk { before_start, before_lines, after_start, after_lines, lines };
        assert(hunk@.lines =~= hunk_of(aa, bb, ops@, all[g as int], context as int).lines);
        out.push(hunk);
        g += 1;
    }
    proof {
        assert(hunk_views(out@) =~= rendered(aa, bb, ops@, context as int));
        assert(edit::shown(aa, bb, ops@));
        law_hunks_reproduce_the_after_lines(aa, bb, ops@, context as int);
    }
    out
}

// ---------------------------------------------------------------------------
// Views
// ---------------------------------------------------------------------------

/// `String::from_utf8` of the standard library: the text whose UTF-8 encoding
/// the bytes are, or nothing where they are not the encoding of any text.
#[verifier::external_body]
pub(crate) fn utf8_text(bytes: Vec<u8>) -> (r: Option<String>)
    ensures
        match r {
            Some(text) => encode_utf8(text@) == bytes@,
            None => !valid_utf8(bytes@),
        },
{
    String::from_utf8(bytes).ok()
}

/// The two sides of a change as captured bytes; a side that does not exist has
/// none.
#[derive(Debug)]
pub struct Sides {
    pub before: Option<Vec<u8>>,
    pub after: Option<Vec<u8>>,
}

pub const BINARY_DIFF: &'static str = "binary diff cannot be verified by this bounded text runtime";

/// Whether a side is absent or holds text.
pub open spec fn textual(side: Option<Vec<u8>>) -> bool {
    side matches Some(bytes) ==> valid_utf8(bytes@)
}

/// The text of a side; an absent side is empty.
pub open spec fn side_text(side: Option<Vec<u8>>) -> Seq<char> {
    match side {
        Some(bytes) => decode_utf8(bytes@),
        None => Seq::empty(),
    }
}

/// The shape of the text of a side that exists.
pub open spec fn side_shape(side: Option<Vec<u8>>) -> Option<(int, bool)> {
    match side {
        Some(bytes) => Some(
            (
                lines_of(decode_utf8(bytes@)).len() as int,
                ends_in_newline(decode_utf8(bytes@)),
            ),
        ),
        None => None,
    }
}

/// The contents of an optional text shape.
pub open spec fn shape_view(shape: Option<TextShape>) -> Option<(int, bool)> {
    match shape {
        Some(s) => Some((s.lines as int, s.final_newline)),
        None => None,
    }
}

/// How a path changed.
pub open spec fn status_of(change: FileChange) -> ChangeStatus {
    match (change.before, change.after) {
        (None, None) => ChangeStatus::IgnoredMetadata,
        (None, Some(_)) => ChangeStatus::Added,
        (Some(_), None) => ChangeStatus::Deleted,
        (Some(b), Some(a)) => if b.content.hash@ == a.content.hash@ && b.content.bytes
            == a.content.bytes {
            ChangeStatus::ModeChanged
        } else {
            ChangeStatus::Modified
        },
    }
}

/// Whether `view` shows `change` with these contents: every line of the after
/// text follows from the before text and the hunks.
pub open spec fn shows(view: ChangeView, change: FileChange, sides: Sides) -> bool {
    let a = lines_of(side_text(sides.before));
    let b = lines_of(side_text(sides.after));
    &&& view.path == change.path
    &&& view.status == status_of(change)
    &&& shape_view(view.before) == side_shape(sides.before)
    &&& shape_view(view.after) == side_shape(sides.after)
    &&& view.ignored_before == change.before_ignored
    &&& view.ignored_after == change.after_ignored
    &&& patch(a, hunk_views(view.hunks@), 0) == Some(b)
    &&& exists|ops: Seq<Op>| #[trigger]
        edit::shown(a, b, ops) && hunk_views(view.hunks@) == rendered(
            a,
            b,
            ops,
            CONTEXT_LINES as int,
        )
}

fn side(bytes: Option<Vec<u8>>) -> (r: Result<Option<String>, Error>)
    ensures
        match r {
            Ok(text) => textual(bytes) && (text is Some <==> bytes is Some) && (text matches Some(t)
                ==> t@ == side_text(bytes)),
            Err(_) => !textual(bytes) && crate::error::refused(r, BINARY_DIFF@),
        },
{
    match bytes {
        Some(b) => match utf8_text(b) {
            Some(t) => {
                proof {
                    encode_utf8_valid_utf8(t@);
                    encode_utf8_decode_utf8(t@);
                }
                Ok(Some(t))
            },
            None => invalid(BINARY_DIFF),
        },
        None => Ok(None),
    }
}

fn status(change: &FileChange) -> (r: ChangeStatus)
    ensures
        r == status_of(*change),
{
    match (&change.before, &change.after) {
        (None, None) => ChangeStatus::IgnoredMetadata,
        (None, Some(_)) => ChangeStatus::Added,
        (Some(_), None) => ChangeStatus::Deleted,
        (Some(b), Some(a)) => {
            if b.content.hash == a.content.hash && b.content.bytes == a.content.bytes {
                ChangeStatus::ModeChanged
            } else {
                ChangeStatus::Modified
            }
        },
    }
}

/// The view of one change; refused where a side that exists is not text.
pub fn change_view(change: &FileChange, sides: Sides) -> (r: Result<ChangeView, Error>)
    ensures
        match r {
            Ok(view) => textual(sides.before) && textual(sides.after) && shows(view, *change, sides),
            Err(_) => !(textual(sides.before) && textual(sides.after)) && crate::error::refused(r, BINARY_DIFF@),
        },
{
    let before: Option<String> = match side(sides.before) {
        Ok(text) => text,
        Err(e) => return Err(e),
    };
    let after: Option<String> = match side(sides.after) {
        Ok(text) => text,
        Err(e) => return Err(e),
    };
    let empty: String = String::new();
    let before_text: &str = match &before {
        Some(t) => t.as_str(),
        None => empty.as_str(),
    };
    let after_text: &str = match &after {
        Some(t) => t.as_str(),
        None => empty.as_str(),
    };
    let (before_lines, before_newline) = split(before_text);
    let (after_lines, after_newline) = split(after_text);
    proof {
        assert(before_text@ =~= side_text(sides.before));
        assert(after_text@ =~= side_text(sides.after));
        assert(text::strs(before_lines@).len() == before_lines@.len());
        assert(text::strs(after_lines@).len() == after_lines@.len());
    }
    let hunks: Vec<Hunk> = hunks(before_lines.as_slice(), after_lines.as_slice(), CONTEXT_LINES);
    Ok(
        ChangeView {
            path: change.path.clone(),
            status: status(change),
            before: match &before {
                Some(_) => Some(
                    TextShape { lines: before_lines.len(), final_newline: before_newline },
                ),
                None => None,
            },
            after: match &after {
                Some(_) => Some(
                    TextShape { lines: after_lines.len(), final_newline: after_newline },
                ),
                None => None,
            },
            hunks,
            ignored_before: change.before_ignored.clone(),
            ignored_after: change.after_ignored.clone(),
        },
    )
}

/// What a manifest records of one changed path: it is bound by its after
/// state, or by its before state where it was deleted.
pub open spec fn change_source(change: FileChange) -> SuppliedSource {
    SuppliedSource {
        path: change.path,
        kind: SuppliedKind::Diff,
        start_line: None,
        end_line: None,
        content_hash: match (change.after, change.before) {
            (Some(f), _) => Some(f.content.hash),
            (None, Some(f)) => Some(f.content.hash),
            (None, None) => None,
        },
        truncated: false,
    }
}

fn hash_of(state: &Option<FileState>) -> (r: Option<String>)
    ensures
        r == match *state {
            Some(f) => Some(f.content.hash),
            None => None,
        },
{
    match state {
        Some(f) => Some(f.content.hash.clone()),
        None => None,
    }
}

/// The views of all changes of a captured transition and the paths they carry;
/// refused where any side is not text.
pub fn view(changes: &Vec<FileChange>, contents: Vec<Sides>) -> (r: Result<
    (Vec<ChangeView>, Vec<SuppliedSource>),
    Error,
>)
    requires
        changes@.len() == contents@.len(),
    ensures
        match r {
            Ok((views, paths)) => {
                &&& views@.len() == changes@.len()
                &&& paths@.len() == changes@.len()
                &&& forall|i: int|
                    0 <= i < changes@.len() ==> textual((#[trigger] contents@[i]).before) && textual(
                        contents@[i].after,
                    ) && shows(views@[i], changes@[i], contents@[i])
                &&& forall|i: int|
                    0 <= i < changes@.len() ==> #[trigger] paths@[i] == change_source(changes@[i])
            },
            Err(_) => crate::error::refused(r, BINARY_DIFF@) && exists|i: int|
                0 <= i < contents@.len() && !(textual((#[trigger] contents@[i]).before) && textual(
                    contents@[i].after,
                )),
        },
{
    let mut paths: Vec<SuppliedSource> = Vec::new();
    let mut views: Vec<ChangeView> = Vec::new();
    let ghost all = contents@;
    let mut remaining: Vec<Sides> = contents;
    let mut i: usize = 0;
    while i < changes.len()
        invariant
            i <= changes@.len(),
            all == contents@,
            all.len() == changes@.len(),
            remaining@ == all.skip(i as int),
            views@.len() == i,
            paths@.len() == i,
            forall|j: int|
                0 <= j < i ==> textual((#[trigger] all[j]).before) && textual(all[j].after) && shows(
                    views@[j],
                    changes@[j],
                    all[j],
                ),
            forall|j: int| 0 <= j < i ==> #[trigger] paths@[j] == change_source(changes@[j]),
        decreases changes@.len() - i,
    {
        let sides: Sides = remaining.remove(0);
        assert(sides == all[i as int]);
        assert(remaining@ =~= all.skip(i + 1));
        let change: &FileChange = &changes[i];
        paths.push(
            SuppliedSource {
                path: change.path.clone(),
                kind: SuppliedKind::Diff,
                start_line: None,
                end_line: None,
                content_hash: match &change.after {
                    Some(f) => Some(f.content.hash.clone()),
                    None => hash_of(&change.before),
                },
                truncated: false,
            },
        );
        match change_view(change, sides) {
            Ok(shown) => {
                views.push(shown);
            },
            Err(e) => {
                assert(!(textual(contents@[i as int].before) && textual(contents@[i as int].after)));
                return Err(e);
            },
        }
        i += 1;
    }
    Ok((views, paths))
}

pub const DIFF_TOO_LARGE: &'static str = "exact diff exceeds 128 KiB verifier context; split/replan task";

/// Whether an expanded diff view of this size may be shown: it is never cut.
pub fn check_size(view_bytes: usize) -> (r: Result<(), Error>)
    ensures
        r is Ok <==> view_bytes <= MAX_DIFF_VIEW_BYTES,
        r is Err ==> crate::error::refused(r, DIFF_TOO_LARGE@),
{
    if view_bytes <= MAX_DIFF_VIEW_BYTES {
        Ok(())
    } else {
        invalid(DIFF_TOO_LARGE)
    }
}

/// A change is named by what there was and what there is: added where there was nothing,
/// deleted where there is nothing, changed in its mode where the content is the same, and
/// modified where it is not.
pub proof fn law_changes_are_named_by_their_sides(change: FileChange)
    ensures
        ({
            let same = change.before is Some && change.after is Some
                && change.before->0.content.hash@ == change.after->0.content.hash@
                && change.before->0.content.bytes == change.after->0.content.bytes;
            let status = status_of(change);
            &&& status == ChangeStatus::Added <==> change.before is None && change.after is Some
            &&& status == ChangeStatus::Deleted <==> change.before is Some && change.after is None
            &&& status == ChangeStatus::IgnoredMetadata <==> change.before is None
                && change.after is None
            &&& status == ChangeStatus::ModeChanged <==> same
            &&& status == ChangeStatus::Modified <==> change.before is Some && change.after is Some
                && !same
        }),
{
}

} // verus!
