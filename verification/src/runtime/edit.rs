//! Line edit scripts: what turns one sequence of lines into another, how
//! short such a script can be, and a bounded search for a shortest one.
use crate::text;
use vstd::prelude::*;

verus! {

/// One step of an edit script over two line sequences.
#[derive(Debug, Clone, Copy, PartialEq, Eq, Structural)]
pub enum Op {
    /// The next line of both sides is the same and is kept.
    Equal,
    /// The next line of the first side is dropped.
    Delete,
    /// The next line of the second side is added.
    Insert,
}

/// Whether `ops` turns what is left of `a` after `i` lines into what is left
/// of `b` after `j` lines.
pub open spec fn edits_from(
    a: Seq<Seq<char>>,
    b: Seq<Seq<char>>,
    ops: Seq<Op>,
    i: int,
    j: int,
) -> bool
    decreases ops.len(),
{
    if ops.len() == 0 {
        i == a.len() && j == b.len()
    } else {
        match ops[0] {
            Op::Equal => 0 <= i < a.len() && 0 <= j < b.len() && a[i] == b[j] && edits_from(
                a,
                b,
                ops.drop_first(),
                i + 1,
                j + 1,
            ),
            Op::Delete => 0 <= i < a.len() && edits_from(a, b, ops.drop_first(), i + 1, j),
            Op::Insert => 0 <= j < b.len() && edits_from(a, b, ops.drop_first(), i, j + 1),
        }
    }
}

/// Whether `ops` turns `a` into `b`.
pub open spec fn edits(a: Seq<Seq<char>>, b: Seq<Seq<char>>, ops: Seq<Op>) -> bool {
    edits_from(a, b, ops, 0, 0)
}

/// The number of lines a script drops or adds.
pub open spec fn cost(ops: Seq<Op>) -> nat
    decreases ops.len(),
{
    if ops.len() == 0 {
        0
    } else {
        cost(ops.drop_first()) + if ops[0] == Op::Equal {
            0nat
        } else {
            1
        }
    }
}

/// Whether `ops` turns `a` into `b` and no script with fewer changed lines does.
pub open spec fn shortest(a: Seq<Seq<char>>, b: Seq<Seq<char>>, ops: Seq<Op>) -> bool {
    &&& edits(a, b, ops)
    &&& forall|other: Seq<Op>| #[trigger] edits(a, b, other) ==> cost(ops) <= cost(other)
}

// ---------------------------------------------------------------------------
// Reachability on the edit grid, extended past both ends by plain steps.
// ---------------------------------------------------------------------------

/// Whether the grid point (`x`, `y`) can be reached from the origin with
/// exactly `d` changed lines. Beyond the ends of `a` and `b` only changed lines
/// lead on.
spec fn reaches(a: Seq<Seq<char>>, b: Seq<Seq<char>>, d: int, x: int, y: int) -> bool
    decreases x + y,
{
    if x < 0 || y < 0 || d < 0 {
        false
    } else if x == 0 && y == 0 {
        d == 0
    } else {
        ||| (x > 0 && y > 0 && x <= a.len() && y <= b.len() && a[x - 1] == b[y - 1] && reaches(
            a,
            b,
            d,
            x - 1,
            y - 1,
        ))
        ||| (x > 0 && reaches(a, b, d - 1, x - 1, y))
        ||| (y > 0 && reaches(a, b, d - 1, x, y - 1))
    }
}

/// Where the run of equal lines that starts at (`x`, `x - k`) ends.
pub open spec fn slide(a: Seq<Seq<char>>, b: Seq<Seq<char>>, k: int, x: int) -> int
    decreases a.len() - x,
{
    if 0 <= x < a.len() && 0 <= x - k < b.len() && a[x] == b[x - k] {
        slide(a, b, k, x + 1)
    } else {
        x
    }
}

/// The furthest point of diagonal `k` that `d` changed lines lead to.
pub open spec fn furthest(a: Seq<Seq<char>>, b: Seq<Seq<char>>, d: int, k: int) -> int
    decreases d, 2int,
{
    if d <= 0 {
        slide(a, b, 0, 0)
    } else {
        slide(a, b, k, from(a, b, d, k))
    }
}

/// Where diagonal `k` is entered by the `d`-th changed line.
pub open spec fn from(a: Seq<Seq<char>>, b: Seq<Seq<char>>, d: int, k: int) -> int
    decreases d, 1int,
    when d > 0
{
    if by_insert(a, b, d, k) {
        furthest(a, b, d - 1, k + 1)
    } else {
        furthest(a, b, d - 1, k - 1) + 1
    }
}

/// Whether the `d`-th changed line on the way to diagonal `k` is an added one.
pub open spec fn by_insert(a: Seq<Seq<char>>, b: Seq<Seq<char>>, d: int, k: int) -> bool
    decreases d, 0int,
    when d > 0
{
    k == -d || (k != d && furthest(a, b, d - 1, k - 1) < furthest(a, b, d - 1, k + 1))
}

/// The steps that lead to the furthest point of diagonal `k` with `d` changed
/// lines, traced back: the way to the diagonal it was entered from, the changed
/// line that entered it, and the run of equal lines behind that.
pub open spec fn traced(a: Seq<Seq<char>>, b: Seq<Seq<char>>, d: int, k: int) -> Seq<Op>
    decreases d,
{
    if d <= 0 {
        equals(slide(a, b, 0, 0) as nat)
    } else {
        let kept = equals((furthest(a, b, d, k) - from(a, b, d, k)) as nat);
        if by_insert(a, b, d, k) {
            traced(a, b, d - 1, k + 1) + (seq![Op::Insert] + kept)
        } else {
            traced(a, b, d - 1, k - 1) + (seq![Op::Delete] + kept)
        }
    }
}

/// Whether `ops` is the shortest script from `a` to `b` that the furthest-reaching
/// walk traces back. Of several shortest scripts, this is one.
pub open spec fn walked(a: Seq<Seq<char>>, b: Seq<Seq<char>>, ops: Seq<Op>) -> bool {
    &&& shortest(a, b, ops)
    &&& ops == traced(a, b, cost(ops) as int, a.len() - b.len())
}

/// Diagonals that exactly `d` changed lines can lead to.
spec fn on(d: int, k: int) -> bool {
    -d <= k <= d && (d - k) % 2 == 0
}

/// Whether the lines at point `i` of diagonal `k` are equal.
spec fn level(a: Seq<Seq<char>>, b: Seq<Seq<char>>, k: int, i: int) -> bool {
    0 <= i < a.len() && 0 <= i - k < b.len() && a[i] == b[i - k]
}

/// Whether all lines of diagonal `k` from `lo` up to `hi` are equal.
spec fn run(a: Seq<Seq<char>>, b: Seq<Seq<char>>, k: int, lo: int, hi: int) -> bool {
    forall|i: int| lo <= i < hi ==> #[trigger] level(a, b, k, i)
}

proof fn lemma_slide(a: Seq<Seq<char>>, b: Seq<Seq<char>>, k: int, x: int)
    ensures
        slide(a, b, k, x) >= x,
        slide(a, b, k, x) == x || (slide(a, b, k, x) <= a.len() && slide(a, b, k, x) - k <= b.len()),
        ({
            let e = slide(a, b, k, x);
            !(0 <= e < a.len() && 0 <= e - k < b.len() && a[e] == b[e - k])
        }),
        run(a, b, k, x, slide(a, b, k, x)),
    decreases a.len() - x,
{
    if 0 <= x < a.len() && 0 <= x - k < b.len() && a[x] == b[x - k] {
        lemma_slide(a, b, k, x + 1);
    }
}

proof fn lemma_slide_reaches(a: Seq<Seq<char>>, b: Seq<Seq<char>>, d: int, k: int, x: int)
    requires
        reaches(a, b, d, x, x - k),
    ensures
        reaches(a, b, d, slide(a, b, k, x), slide(a, b, k, x) - k),
    decreases a.len() - x,
{
    if 0 <= x < a.len() && 0 <= x - k < b.len() && a[x] == b[x - k] {
        assert(reaches(a, b, d, x + 1, x + 1 - k));
        lemma_slide_reaches(a, b, d, k, x + 1);
    }
}

/// The furthest point is reached.
proof fn lemma_furthest_reached(a: Seq<Seq<char>>, b: Seq<Seq<char>>, d: int, k: int)
    requires
        d >= 0,
        on(d, k),
    ensures
        reaches(a, b, d, furthest(a, b, d, k), furthest(a, b, d, k) - k),
        d > 0 ==> reaches(a, b, d, from(a, b, d, k), from(a, b, d, k) - k),
        d > 0 && by_insert(a, b, d, k) ==> on(d - 1, k + 1),
        d > 0 && !by_insert(a, b, d, k) ==> on(d - 1, k - 1),
        furthest(a, b, d, k) >= 0,
        furthest(a, b, d, k) >= k,
    decreases d,
{
    if d == 0 {
        assert(reaches(a, b, 0, 0, 0));
        lemma_slide_reaches(a, b, 0, 0, 0);
        lemma_slide(a, b, 0, 0);
    } else {
        if by_insert(a, b, d, k) {
            assert(on(d - 1, k + 1));
            lemma_furthest_reached(a, b, d - 1, k + 1);
            let x = furthest(a, b, d - 1, k + 1);
            assert(reaches(a, b, d - 1, x, x - (k + 1)));
            assert(reaches(a, b, d, x, x - k));
        } else {
            assert(on(d - 1, k - 1));
            lemma_furthest_reached(a, b, d - 1, k - 1);
            let x = furthest(a, b, d - 1, k - 1);
            assert(reaches(a, b, d - 1, x, x - (k - 1)));
            assert(reaches(a, b, d, x + 1, x + 1 - k));
        }
        lemma_slide_reaches(a, b, d, k, from(a, b, d, k));
        lemma_slide(a, b, k, from(a, b, d, k));
    }
}

/// Nothing that `d` changed lines reach lies beyond the furthest point.
proof fn lemma_furthest_bounds(a: Seq<Seq<char>>, b: Seq<Seq<char>>, d: int, x: int, y: int)
    requires
        reaches(a, b, d, x, y),
    ensures
        on(d, x - y),
        x <= furthest(a, b, d, x - y),
    decreases x + y,
{
    let k = x - y;
    if x == 0 && y == 0 {
        lemma_slide(a, b, 0, 0);
    } else if x > 0 && y > 0 && x <= a.len() && y <= b.len() && a[x - 1] == b[y - 1] && reaches(
        a,
        b,
        d,
        x - 1,
        y - 1,
    ) {
        lemma_furthest_bounds(a, b, d, x - 1, y - 1);
        let e = furthest(a, b, d, k);
        if d == 0 {
            lemma_slide(a, b, 0, 0);
        } else {
            lemma_slide(a, b, k, from(a, b, d, k));
        }
        if x - 1 == e {
            assert(a[e] == b[e - k]);
        }
    } else if x > 0 && reaches(a, b, d - 1, x - 1, y) {
        lemma_furthest_bounds(a, b, d - 1, x - 1, y);
        if k < d - 1 {
            assert(on(d, k));
        }
        lemma_slide(a, b, k, from(a, b, d, k));
    } else {
        lemma_furthest_bounds(a, b, d - 1, x, y - 1);
        lemma_slide(a, b, k, from(a, b, d, k));
    }
}

/// A point past the end of `b` is reached through the end of `b`.
proof fn lemma_clip_below(a: Seq<Seq<char>>, b: Seq<Seq<char>>, d: int, x: int, y: int)
    requires
        reaches(a, b, d, x, y),
        y > b.len(),
    ensures
        reaches(a, b, d - (y - b.len()), x, b.len() as int),
    decreases x + y,
{
    let m = b.len() as int;
    if x > 0 && reaches(a, b, d - 1, x - 1, y) {
        lemma_clip_below(a, b, d - 1, x - 1, y);
        assert(reaches(a, b, d - 1 - (y - m), x - 1, m));
        assert(reaches(a, b, d - (y - m), x, m));
    } else {
        assert(reaches(a, b, d - 1, x, y - 1));
        if y - 1 > m {
            lemma_clip_below(a, b, d - 1, x, y - 1);
        }
    }
}

/// A point past the end of `a` is reached through the end of `a`.
proof fn lemma_clip_right(a: Seq<Seq<char>>, b: Seq<Seq<char>>, d: int, x: int, y: int)
    requires
        reaches(a, b, d, x, y),
        x > a.len(),
    ensures
        reaches(a, b, d - (x - a.len()), a.len() as int, y),
    decreases x + y,
{
    let n = a.len() as int;
    if y > 0 && reaches(a, b, d - 1, x, y - 1) {
        lemma_clip_right(a, b, d - 1, x, y - 1);
        assert(reaches(a, b, d - 1 - (x - n), n, y - 1));
        assert(reaches(a, b, d - (x - n), n, y));
    } else {
        assert(reaches(a, b, d - 1, x - 1, y));
        if x - 1 > n {
            lemma_clip_right(a, b, d - 1, x - 1, y);
        }
    }
}

proof fn lemma_clip(a: Seq<Seq<char>>, b: Seq<Seq<char>>, d: int, x: int, y: int)
    requires
        reaches(a, b, d, x, y),
        x >= a.len(),
        y >= b.len(),
    ensures
        reaches(a, b, d - (x - a.len()) - (y - b.len()), a.len() as int, b.len() as int),
{
    if x > a.len() {
        lemma_clip_right(a, b, d, x, y);
    }
    if y > b.len() {
        lemma_clip_below(a, b, d - (x - a.len()), a.len() as int, y);
    }
}

/// Every script is a way across the grid.
proof fn lemma_script_reaches(
    a: Seq<Seq<char>>,
    b: Seq<Seq<char>>,
    ops: Seq<Op>,
    d: int,
    i: int,
    j: int,
)
    requires
        reaches(a, b, d, i, j),
        edits_from(a, b, ops, i, j),
    ensures
        reaches(a, b, d + cost(ops), a.len() as int, b.len() as int),
    decreases ops.len(),
{
    if ops.len() > 0 {
        match ops[0] {
            Op::Equal => {
                assert(reaches(a, b, d, i + 1, j + 1));
                lemma_script_reaches(a, b, ops.drop_first(), d, i + 1, j + 1);
            },
            Op::Delete => {
                assert(reaches(a, b, d + 1, i + 1, j));
                lemma_script_reaches(a, b, ops.drop_first(), d + 1, i + 1, j);
            },
            Op::Insert => {
                assert(reaches(a, b, d + 1, i, j + 1));
                lemma_script_reaches(a, b, ops.drop_first(), d + 1, i, j + 1);
            },
        }
    }
}

proof fn lemma_axis_reached(a: Seq<Seq<char>>, b: Seq<Seq<char>>, x: int)
    requires
        x >= 0,
    ensures
        reaches(a, b, x, x, 0),
    decreases x,
{
    if x > 0 {
        lemma_axis_reached(a, b, x - 1);
    }
}

/// Dropping everything and adding everything always works.
proof fn lemma_corner_reached(a: Seq<Seq<char>>, b: Seq<Seq<char>>, x: int, y: int)
    requires
        x >= 0,
        y >= 0,
    ensures
        reaches(a, b, x + y, x, y),
    decreases y,
{
    if y == 0 {
        lemma_axis_reached(a, b, x);
    } else {
        lemma_corner_reached(a, b, x, y - 1);
    }
}

proof fn lemma_furthest_small(a: Seq<Seq<char>>, b: Seq<Seq<char>>, d: int, k: int)
    requires
        d >= 0,
        on(d, k),
    ensures
        furthest(a, b, d, k) <= a.len() + d,
    decreases d,
{
    if d == 0 {
        lemma_slide(a, b, 0, 0);
    } else {
        lemma_furthest_reached(a, b, d, k);
        if by_insert(a, b, d, k) {
            lemma_furthest_small(a, b, d - 1, k + 1);
        } else {
            lemma_furthest_small(a, b, d - 1, k - 1);
        }
        lemma_slide(a, b, k, from(a, b, d, k));
    }
}

/// Whether diagonal `k` has passed both ends after `d` changed lines.
spec fn across(a: Seq<Seq<char>>, b: Seq<Seq<char>>, d: int, k: int) -> bool {
    furthest(a, b, d, k) >= a.len() && furthest(a, b, d, k) - k >= b.len()
}

/// While no diagonal is across, no script as short exists.
proof fn lemma_not_across(a: Seq<Seq<char>>, b: Seq<Seq<char>>, d: int, ops: Seq<Op>)
    requires
        forall|e: int, k: int| 0 <= e < d && on(e, k) ==> !#[trigger] across(a, b, e, k),
        edits(a, b, ops),
    ensures
        cost(ops) >= d,
{
    if cost(ops) < d {
        let e = cost(ops) as int;
        assert(reaches(a, b, 0, 0, 0));
        lemma_script_reaches(a, b, ops, 0, 0, 0);
        lemma_furthest_bounds(a, b, e, a.len() as int, b.len() as int);
        assert(across(a, b, e, a.len() - b.len()));
    }
}

/// The first diagonal to be across ends exactly at the far corner.
proof fn lemma_first_across(a: Seq<Seq<char>>, b: Seq<Seq<char>>, d: int, k: int)
    requires
        d >= 0,
        on(d, k),
        across(a, b, d, k),
        forall|e: int, l: int| 0 <= e < d && on(e, l) ==> !#[trigger] across(a, b, e, l),
    ensures
        k == a.len() - b.len(),
        furthest(a, b, d, k) == a.len(),
{
    let x = furthest(a, b, d, k);
    lemma_furthest_reached(a, b, d, k);
    lemma_clip(a, b, d, x, x - k);
    let e = d - (x - a.len()) - (x - k - b.len());
    lemma_furthest_bounds(a, b, e, a.len() as int, b.len() as int);
    if e < d {
        assert(across(a, b, e, a.len() - b.len()));
    }
}

/// What a search remembers of the state before each number of changed lines.
spec fn recorded(a: Seq<Seq<char>>, b: Seq<Seq<char>>, d: int, row: Seq<i128>) -> bool {
    &&& row.len() == 2 * d + 3
    &&& d == 0 ==> row[2] == 0
    &&& forall|k: int| on(d - 1, k) ==> #[trigger] row[k + d + 1] == furthest(a, b, d - 1, k)
}

/// The end of the run of equal lines on diagonal `k` from `start`.
fn slid(a: &[&str], b: &[&str], k: i128, start: i128) -> (x: i128)
    requires
        0 <= start <= 0x1_0000_0000_0000_0000_0000,
        -0x1_0000_0000_0000_0000_0000 <= k <= start,
    ensures
        x == slide(text::strs(a@), text::strs(b@), k as int, start as int),
{
    let n: i128 = a.len() as i128;
    let m: i128 = b.len() as i128;
    let mut x: i128 = start;
    while x < n && x - k < m && text::same(a[x as usize], b[(x - k) as usize])
        invariant
            n == a@.len(),
            m == b@.len(),
            n <= usize::MAX,
            m <= usize::MAX,
            0 <= start <= x <= 0x1_0000_0000_0000_0000_0000 + n,
            start <= 0x1_0000_0000_0000_0000_0000,
            -0x1_0000_0000_0000_0000_0000 <= k <= start,
            slide(text::strs(a@), text::strs(b@), k as int, x as int) == slide(
                text::strs(a@),
                text::strs(b@),
                k as int,
                start as int,
            ),
        decreases n - x,
    {
        x += 1;
    }
    x
}

/// `c` kept lines.
pub open spec fn equals(c: nat) -> Seq<Op> {
    Seq::new(c, |i: int| Op::Equal)
}

/// A run of equal lines can be put in front of a script.
proof fn lemma_keep(a: Seq<Seq<char>>, b: Seq<Seq<char>>, ops: Seq<Op>, x: int, y: int, c: nat)
    requires
        edits_from(a, b, ops, x, y),
        run(a, b, x - y, x - c, x),
    ensures
        edits_from(a, b, equals(c) + ops, x - c, y - c),
        cost(equals(c) + ops) == cost(ops),
    decreases c,
{
    if c == 0 {
        assert(equals(c) + ops =~= ops);
    } else {
        let c1 = (c - 1) as nat;
        lemma_keep(a, b, ops, x, y, c1);
        assert((equals(c) + ops).drop_first() =~= equals(c1) + ops);
        assert(level(a, b, x - y, x - c));
    }
}

/// Appends `c` kept lines.
fn push_equal(back: &mut Vec<Op>, c: i128)
    requires
        0 <= c,
    ensures
        final(back)@.reverse() == equals(c as nat) + old(back)@.reverse(),
{
    let ghost start = back@;
    let mut i: i128 = 0;
    while i < c
        invariant
            0 <= i <= c,
            back@ == start + equals(i as nat),
        decreases c - i,
    {
        back.push(Op::Equal);
        i += 1;
        assert(back@ =~= start + equals(i as nat));
    }
    assert(back@.reverse() =~= equals(c as nat) + start.reverse());
}

/// One changed line back from a furthest point, together with the run of
/// equal lines behind it.
proof fn lemma_step_back(
    a: Seq<Seq<char>>,
    b: Seq<Seq<char>>,
    ops: Seq<Op>,
    d: int,
    x: int,
    y: int,
)
    requires
        d > 0,
        on(d, x - y),
        x == furthest(a, b, d, x - y),
        edits_from(a, b, ops, x, y),
    ensures
        ({
            let k = x - y;
            let insert = by_insert(a, b, d, k);
            let start = from(a, b, d, k);
            let px = if insert { start } else { start - 1 };
            let pk = if insert { k + 1 } else { k - 1 };
            let op = if insert { Op::Insert } else { Op::Delete };
            let longer = seq![op] + (equals((x - start) as nat) + ops);
            &&& x >= start
            &&& on(d - 1, pk)
            &&& px == furthest(a, b, d - 1, pk)
            &&& edits_from(a, b, longer, px, px - pk)
            &&& cost(longer) == cost(ops) + 1
        }),
{
    let k = x - y;
    let start = from(a, b, d, k);
    lemma_furthest_reached(a, b, d, k);
    lemma_slide(a, b, k, start);
    let c = (x - start) as nat;
    lemma_keep(a, b, ops, x, y, c);
    let kept = equals(c) + ops;
    let insert = by_insert(a, b, d, k);
    let px = if insert { start } else { start - 1 };
    let pk = if insert { k + 1 } else { k - 1 };
    let op = if insert { Op::Insert } else { Op::Delete };
    let longer = seq![op] + kept;
    assert(longer.drop_first() =~= kept);
    assert(longer[0] == op);
    lemma_furthest_reached(a, b, d - 1, pk);
    lemma_inside(a, b, kept, start, start - k);
    if insert {
        assert(edits_from(a, b, longer, px, px - pk));
    } else {
        assert(edits_from(a, b, longer, px, px - pk));
    }
}

/// A script can only start inside the grid.
pub proof fn lemma_inside(a: Seq<Seq<char>>, b: Seq<Seq<char>>, ops: Seq<Op>, i: int, j: int)
    requires
        edits_from(a, b, ops, i, j),
    ensures
        i <= a.len(),
        j <= b.len(),
    decreases ops.len(),
{
    if ops.len() > 0 {
        match ops[0] {
            Op::Equal => {},
            Op::Delete => lemma_inside(a, b, ops.drop_first(), i + 1, j),
            Op::Insert => lemma_inside(a, b, ops.drop_first(), i, j + 1),
        }
    }
}

/// How the furthest point (`x`, `y`) was entered: whether by an added line,
/// and from which `x`.
fn came_from(a: &[&str], b: &[&str], row: &Vec<i128>, d: usize, x: i128, y: i128) -> (r: (bool, i128))
    requires
        d > 0,
        0 <= x <= 0x1_0000_0000_0000_0000_0000,
        0 <= y <= 0x1_0000_0000_0000_0000_0000,
        on(d as int, x - y),
        recorded(text::strs(a@), text::strs(b@), d as int, row@),
    ensures
        r.0 == by_insert(text::strs(a@), text::strs(b@), d as int, x - y),
        r.1 == furthest(text::strs(a@), text::strs(b@), d - 1, if r.0 {
            x - y + 1
        } else {
            x - y - 1
        }),
{
    let ghost aa = text::strs(a@);
    let ghost bb = text::strs(b@);
    let width: usize = row.len();
    let e: i128 = d as i128;
    let k: i128 = x - y;
    proof {
        if k > -d {
            assert(on(d - 1, k - 1));
            assert(row@[(k - 1) + d + 1] == furthest(aa, bb, d - 1, k - 1));
        }
        if k < d {
            assert(on(d - 1, k + 1));
            assert(row@[(k + 1) + d + 1] == furthest(aa, bb, d - 1, k + 1));
        }
    }
    if k == -e || (k != e && row[(k + e) as usize] < row[(k + e + 2) as usize]) {
        (true, row[(k + e + 2) as usize])
    } else {
        (false, row[(k + e) as usize])
    }
}

/// The script that a finished search stands for, read back from its record.
fn backtrack(a: &[&str], b: &[&str], trace: &Vec<Vec<i128>>) -> (ops: Vec<Op>)
    requires
        trace@.len() >= 1,
        on(trace@.len() - 1, a@.len() - b@.len()),
        furthest(text::strs(a@), text::strs(b@), trace@.len() - 1, a@.len() - b@.len()) == a@.len(),
        forall|d: int|
            0 <= d < trace@.len() ==> recorded(
                text::strs(a@),
                text::strs(b@),
                d,
                (#[trigger] trace@[d])@,
            ),
    ensures
        edits(text::strs(a@), text::strs(b@), ops@),
        cost(ops@) == trace@.len() - 1,
        ops@ == traced(
            text::strs(a@),
            text::strs(b@),
            trace@.len() - 1,
            a@.len() - b@.len(),
        ),
{
    let ghost aa = text::strs(a@);
    let ghost bb = text::strs(b@);
    let mut x: i128 = a.len() as i128;
    let mut y: i128 = b.len() as i128;
    let mut back: Vec<Op> = Vec::new();
    let mut d: usize = trace.len() - 1;
    let ghost all = traced(aa, bb, d as int, a@.len() - b@.len());
    assert(all + back@.reverse() =~= all);
    while d > 0
        invariant
            aa == text::strs(a@),
            bb == text::strs(b@),
            d < trace@.len(),
            forall|e: int| 0 <= e < trace@.len() ==> recorded(aa, bb, e, (#[trigger] trace@[e])@),
            0 <= x <= 0x1_0000_0000_0000_0000,
            0 <= y <= 0x1_0000_0000_0000_0000,
            on(d as int, x - y),
            x == furthest(aa, bb, d as int, x - y),
            edits_from(aa, bb, back@.reverse(), x as int, y as int),
            cost(back@.reverse()) == trace@.len() - 1 - d,
            all == traced(aa, bb, d as int, x - y) + back@.reverse(),
        decreases d,
    {
        let ghost held = back@.reverse();
        proof {
            lemma_step_back(aa, bb, held, d as int, x as int, y as int);
        }
        let (insert, prev_x) = came_from(a, b, &trace[d], d, x, y);
        proof {
            lemma_furthest_reached(aa, bb, d - 1, if insert {
                x - y + 1
            } else {
                x - y - 1
            });
        }
        let start: i128 = if insert {
            prev_x
        } else {
            prev_x + 1
        };
        let kept: i128 = x - start;
        push_equal(&mut back, kept);
        let op: Op = if insert {
            Op::Insert
        } else {
            Op::Delete
        };
        let ghost before = back@.reverse();
        back.push(op);
        proof {
            assert(back@.reverse() =~= seq![op] + before);
        }
        let prev_y: i128 = if insert {
            y - kept - 1
        } else {
            y - kept
        };
        proof {
            let k = x - y;
            let pk = if insert { k + 1 } else { k - 1 };
            let run = equals(kept as nat);
            assert(back@.reverse() =~= (seq![op] + run) + held);
            assert(traced(aa, bb, d as int, k) == traced(aa, bb, d - 1, pk) + (seq![op] + run));
            assert(all =~= traced(aa, bb, d - 1, pk) + back@.reverse());
        }
        x = prev_x;
        y = prev_y;
        d -= 1;
    }
    proof {
        lemma_slide(aa, bb, 0, 0);
        lemma_keep(aa, bb, back@.reverse(), x as int, y as int, x as nat);
    }
    push_equal(&mut back, x);
    reversed(&back)
}

/// The steps in the opposite order.
fn reversed(ops: &Vec<Op>) -> (r: Vec<Op>)
    ensures
        r@ == ops@.reverse(),
{
    let mut out: Vec<Op> = Vec::new();
    let mut i: usize = ops.len();
    while i > 0
        invariant
            i <= ops@.len(),
            out@.len() == ops@.len() - i,
            forall|j: int| 0 <= j < out@.len() ==> #[trigger] out@[j] == ops@[ops@.len() - 1 - j],
        decreases i,
    {
        i -= 1;
        out.push(ops[i]);
    }
    assert(out@ =~= ops@.reverse());
    out
}

/// State of a search: the furthest point of each diagonal, shifted by `limit + 1`.
spec fn frontier(
    a: Seq<Seq<char>>,
    b: Seq<Seq<char>>,
    limit: int,
    v: Seq<i128>,
    d: int,
) -> bool {
    &&& v.len() == 2 * limit + 3
    &&& d == -1 ==> v[limit + 2] == 0
    &&& forall|k: int| on(d, k) ==> #[trigger] v[k + limit + 1] == furthest(a, b, d, k)
}

/// The part of the state that `d` changed lines can look at.
fn band(a: &[&str], b: &[&str], v: &Vec<i128>, limit: usize, d: usize) -> (row: Vec<i128>)
    requires
        d <= limit,
        2 * limit + 3 <= usize::MAX,
        frontier(text::strs(a@), text::strs(b@), limit as int, v@, d - 1),
    ensures
        recorded(text::strs(a@), text::strs(b@), d as int, row@),
{
    let mut row: Vec<i128> = Vec::new();
    let lo: usize = limit - d;
    let mut i: usize = 0;
    while i < 2 * d + 3
        invariant
            d <= limit,
            2 * limit + 3 <= usize::MAX,
            v@.len() == 2 * limit + 3,
            lo == limit - d,
            i <= 2 * d + 3,
            row@.len() == i,
            forall|j: int| 0 <= j < i ==> #[trigger] row@[j] == v@[lo + j],
        decreases 2 * d + 3 - i,
    {
        row.push(v[lo + i]);
        i += 1;
    }
    proof {
        let aa = text::strs(a@);
        let bb = text::strs(b@);
        assert forall|k: int| on(d - 1, k) implies #[trigger] row@[k + d + 1] == furthest(
            aa,
            bb,
            d - 1,
            k,
        ) by {
            assert(v@[k + limit + 1] == furthest(aa, bb, d - 1, k));
        }
    }
    row
}

/// The furthest point of diagonal `k` after one more changed line.
fn advance(a: &[&str], b: &[&str], v: &Vec<i128>, limit: usize, d: usize, k: i128) -> (x: i128)
    requires
        d <= limit,
        2 * limit + 3 <= usize::MAX,
        on(d as int, k as int),
        v@.len() == 2 * limit + 3,
        d == 0 ==> v@[limit + 2] == 0,
        forall|l: int| on(d - 1, l) ==> #[trigger] v@[l + limit + 1] == furthest(text::strs(a@), text::strs(b@), d - 1, l),
    ensures
        x == furthest(text::strs(a@), text::strs(b@), d as int, k as int),
        0 <= x <= a@.len() + d,
        k <= x,
{
    let ghost aa = text::strs(a@);
    let ghost bb = text::strs(b@);
    let e: i128 = d as i128;
    let at: i128 = k + limit as i128 + 1;
    let n: usize = a.len();
    proof {
        lemma_furthest_small(aa, bb, d as int, k as int);
        lemma_furthest_reached(aa, bb, d as int, k as int);
        if d > 0 && k > -d {
            assert(on(d - 1, k - 1));
            lemma_furthest_small(aa, bb, d - 1, k - 1);
            lemma_furthest_reached(aa, bb, d - 1, k - 1);
            assert(v@[(k - 1) + limit + 1] == furthest(aa, bb, d - 1, k - 1));
        }
        if d > 0 && k < d {
            assert(on(d - 1, k + 1));
            lemma_furthest_small(aa, bb, d - 1, k + 1);
            lemma_furthest_reached(aa, bb, d - 1, k + 1);
            assert(v@[(k + 1) + limit + 1] == furthest(aa, bb, d - 1, k + 1));
        }
    }
    let start: i128 = if k == -e || (k != e && v[(at - 1) as usize] < v[(at + 1) as usize]) {
        v[(at + 1) as usize]
    } else {
        v[(at - 1) as usize] + 1
    };
    proof {
        assert(start == if d == 0 {
            0
        } else {
            from(aa, bb, d as int, k as int)
        });
        if d > 0 {
            lemma_slide(aa, bb, k as int, start as int);
        }
    }
    slid(a, b, k, start)
}

/// Shortest edit script between `a` and `b`, the one that the furthest-reaching
/// walk traces back, or `None` when it needs more than `max` changed lines. Only the diagonals that each number of changed lines
/// can reach are remembered.
pub fn myers(a: &[&str], b: &[&str], max: usize) -> (r: Option<Vec<Op>>)
    requires
        2 * max + 3 <= usize::MAX,
    ensures
        match r {
            Some(ops) => walked(text::strs(a@), text::strs(b@), ops@) && cost(ops@) <= max,
            None => forall|ops: Seq<Op>| #[trigger]
                edits(text::strs(a@), text::strs(b@), ops) ==> cost(ops) > max,
        },
{
    let ghost aa = text::strs(a@);
    let ghost bb = text::strs(b@);
    let n: i128 = a.len() as i128;
    let m: i128 = b.len() as i128;
    let limit: usize = if n + m < max as i128 {
        (n + m) as usize
    } else {
        max
    };
    let mut v: Vec<i128> = vec![0i128; 2 * limit + 3];
    let mut trace: Vec<Vec<i128>> = Vec::new();
    let mut d: usize = 0;
    while d <= limit
        invariant
            aa == text::strs(a@),
            bb == text::strs(b@),
            n == a@.len(),
            m == b@.len(),
            n <= usize::MAX,
            m <= usize::MAX,
            limit <= max,
            2 * max + 3 <= usize::MAX,
            d <= limit + 1,
            trace@.len() == d,
            frontier(aa, bb, limit as int, v@, d - 1),
            forall|e: int| 0 <= e < trace@.len() ==> recorded(aa, bb, e, (#[trigger] trace@[e])@),
            forall|e: int, l: int| 0 <= e < d && on(e, l) ==> !#[trigger] across(aa, bb, e, l),
        decreases limit + 1 - d,
    {
        let row: Vec<i128> = band(a, b, &v, limit, d);
        trace.push(row);
        let e: i128 = d as i128;
        let mut k: i128 = -e;
        while k <= e
            invariant
                aa == text::strs(a@),
                bb == text::strs(b@),
                n == a@.len(),
                m == b@.len(),
                n <= usize::MAX,
                m <= usize::MAX,
                e == d,
                d <= limit <= max,
                2 * max + 3 <= usize::MAX,
                trace@.len() == d + 1,
                v@.len() == 2 * limit + 3,
                -e <= k <= e + 2,
                (e - k) % 2 == 0,
                d == 0 ==> v@[limit + 2] == 0,
                forall|l: int| on(d - 1, l) ==> #[trigger] v@[l + limit + 1] == furthest(aa, bb, d - 1, l),
                forall|l: int| on(d as int, l) && l < k ==> #[trigger] v@[l + limit + 1] == furthest(aa, bb, d as int, l),
                forall|l: int| on(d as int, l) && l < k ==> !#[trigger] across(aa, bb, d as int, l),
                forall|f: int| 0 <= f < trace@.len() ==> recorded(aa, bb, f, (#[trigger] trace@[f])@),
                forall|f: int, l: int| 0 <= f < d && on(f, l) ==> !#[trigger] across(aa, bb, f, l),
            decreases e + 2 - k,
        {
            assert(on(d as int, k as int));
            let x: i128 = advance(a, b, &v, limit, d, k);
            let at: usize = (k + limit as i128 + 1) as usize;
            v.set(at, x);
            if x >= n && x - k >= m {
                assert(across(aa, bb, d as int, k as int));
                proof {
                    lemma_first_across(aa, bb, d as int, k as int);
                }
                let ops: Vec<Op> = backtrack(a, b, &trace);
                proof {
                    assert forall|other: Seq<Op>| #[trigger] edits(aa, bb, other) implies cost(ops@)
                        <= cost(other) by {
                        lemma_not_across(aa, bb, d as int, other);
                    }
                }
                return Some(ops);
            }
            k += 2;
        }
        assert forall|f: int, l: int| 0 <= f < d + 1 && on(f, l) implies !#[trigger] across(aa, bb, f, l) by {
            if f == d {
                assert(l < k);
            }
        }
        d += 1;
    }
    proof {
        assert forall|ops: Seq<Op>| #[trigger] edits(aa, bb, ops) implies cost(ops) > max by {
            lemma_not_across(aa, bb, d as int, ops);
            if limit < max {
                lemma_corner_reached(aa, bb, n as int, m as int);
                lemma_furthest_bounds(aa, bb, n + m, n as int, m as int);
                assert(across(aa, bb, n + m, n - m));
            }
        }
    }
    None
}

/// Number of changed lines past which the middle is replaced as a whole.
pub const MAX_EDIT_DISTANCE: usize = 1024;

/// The number of lines that two sequences have in common at their start.
pub open spec fn common(a: Seq<Seq<char>>, b: Seq<Seq<char>>) -> nat
    decreases a.len(),
{
    if a.len() > 0 && b.len() > 0 && a[0] == b[0] {
        1 + common(a.drop_first(), b.drop_first())
    } else {
        0
    }
}

/// Lines in common at the end, of what the common start leaves.
pub open spec fn common_end(a: Seq<Seq<char>>, b: Seq<Seq<char>>) -> nat {
    let p = common(a, b) as int;
    common(a.skip(p).reverse(), b.skip(p).reverse())
}

/// What the common start and the common end leave of `a`.
pub open spec fn middle(a: Seq<Seq<char>>, b: Seq<Seq<char>>) -> Seq<Seq<char>> {
    a.subrange(common(a, b) as int, a.len() - common_end(a, b))
}

/// Whether some script turns `a` into `b` with at most `max` changed lines.
pub open spec fn within(a: Seq<Seq<char>>, b: Seq<Seq<char>>, max: int) -> bool {
    exists|ops: Seq<Op>| #[trigger] edits(a, b, ops) && cost(ops) <= max
}

/// Everything dropped, then everything added.
pub open spec fn replaced(dropped: nat, added: nat) -> Seq<Op> {
    Seq::new(
        dropped + added,
        |i: int|
            if i < dropped {
                Op::Delete
            } else {
                Op::Insert
            },
    )
}

/// The scripts that are shown: the common start and end are kept, and the
/// middle is changed by the shortest script that the furthest-reaching walk traces
/// back, or replaced as a whole where even that one changes more than
/// [`MAX_EDIT_DISTANCE`] lines.
pub open spec fn shown(a: Seq<Seq<char>>, b: Seq<Seq<char>>, ops: Seq<Op>) -> bool {
    let p = common(a, b);
    let s = common_end(a, b);
    let am = middle(a, b);
    let bm = middle(b, a);
    exists|mid: Seq<Op>|
        {
            &&& ops == equals(p) + #[trigger] (mid + equals(s))
            &&& within(am, bm, MAX_EDIT_DISTANCE as int) ==> walked(am, bm, mid)
            &&& !within(am, bm, MAX_EDIT_DISTANCE as int) ==> mid == replaced(am.len(), bm.len())
        }
}

proof fn lemma_common(a: Seq<Seq<char>>, b: Seq<Seq<char>>)
    ensures
        common(a, b) == common(b, a),
        common(a, b) <= a.len(),
        common(a, b) <= b.len(),
        forall|i: int| 0 <= i < common(a, b) ==> #[trigger] level(a, b, 0, i),
    decreases a.len(),
{
    if a.len() > 0 && b.len() > 0 && a[0] == b[0] {
        let (a1, b1) = (a.drop_first(), b.drop_first());
        lemma_common(a1, b1);
        assert forall|i: int| 0 <= i < common(a, b) implies #[trigger] level(a, b, 0, i) by {
            if i > 0 {
                assert(level(a1, b1, 0, i - 1));
            }
        }
    }
}

/// The common length is where the lines stop being equal.
proof fn lemma_common_is(a: Seq<Seq<char>>, b: Seq<Seq<char>>, c: nat)
    requires
        c <= a.len(),
        c <= b.len(),
        forall|i: int| 0 <= i < c ==> #[trigger] level(a, b, 0, i),
        c < a.len() && c < b.len() ==> a[c as int] != b[c as int],
    ensures
        common(a, b) == c,
    decreases a.len(),
{
    if c > 0 {
        assert(level(a, b, 0, 0));
        let (a1, b1) = (a.drop_first(), b.drop_first());
        assert forall|i: int| 0 <= i < c - 1 implies #[trigger] level(a1, b1, 0, i) by {
            assert(level(a, b, 0, i + 1));
        }
        lemma_common_is(a1, b1, (c - 1) as nat);
    }
}

proof fn lemma_common_end(a: Seq<Seq<char>>, b: Seq<Seq<char>>)
    ensures
        common(a, b) + common_end(a, b) <= a.len(),
        common(a, b) + common_end(a, b) <= b.len(),
        common_end(a, b) == common_end(b, a),
        forall|i: int|
            0 <= i < common_end(a, b) ==> #[trigger] a[a.len() - 1 - i] == b[b.len() - 1 - i],
{
    lemma_common(a, b);
    let p = common(a, b) as int;
    let (ar, br) = (a.skip(p).reverse(), b.skip(p).reverse());
    lemma_common(ar, br);
    assert forall|i: int| 0 <= i < common_end(a, b) implies #[trigger] a[a.len() - 1 - i] == b[b.len()
        - 1 - i] by {
        assert(level(ar, br, 0, i));
        assert(ar[i] == a[a.len() - 1 - i]);
        assert(br[i] == b[b.len() - 1 - i]);
    }
}

/// A script for the middle, followed by the kept end, is one for all that
/// follows the start.
proof fn lemma_widen(a: Seq<Seq<char>>, b: Seq<Seq<char>>, ops: Seq<Op>, i: int, j: int)
    requires
        edits_from(middle(a, b), middle(b, a), ops, i, j),
        i >= 0,
        j >= 0,
    ensures
        edits_from(a, b, ops + equals(common_end(a, b)), i + common(a, b), j + common(a, b)),
    decreases ops.len(),
{
    lemma_common(a, b);
    lemma_common_end(a, b);
    let (am, bm) = (middle(a, b), middle(b, a));
    let p = common(a, b) as int;
    let s = common_end(a, b);
    let whole = ops + equals(s);
    if ops.len() == 0 {
        assert(whole =~= equals(s) + Seq::<Op>::empty());
        let k = a.len() - b.len();
        assert forall|x: int| a.len() - s <= x < a.len() implies #[trigger] level(a, b, k, x) by {
            let t = a.len() - 1 - x;
            assert(a[a.len() - 1 - t] == b[b.len() - 1 - t]);
        }
        lemma_keep(a, b, Seq::<Op>::empty(), a.len() as int, b.len() as int, s);
    } else {
        assert(whole.drop_first() =~= ops.drop_first() + equals(s));
        match ops[0] {
            Op::Equal => {
                assert(am[i] == a[i + p]);
                assert(bm[j] == b[j + p]);
                lemma_widen(a, b, ops.drop_first(), i + 1, j + 1);
            },
            Op::Delete => lemma_widen(a, b, ops.drop_first(), i + 1, j),
            Op::Insert => lemma_widen(a, b, ops.drop_first(), i, j + 1),
        }
    }
}

proof fn lemma_replaced_edits(
    a: Seq<Seq<char>>,
    b: Seq<Seq<char>>,
    i: int,
    j: int,
)
    requires
        0 <= i <= a.len(),
        0 <= j <= b.len(),
        i < a.len() ==> j == 0,
    ensures
        edits_from(a, b, replaced((a.len() - i) as nat, (b.len() - j) as nat), i, j),
    decreases a.len() - i + b.len() - j,
{
    let ops = replaced((a.len() - i) as nat, (b.len() - j) as nat);
    if i < a.len() {
        lemma_replaced_edits(a, b, i + 1, j);
        assert(ops.drop_first() =~= replaced((a.len() - i - 1) as nat, (b.len() - j) as nat));
    } else if j < b.len() {
        lemma_replaced_edits(a, b, i, j + 1);
        assert(ops.drop_first() =~= replaced((a.len() - i) as nat, (b.len() - j - 1) as nat));
    }
}

/// Every script that is shown turns the first sequence into the second.
pub proof fn law_shown_scripts_edit(a: Seq<Seq<char>>, b: Seq<Seq<char>>, ops: Seq<Op>)
    requires
        shown(a, b, ops),
    ensures
        edits(a, b, ops),
{
    let p = common(a, b);
    let s = common_end(a, b);
    let (am, bm) = (middle(a, b), middle(b, a));
    let mid = choose|mid: Seq<Op>|
        {
            &&& ops == equals(p) + #[trigger] (mid + equals(s))
            &&& within(am, bm, MAX_EDIT_DISTANCE as int) ==> walked(am, bm, mid)
            &&& !within(am, bm, MAX_EDIT_DISTANCE as int) ==> mid == replaced(am.len(), bm.len())
        };
    lemma_replaced_edits(am, bm, 0, 0);
    lemma_widen(a, b, mid, 0, 0);
    lemma_common(a, b);
    assert(run(a, b, 0, 0, p as int));
    lemma_keep(a, b, mid + equals(s), p as int, p as int, p);
}

/// No two scripts are shown for the same sequences.
pub proof fn law_one_script_is_shown(
    a: Seq<Seq<char>>,
    b: Seq<Seq<char>>,
    ops: Seq<Op>,
    other: Seq<Op>,
)
    requires
        shown(a, b, ops),
        shown(a, b, other),
    ensures
        ops == other,
{
    let p = common(a, b);
    let s = common_end(a, b);
    let (am, bm) = (middle(a, b), middle(b, a));
    let mid = choose|mid: Seq<Op>|
        {
            &&& ops == equals(p) + #[trigger] (mid + equals(s))
            &&& within(am, bm, MAX_EDIT_DISTANCE as int) ==> walked(am, bm, mid)
            &&& !within(am, bm, MAX_EDIT_DISTANCE as int) ==> mid == replaced(am.len(), bm.len())
        };
    let that = choose|mid: Seq<Op>|
        {
            &&& other == equals(p) + #[trigger] (mid + equals(s))
            &&& within(am, bm, MAX_EDIT_DISTANCE as int) ==> walked(am, bm, mid)
            &&& !within(am, bm, MAX_EDIT_DISTANCE as int) ==> mid == replaced(am.len(), bm.len())
        };
    if within(am, bm, MAX_EDIT_DISTANCE as int) {
        assert(edits(am, bm, mid) && edits(am, bm, that));
        assert(cost(mid) == cost(that));
    }
    assert(mid == that);
}

/// The script shown for `a` and `b`.
pub fn script(a: &[&str], b: &[&str]) -> (ops: Vec<Op>)
    ensures
        shown(text::strs(a@), text::strs(b@), ops@),
        edits(text::strs(a@), text::strs(b@), ops@),
{
    let ghost aa = text::strs(a@);
    let ghost bb = text::strs(b@);
    let n: usize = a.len();
    let m: usize = b.len();
    let mut prefix: usize = 0;
    while prefix < n && prefix < m && text::same(a[prefix], b[prefix])
        invariant
            aa == text::strs(a@),
            bb == text::strs(b@),
            n == a@.len(),
            m == b@.len(),
            prefix <= n,
            prefix <= m,
            forall|i: int| 0 <= i < prefix ==> #[trigger] level(aa, bb, 0, i),
        decreases n - prefix,
    {
        prefix += 1;
    }
    proof {
        lemma_common_is(aa, bb, prefix as nat);
    }
    let ghost ar = aa.skip(prefix as int).reverse();
    let ghost br = bb.skip(prefix as int).reverse();
    let mut suffix: usize = 0;
    while suffix < n - prefix && suffix < m - prefix && text::same(
        a[n - 1 - suffix],
        b[m - 1 - suffix],
    )
        invariant
            aa == text::strs(a@),
            bb == text::strs(b@),
            n == a@.len(),
            m == b@.len(),
            prefix <= n,
            prefix <= m,
            suffix <= n - prefix,
            suffix <= m - prefix,
            ar == aa.skip(prefix as int).reverse(),
            br == bb.skip(prefix as int).reverse(),
            forall|i: int| 0 <= i < suffix ==> #[trigger] level(ar, br, 0, i),
        decreases n - suffix,
    {
        assert(ar[suffix as int] == aa[n - 1 - suffix]);
        assert(br[suffix as int] == bb[m - 1 - suffix]);
        suffix += 1;
    }
    proof {
        if suffix < n - prefix && suffix < m - prefix {
            assert(ar[suffix as int] == aa[n - 1 - suffix]);
            assert(br[suffix as int] == bb[m - 1 - suffix]);
        }
        lemma_common_is(ar, br, suffix as nat);
    }
    let a_mid: &[&str] = vstd::slice::slice_subrange(a, prefix, n - suffix);
    let b_mid: &[&str] = vstd::slice::slice_subrange(b, prefix, m - suffix);
    proof {
        lemma_common(aa, bb);
        lemma_common_end(aa, bb);
        assert(text::strs(a_mid@) =~= middle(aa, bb));
        assert(text::strs(b_mid@) =~= middle(bb, aa));
    }
    let mid: Vec<Op> = match myers(a_mid, b_mid, MAX_EDIT_DISTANCE) {
        Some(found) => found,
        None => replace_all(a_mid.len(), b_mid.len()),
    };
    let mut ops: Vec<Op> = kept(prefix);
    let ghost middle_ops = mid@;
    let mut mid = mid;
    ops.append(&mut mid);
    let mut end: Vec<Op> = kept(suffix);
    ops.append(&mut end);
    proof {
        assert(ops@ =~= equals(prefix as nat) + (middle_ops + equals(suffix as nat)));
        assert(shown(aa, bb, ops@));
        law_shown_scripts_edit(aa, bb, ops@);
    }
    ops
}

fn kept(c: usize) -> (r: Vec<Op>)
    ensures
        r@ == equals(c as nat),
{
    let mut out: Vec<Op> = Vec::new();
    let mut i: usize = 0;
    while i < c
        invariant
            i <= c,
            out@ == equals(i as nat),
        decreases c - i,
    {
        out.push(Op::Equal);
        i += 1;
        assert(out@ =~= equals(i as nat));
    }
    out
}

fn replace_all(dropped: usize, added: usize) -> (r: Vec<Op>)
    ensures
        r@ == replaced(dropped as nat, added as nat),
{
    let mut out: Vec<Op> = Vec::new();
    let mut i: usize = 0;
    while i < dropped
        invariant
            i <= dropped,
            out@ == replaced(i as nat, 0),
        decreases dropped - i,
    {
        out.push(Op::Delete);
        i += 1;
        assert(out@ =~= replaced(i as nat, 0));
    }
    let mut j: usize = 0;
    while j < added
        invariant
            j <= added,
            out@ == replaced(dropped as nat, j as nat),
        decreases added - j,
    {
        out.push(Op::Insert);
        j += 1;
        assert(out@ =~= replaced(dropped as nat, j as nat));
    }
    out
}

} // verus!
