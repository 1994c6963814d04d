//! Exact parts of a text by byte offsets, never cut inside a character.
use vstd::prelude::*;
use vstd::string::*;
use vstd::utf8::*;

verus! {

/// The last place at or before `end` that is not inside a character.
pub open spec fn floor(bytes: Seq<u8>, end: int) -> int
    decreases end,
{
    if end <= 0 {
        0
    } else if is_char_boundary(bytes, end) {
        end
    } else {
        floor(bytes, end - 1)
    }
}

/// A place between characters stays one in the front part of a text.
proof fn lemma_boundary_of_front(bytes: Seq<u8>, end: int, at: int)
    requires
        valid_utf8(bytes),
        0 <= at <= end <= bytes.len(),
        is_char_boundary(bytes, at),
        is_char_boundary(bytes, end),
    ensures
        is_char_boundary(bytes.subrange(0, end), at),
        valid_utf8(bytes.subrange(0, end)),
{
    let front = bytes.subrange(0, end);
    valid_utf8_split(bytes, end);
    is_char_boundary_start_end_of_seq(front);
    if 0 < at < end {
        is_char_boundary_iff_not_is_continuation_byte(bytes, at);
        is_char_boundary_iff_not_is_continuation_byte(front, at);
    }
}

/// Between two places between characters, the last one at or before any place
/// lies between them too.
pub proof fn lemma_floor(bytes: Seq<u8>, start: int, end: int)
    requires
        0 <= start <= end,
        is_char_boundary(bytes, start),
    ensures
        start <= floor(bytes, end) <= end,
    decreases end,
{
    if end > start && !is_char_boundary(bytes, end) {
        lemma_floor(bytes, start, end - 1);
    }
}

/// The part of a text between two byte offsets.
pub fn part<'a>(s: &'a str, start: usize, end: usize) -> (r: &'a str)
    requires
        start <= end <= s.spec_bytes().len(),
        is_char_boundary(s.spec_bytes(), start as int),
        is_char_boundary(s.spec_bytes(), end as int),
    ensures
        r.spec_bytes() == s.spec_bytes().subrange(start as int, end as int),
{
    let ghost bytes = s.spec_bytes();
    proof {
        encode_utf8_valid_utf8(s@);
        lemma_boundary_of_front(bytes, end as int, start as int);
    }
    let (front, _rest) = s.split_at(end);
    let (_head, middle) = front.split_at(start);
    assert(middle.spec_bytes() =~= bytes.subrange(start as int, end as int));
    middle
}

/// The last place at or before `end` that is not inside a character.
pub fn floor_boundary(s: &str, end: usize) -> (r: usize)
    requires
        end <= s.spec_bytes().len(),
    ensures
        r == floor(s.spec_bytes(), end as int),
        r <= end,
        is_char_boundary(s.spec_bytes(), r as int),
{
    let mut at: usize = end;
    proof {
        encode_utf8_valid_utf8(s@);
        is_char_boundary_start_end_of_seq(s.spec_bytes());
    }
    while at > 0 && !s.is_char_boundary(at)
        invariant
            at <= end <= s.spec_bytes().len(),
            floor(s.spec_bytes(), end as int) == floor(s.spec_bytes(), at as int),
        decreases at,
    {
        at -= 1;
    }
    at
}

/// The place after the `lines`-th line break between two places, or the second
/// place where there are fewer.
pub open spec fn line_end(bytes: Seq<u8>, at: int, end: int, lines: int) -> int
    decreases end - at,
{
    if at >= end || lines <= 0 {
        end
    } else if bytes[at] == 10u8 {
        if lines == 1 {
            at + 1
        } else {
            line_end(bytes, at + 1, end, lines - 1)
        }
    } else {
        line_end(bytes, at + 1, end, lines)
    }
}

/// The end of a line is not inside a character.
proof fn lemma_after_break(bytes: Seq<u8>, at: int)
    requires
        valid_utf8(bytes),
        0 <= at < bytes.len(),
        bytes[at] == 10u8,
    ensures
        is_char_boundary(bytes, at + 1),
{
    utf8_byte_ranges_bitwise(10u8);
    is_char_boundary_iff_not_is_continuation_byte(bytes, at);
    is_char_boundary_start_end_of_seq(bytes);
    valid_utf8_split(bytes, at);
    let tail = bytes.subrange(at, bytes.len() as int);
    assert(tail[0] == 10u8);
    assert(length_of_first_scalar(tail) == 1);
    if at + 1 < bytes.len() {
        reveal_with_fuel(is_char_boundary, 2);
        assert(is_char_boundary(tail, 1));
        is_char_boundary_iff_not_is_continuation_byte(tail, 1);
        assert(tail[1] == bytes[at + 1]);
        is_char_boundary_iff_not_is_continuation_byte(bytes, at + 1);
    }
}

/// Where a part that starts at `start` ends after at most `lines` lines.
pub fn find_line_end(s: &str, start: usize, end: usize, lines: usize) -> (r: usize)
    requires
        start <= end <= s.spec_bytes().len(),
        is_char_boundary(s.spec_bytes(), end as int),
    ensures
        r == line_end(s.spec_bytes(), start as int, end as int, lines as int),
        start <= r <= end,
        is_char_boundary(s.spec_bytes(), r as int),
{
    let bytes = s.as_bytes();
    let mut at: usize = start;
    let mut left: usize = lines;
    if lines == 0 {
        return end;
    }
    while at < end
        invariant
            start <= at <= end <= bytes@.len(),
            left > 0,
            bytes@ == s.spec_bytes(),
            is_char_boundary(s.spec_bytes(), end as int),
            line_end(s.spec_bytes(), start as int, end as int, lines as int) == line_end(
                s.spec_bytes(),
                at as int,
                end as int,
                left as int,
            ),
        decreases end - at,
    {
        if bytes[at] == 10u8 {
            if left == 1 {
                proof {
                    encode_utf8_valid_utf8(s@);
                    lemma_after_break(s.spec_bytes(), at as int);
                }
                return at + 1;
            }
            left -= 1;
        }
        at += 1;
    }
    end
}

/// How many line breaks there are between two places.
pub open spec fn breaks(bytes: Seq<u8>, at: int, end: int) -> int
    decreases end - at,
{
    if at >= end {
        0
    } else {
        breaks(bytes, at + 1, end) + if bytes[at] == 10u8 {
            1int
        } else {
            0
        }
    }
}

/// How many lines a text has; a text without a final line break ends in a line
/// too.
pub open spec fn lines(bytes: Seq<u8>) -> int {
    breaks(bytes, 0, bytes.len() as int) + if bytes.len() > 0 && bytes.last() != 10u8 {
        1int
    } else {
        0
    }
}

pub proof fn lemma_breaks(bytes: Seq<u8>, at: int, end: int)
    requires
        0 <= at <= end <= bytes.len(),
    ensures
        0 <= breaks(bytes, at, end) <= end - at,
        at < end && bytes[end - 1] != 10u8 ==> breaks(bytes, at, end) < end - at,
    decreases end - at,
{
    if at < end {
        lemma_breaks(bytes, at + 1, end);
    }
}

pub fn line_count(s: &str) -> (r: usize)
    ensures
        r == lines(s.spec_bytes()),
        r <= s.spec_bytes().len(),
{
    let bytes = s.as_bytes();
    let mut count: usize = 0;
    let mut at: usize = bytes.len();
    while at > 0
        invariant
            at <= bytes@.len() <= usize::MAX,
            bytes@ == s.spec_bytes(),
            count == breaks(bytes@, at as int, bytes@.len() as int),
            count <= bytes@.len() - at,
        decreases at,
    {
        at -= 1;
        if bytes[at] == 10u8 {
            count += 1;
        }
    }
    proof {
        lemma_breaks(bytes@, 0, bytes@.len() as int);
    }
    if bytes.len() > 0 && bytes[bytes.len() - 1] != 10u8 {
        count + 1
    } else {
        count
    }
}

/// Where a part of a text that may hold so many bytes and lines ends.
pub open spec fn bounded_end(
    bytes: Seq<u8>,
    start: int,
    end: int,
    max_bytes: int,
    max_lines: int,
) -> int {
    let wanted = if end - start <= max_bytes {
        end
    } else {
        start + max_bytes
    };
    line_end(bytes, start, floor(bytes, wanted), max_lines)
}

/// Where a part of a text that may hold so many bytes and lines ends; no bound
/// on the lines where `max_lines` is zero.
pub fn find_bounded_end(
    s: &str,
    start: usize,
    end: usize,
    max_bytes: usize,
    max_lines: usize,
) -> (r: usize)
    requires
        start <= end <= s.spec_bytes().len(),
        is_char_boundary(s.spec_bytes(), start as int),
    ensures
        r == bounded_end(
            s.spec_bytes(),
            start as int,
            end as int,
            max_bytes as int,
            max_lines as int,
        ),
        start <= r <= end,
        r - start <= max_bytes,
        is_char_boundary(s.spec_bytes(), r as int),
{
    let wanted: usize = if end - start <= max_bytes {
        end
    } else {
        start + max_bytes
    };
    let cut: usize = floor_boundary(s, wanted);
    proof {
        lemma_floor(s.spec_bytes(), start as int, wanted as int);
    }
    find_line_end(s, start, cut, max_lines)
}

/// A bounded part never exceeds its bound in bytes, starts where it was asked
/// to, and does not go past the end of what was asked for.
pub proof fn law_a_bounded_part_is_bounded(
    bytes: Seq<u8>,
    start: int,
    end: int,
    max_bytes: int,
    max_lines: int,
)
    requires
        0 <= start <= end <= bytes.len(),
        0 <= max_bytes,
        0 <= max_lines,
        is_char_boundary(bytes, start),
    ensures
        start <= bounded_end(bytes, start, end, max_bytes, max_lines) <= end,
        bounded_end(bytes, start, end, max_bytes, max_lines) - start <= max_bytes,
        max_lines > 0 ==> breaks(
            bytes,
            start,
            bounded_end(bytes, start, end, max_bytes, max_lines),
        ) <= max_lines,
{
    let wanted = if end - start <= max_bytes {
        end
    } else {
        start + max_bytes
    };
    lemma_floor(bytes, start, wanted);
    lemma_line_end(bytes, start, floor(bytes, wanted), max_lines);
}

proof fn lemma_line_end(bytes: Seq<u8>, at: int, end: int, lines: int)
    requires
        0 <= at <= end,
        0 <= lines,
    ensures
        at <= line_end(bytes, at, end, lines) <= end,
        lines > 0 ==> breaks(bytes, at, line_end(bytes, at, end, lines)) <= lines,
    decreases end - at,
{
    if at < end && lines > 0 {
        if bytes[at] == 10u8 {
            if lines > 1 {
                lemma_line_end(bytes, at + 1, end, lines - 1);
            } else {
                assert(breaks(bytes, at + 1, at + 1) == 0);
            }
        } else {
            lemma_line_end(bytes, at + 1, end, lines);
        }
    }
}

} // verus!
