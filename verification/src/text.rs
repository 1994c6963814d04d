//! Text as sequences of characters: comparison, cutting, joining and the
//! character classes that the rest of the library refers to.
use vstd::prelude::*;
use vstd::string::*;
use vstd::utf8::*;

verus! {

/// The contents of owned texts.
pub open spec fn texts(v: Seq<String>) -> Seq<Seq<char>> {
    Seq::new(v.len(), |i: int| v[i]@)
}

/// The contents of borrowed texts.
pub open spec fn strs(v: Seq<&str>) -> Seq<Seq<char>> {
    Seq::new(v.len(), |i: int| v[i]@)
}

/// The number of bytes a text occupies.
pub open spec fn size(s: Seq<char>) -> nat {
    encode_utf8(s).len()
}

/// Whether two texts are the same.
pub fn same(a: &str, b: &str) -> (r: bool)
    ensures
        r == (a@ == b@),
{
    a.to_owned() == b.to_owned()
}

/// Number of bytes of a text.
pub fn byte_len(s: &str) -> (r: usize)
    ensures
        r == size(s@),
{
    s.as_bytes().len()
}

/// `s` cut at every `sep`: what stands between two neighbouring separators,
/// in order. A text without a separator is its only piece.
pub open spec fn pieces(s: Seq<char>, sep: char) -> Seq<Seq<char>>
    decreases s.len(),
{
    if s.len() == 0 {
        seq![Seq::<char>::empty()]
    } else {
        let rest = pieces(s.drop_first(), sep);
        if s[0] == sep {
            seq![Seq::<char>::empty()] + rest
        } else {
            seq![seq![s[0]] + rest[0]] + rest.drop_first()
        }
    }
}

/// Pieces put together again with `sep` between neighbours.
pub open spec fn joined(parts: Seq<Seq<char>>, sep: char) -> Seq<char>
    decreases parts.len(),
{
    if parts.len() == 0 {
        Seq::<char>::empty()
    } else if parts.len() == 1 {
        parts[0]
    } else {
        parts[0] + seq![sep] + joined(parts.drop_first(), sep)
    }
}

pub proof fn lemma_pieces_nonempty(s: Seq<char>, sep: char)
    ensures
        pieces(s, sep).len() >= 1,
    decreases s.len(),
{
    if s.len() > 0 {
        lemma_pieces_nonempty(s.drop_first(), sep);
    }
}

/// Joining the pieces of a text gives the text back.
pub proof fn law_pieces_join(s: Seq<char>, sep: char)
    ensures
        joined(pieces(s, sep), sep) == s,
    decreases s.len(),
{
    if s.len() > 0 {
        let tail = s.drop_first();
        let rest = pieces(tail, sep);
        law_pieces_join(tail, sep);
        lemma_pieces_nonempty(tail, sep);
        if s[0] == sep {
            let all = seq![Seq::<char>::empty()] + rest;
            assert(all.drop_first() =~= rest);
            assert(joined(all, sep) =~= seq![sep] + tail);
        } else {
            let all = seq![seq![s[0]] + rest[0]] + rest.drop_first();
            assert(all.drop_first() =~= rest.drop_first());
            if rest.len() == 1 {
                assert(joined(all, sep) =~= seq![s[0]] + tail);
            } else {
                assert(joined(all, sep) =~= seq![s[0]] + joined(rest, sep));
            }
        }
        assert(seq![s[0]] + tail =~= s);
    } else {
        assert(joined(pieces(s, sep), sep) =~= s);
    }
}

/// No piece of a text holds the separator.
pub proof fn law_pieces_hold_no_separator(s: Seq<char>, sep: char)
    ensures
        forall|i: int| 0 <= i < pieces(s, sep).len() ==> !(#[trigger] pieces(s, sep)[i]).contains(sep),
    decreases s.len(),
{
    if s.len() > 0 {
        let tail = s.drop_first();
        let rest = pieces(tail, sep);
        law_pieces_hold_no_separator(tail, sep);
        lemma_pieces_nonempty(tail, sep);
        assert forall|i: int| 0 <= i < pieces(s, sep).len() implies !(#[trigger] pieces(s, sep)[i]).contains(sep) by {
            if s[0] == sep {
                if i > 0 {
                    assert(pieces(s, sep)[i] == rest[i - 1]);
                }
            } else {
                if i == 0 {
                    let head = seq![s[0]] + rest[0];
                    assert(pieces(s, sep)[0] == head);
                    if head.contains(sep) {
                        let j = choose|j: int| 0 <= j < head.len() && head[j] == sep;
                        assert(head[j] == rest[0][j - 1]);
                        assert(rest[0].contains(sep));
                    }
                } else {
                    assert(pieces(s, sep)[i] == rest[i]);
                }
            }
        }
    }
}

pub proof fn lemma_pieces_single(s: Seq<char>, sep: char)
    requires
        !s.contains(sep),
    ensures
        pieces(s, sep) == seq![s],
    decreases s.len(),
{
    if s.len() > 0 {
        let tail = s.drop_first();
        assert(s[0] != sep);
        assert(!tail.contains(sep)) by {
            if tail.contains(sep) {
                let j = choose|j: int| 0 <= j < tail.len() && tail[j] == sep;
                assert(s[j + 1] == sep);
            }
        }
        lemma_pieces_single(tail, sep);
        assert(seq![s[0]] + tail =~= s);
        assert(pieces(s, sep) =~= seq![s]);
    } else {
        assert(s =~= Seq::<char>::empty());
        assert(pieces(s, sep) =~= seq![s]);
    }
}

pub proof fn lemma_pieces_cut(head: Seq<char>, sep: char, tail: Seq<char>)
    requires
        !head.contains(sep),
    ensures
        pieces(head + seq![sep] + tail, sep) == seq![head] + pieces(tail, sep),
    decreases head.len(),
{
    let s = head + seq![sep] + tail;
    if head.len() == 0 {
        assert(s.drop_first() =~= tail);
        assert(head =~= Seq::<char>::empty());
    } else {
        let h = head.drop_first();
        assert(head[0] != sep);
        assert(!h.contains(sep)) by {
            if h.contains(sep) {
                let j = choose|j: int| 0 <= j < h.len() && h[j] == sep;
                assert(head[j + 1] == sep);
            }
        }
        lemma_pieces_cut(h, sep, tail);
        assert(s.drop_first() =~= h + seq![sep] + tail);
        let rest = pieces(s.drop_first(), sep);
        assert(rest =~= seq![h] + pieces(tail, sep));
        assert(rest[0] == h);
        assert(rest.drop_first() =~= pieces(tail, sep));
        assert(seq![head[0]] + h =~= head);
        assert(pieces(s, sep) =~= seq![head] + pieces(tail, sep));
    }
}

proof fn lemma_ascii_char_encodes_itself(chars: Seq<char>, c: char)
    requires
        chars.contains(c),
        (c as u32) < 128,
    ensures
        encode_utf8(chars).contains(c as u8),
    decreases chars.len(),
{
    let first = encode_scalar(chars[0] as u32);
    let rest = encode_utf8(chars.drop_first());
    if chars[0] == c {
        is_ascii_chars_encode_utf8(seq![c]);
        assert(seq![c].drop_first() =~= Seq::<char>::empty());
        assert(encode_utf8(seq![c]) =~= first);
        assert(encode_utf8(chars)[0] == c as u8);
    } else {
        let j = choose|j: int| 0 <= j < chars.len() && chars[j] == c;
        assert(chars.drop_first()[j - 1] == c);
        lemma_ascii_char_encodes_itself(chars.drop_first(), c);
        let k = choose|k: int| 0 <= k < rest.len() && rest[k] == c as u8;
        assert(encode_utf8(chars)[first.len() + k] == c as u8);
    }
}

/// Texts with the same bytes are the same.
pub proof fn lemma_same_bytes(a: Seq<char>, b: Seq<char>)
    requires
        encode_utf8(a) == encode_utf8(b),
    ensures
        a == b,
{
    encode_utf8_decode_utf8(a);
    encode_utf8_decode_utf8(b);
}

/// Cuts `s` around the ASCII byte at `at`.
fn cut<'a>(s: &'a str, at: usize, sep: u8) -> (r: (&'a str, &'a str))
    requires
        at < s.spec_bytes().len(),
        s.spec_bytes()[at as int] == sep,
        sep < 128,
    ensures
        s@ == r.0@ + seq![sep as char] + r.1@,
        r.0.spec_bytes() == s.spec_bytes().subrange(0, at as int),
        r.1.spec_bytes() == s.spec_bytes().subrange(at + 1, s.spec_bytes().len() as int),
{
    let ghost bytes = s.spec_bytes();
    proof {
        encode_utf8_valid_utf8(s@);
        utf8_byte_ranges_bitwise(sep);
        is_char_boundary_iff_not_is_continuation_byte(bytes, at as int);
    }
    let (head, mid) = s.split_at(at);
    proof {
        encode_utf8_valid_utf8(mid@);
        let m = mid.spec_bytes();
        assert(m[0] == sep);
        encode_utf8_decode_utf8(s@);
        encode_utf8_decode_utf8(head@);
        encode_utf8_decode_utf8(mid@);
        decode_utf8_split(bytes, at as int);
        assert(s@ == head@ + mid@);
        utf8_byte_ranges_bitwise(sep);
        assert(length_of_first_scalar(m) == 1);
        reveal_with_fuel(is_char_boundary, 2);
        assert(is_char_boundary(m, 1));
    }
    let (one, tail) = mid.split_at(1);
    proof {
        let m = mid.spec_bytes();
        decode_utf8_split(m, 1);
        encode_utf8_decode_utf8(one@);
        encode_utf8_decode_utf8(tail@);
        let c = seq![sep as char];
        assert(is_ascii_chars(c));
        is_ascii_chars_encode_utf8(c);
        assert(encode_utf8(c) =~= one.spec_bytes());
        lemma_same_bytes(c, one@);
        assert(s@ =~= head@ + one@ + tail@);
        assert(tail.spec_bytes() =~= bytes.subrange(at + 1, bytes.len() as int));
    }
    (head, tail)
}

/// Position of the first byte equal to `sep`.
fn find_byte(s: &str, sep: u8) -> (r: Option<usize>)
    ensures
        match r {
            Some(i) => i < s.spec_bytes().len() && s.spec_bytes()[i as int] == sep
                && !s.spec_bytes().subrange(0, i as int).contains(sep),
            None => !s.spec_bytes().contains(sep),
        },
{
    let bytes = s.as_bytes();
    let mut i: usize = 0;
    while i < bytes.len()
        invariant
            i <= bytes@.len(),
            bytes@ == s.spec_bytes(),
            forall|j: int| 0 <= j < i ==> bytes@[j] != sep,
        decreases bytes@.len() - i,
    {
        if bytes[i] == sep {
            return Some(i);
        }
        i += 1;
    }
    None
}

/// The pieces of `s` between the ASCII characters `sep`.
pub fn split_ascii<'a>(s: &'a str, sep: u8) -> (r: Vec<&'a str>)
    requires
        sep < 128,
    ensures
        strs(r@) == pieces(s@, sep as char),
{
    let mut out: Vec<&'a str> = Vec::new();
    let mut rest: &'a str = s;
    let ghost c = sep as char;
    loop
        invariant
            sep < 128,
            c == sep as char,
            strs(out@) + pieces(rest@, c) == pieces(s@, c),
        decreases rest.spec_bytes().len(),
    {
        match find_byte(rest, sep) {
            Some(at) => {
                let (head, tail) = cut(rest, at, sep);
                proof {
                    if head@.contains(c) {
                        lemma_ascii_char_encodes_itself(head@, c);
                    }
                    lemma_pieces_cut(head@, c, tail@);
                    assert(strs(out@.push(head)) =~= strs(out@).push(head@));
                    assert(strs(out@).push(head@) + pieces(tail@, c) =~= strs(out@) + (seq![head@]
                        + pieces(tail@, c)));
                }
                out.push(head);
                rest = tail;
            },
            None => {
                proof {
                    if rest@.contains(c) {
                        lemma_ascii_char_encodes_itself(rest@, c);
                    }
                    lemma_pieces_single(rest@, c);
                    assert(strs(out@.push(rest)) =~= strs(out@) + seq![rest@]);
                }
                out.push(rest);
                return out;
            },
        }
    }
}

// ---------------------------------------------------------------------------
// Characters
// ---------------------------------------------------------------------------

/// Characters with the Unicode property White_Space.
pub open spec fn is_space(c: char) -> bool {
    let u = c as u32;
    ||| 0x09 <= u <= 0x0d
    ||| u == 0x20
    ||| u == 0x85
    ||| u == 0xa0
    ||| u == 0x1680
    ||| 0x2000 <= u <= 0x200a
    ||| u == 0x2028
    ||| u == 0x2029
    ||| u == 0x202f
    ||| u == 0x205f
    ||| u == 0x3000
}

/// Characters of the Unicode category Cc.
pub open spec fn is_control(c: char) -> bool {
    let u = c as u32;
    u <= 0x1f || 0x7f <= u <= 0x9f
}

/// ASCII letters and digits.
pub open spec fn is_alphanumeric(c: char) -> bool {
    ('a' <= c && c <= 'z') || ('A' <= c && c <= 'Z') || ('0' <= c && c <= '9')
}

pub fn space(c: char) -> (r: bool)
    ensures
        r == is_space(c),
{
    let u: u32 = c as u32;
    (0x09 <= u && u <= 0x0d) || u == 0x20 || u == 0x85 || u == 0xa0 || u == 0x1680 || (0x2000 <= u
        && u <= 0x200a) || u == 0x2028 || u == 0x2029 || u == 0x202f || u == 0x205f || u == 0x3000
}

pub fn control(c: char) -> (r: bool)
    ensures
        r == is_control(c),
{
    let u: u32 = c as u32;
    u <= 0x1f || (0x7f <= u && u <= 0x9f)
}

pub fn alphanumeric(c: char) -> (r: bool)
    ensures
        r == is_alphanumeric(c),
{
    ('a' <= c && c <= 'z') || ('A' <= c && c <= 'Z') || ('0' <= c && c <= '9')
}

/// A character with ASCII capitals made small.
pub open spec fn small(c: char) -> char {
    if 'A' <= c && c <= 'Z' {
        (c as u32 + 32) as char
    } else {
        c
    }
}

/// A text with ASCII capitals made small.
pub open spec fn lowered(s: Seq<char>) -> Seq<char> {
    Seq::new(s.len(), |i: int| small(s[i]))
}

/// Whether `s` is `t` once its ASCII capitals are made small.
pub fn same_small(s: &str, t: &str) -> (r: bool)
    ensures
        r == (lowered(s@) == t@),
{
    let a: Vec<char> = chars(s);
    let b: Vec<char> = chars(t);
    if a.len() != b.len() {
        assert(lowered(s@).len() != t@.len());
        return false;
    }
    let mut i: usize = 0;
    while i < a.len()
        invariant
            i <= a@.len(),
            a@.len() == b@.len(),
            a@ == s@,
            b@ == t@,
            forall|j: int| 0 <= j < i ==> small(#[trigger] s@[j]) == t@[j],
        decreases a@.len() - i,
    {
        let c: char = a[i];
        let d: char = if 'A' <= c && c <= 'Z' {
            ((c as u8) + 32) as char
        } else {
            c
        };
        if d != b[i] {
            assert(lowered(s@)[i as int] != t@[i as int]);
            return false;
        }
        i += 1;
    }
    assert(lowered(s@) =~= t@);
    true
}

/// The characters of a text.
pub fn chars(s: &str) -> (r: Vec<char>)
    ensures
        r@ == s@,
{
    let mut out: Vec<char> = Vec::new();
    for c in it: s.chars()
        invariant
            it.seq() == s@,
            out@ == s@.take(it.index() as int),
    {
        out.push(c);
        assert(out@ =~= s@.take(it.index() + 1));
    }
    assert(out@ =~= s@);
    out
}

/// Whether a text holds nothing but white space.
pub open spec fn blank(s: Seq<char>) -> bool {
    forall|i: int| 0 <= i < s.len() ==> is_space(#[trigger] s[i])
}

pub fn is_blank(s: &str) -> (r: bool)
    ensures
        r == blank(s@),
{
    let all: Vec<char> = chars(s);
    let mut i: usize = 0;
    while i < all.len()
        invariant
            i <= all@.len(),
            all@ == s@,
            forall|j: int| 0 <= j < i ==> is_space(#[trigger] s@[j]),
        decreases all@.len() - i,
    {
        if !space(all[i]) {
            assert(!is_space(s@[i as int]));
            return false;
        }
        i += 1;
    }
    true
}

/// Whether a text holds a given character.
pub fn has_char(s: &str, c: char) -> (r: bool)
    ensures
        r == s@.contains(c),
{
    let all: Vec<char> = chars(s);
    let mut i: usize = 0;
    while i < all.len()
        invariant
            i <= all@.len(),
            all@ == s@,
            forall|j: int| 0 <= j < i ==> s@[j] != c,
        decreases all@.len() - i,
    {
        if all[i] == c {
            assert(s@[i as int] == c);
            return true;
        }
        i += 1;
    }
    false
}

/// Whether a text holds a control character.
pub fn has_control(s: &str) -> (r: bool)
    ensures
        r == exists|i: int| 0 <= i < s@.len() && is_control(#[trigger] s@[i]),
{
    let all: Vec<char> = chars(s);
    let mut i: usize = 0;
    while i < all.len()
        invariant
            i <= all@.len(),
            all@ == s@,
            forall|j: int| 0 <= j < i ==> !is_control(#[trigger] s@[j]),
        decreases all@.len() - i,
    {
        if control(all[i]) {
            assert(is_control(s@[i as int]));
            return true;
        }
        i += 1;
    }
    false
}

// ---------------------------------------------------------------------------
// Prefixes and bounded copies
// ---------------------------------------------------------------------------

/// Whether `s` starts with `head`.
pub open spec fn begins(s: Seq<char>, head: Seq<char>) -> bool {
    head.len() <= s.len() && s.take(head.len() as int) == head
}

/// Whether `s` starts with `head`.
pub fn starts_with(s: &str, head: &str) -> (r: bool)
    ensures
        r == begins(s@, head@),
{
    let n: usize = head.unicode_len();
    if n <= s.unicode_len() {
        let first: &str = s.substring_char(0, n);
        assert(first@ =~= s@.take(n as int));
        same(first, head)
    } else {
        false
    }
}

/// The first `max` characters, or all of them where there are fewer.
pub open spec fn clipped(s: Seq<char>, max: int) -> Seq<char> {
    if s.len() <= max {
        s
    } else {
        s.take(max)
    }
}

/// The first `max` characters, or all of them where there are fewer.
pub fn clip(s: &str, max: usize) -> (r: String)
    ensures
        r@ == clipped(s@, max as int),
{
    if s.unicode_len() <= max {
        s.to_owned()
    } else {
        let first: &str = s.substring_char(0, max);
        assert(first@ =~= s@.take(max as int));
        first.to_owned()
    }
}

/// Whether `part` occurs in `s` at position `at`.
pub open spec fn occurs_at(s: Seq<char>, part: Seq<char>, at: int) -> bool {
    0 <= at && at + part.len() <= s.len() && s.subrange(at, at + part.len()) == part
}

/// Whether `part` occurs in `s`.
pub open spec fn occurs(s: Seq<char>, part: Seq<char>) -> bool {
    exists|at: int| #[trigger] occurs_at(s, part, at)
}

/// Whether `part` occurs in `s`.
pub fn contains(s: &str, part: &str) -> (r: bool)
    ensures
        r == occurs(s@, part@),
{
    let n: usize = s.unicode_len();
    let m: usize = part.unicode_len();
    if m > n {
        return false;
    }
    let mut at: usize = 0;
    while at <= n - m
        invariant
            n == s@.len(),
            m == part@.len(),
            m <= n,
            at <= n - m + 1,
            forall|j: int| 0 <= j < at ==> !#[trigger] occurs_at(s@, part@, j),
        decreases n - m + 1 - at,
    {
        let here: &str = s.substring_char(at, at + m);
        if same(here, part) {
            assert(occurs_at(s@, part@, at as int));
            return true;
        }
        if at == n - m {
            return false;
        }
        at += 1;
    }
    false
}

// ---------------------------------------------------------------------------
// Composition
// ---------------------------------------------------------------------------

/// Two texts in a row.
pub fn join2(a: &str, b: &str) -> (r: String)
    ensures
        r@ == a@ + b@,
{
    a.to_owned().concat(b)
}

/// Three texts in a row.
pub fn join3(a: &str, b: &str, c: &str) -> (r: String)
    ensures
        r@ == a@ + b@ + c@,
{
    a.to_owned().concat(b).concat(c)
}

/// The decimal digits of a number.
pub open spec fn digits(n: nat) -> Seq<char>
    decreases n,
{
    if n < 10 {
        seq![('0' as u32 + n) as char]
    } else {
        digits(n / 10).push(('0' as u32 + n % 10) as char)
    }
}

fn digit(n: u64) -> (r: &'static str)
    requires
        n < 10,
    ensures
        r@ == seq![('0' as u32 + n) as char],
{
    proof {
        reveal_strlit("0");
        reveal_strlit("1");
        reveal_strlit("2");
        reveal_strlit("3");
        reveal_strlit("4");
        reveal_strlit("5");
        reveal_strlit("6");
        reveal_strlit("7");
        reveal_strlit("8");
        reveal_strlit("9");
    }
    let r: &'static str = if n == 0 {
        "0"
    } else if n == 1 {
        "1"
    } else if n == 2 {
        "2"
    } else if n == 3 {
        "3"
    } else if n == 4 {
        "4"
    } else if n == 5 {
        "5"
    } else if n == 6 {
        "6"
    } else if n == 7 {
        "7"
    } else if n == 8 {
        "8"
    } else {
        "9"
    };
    assert(r@ =~= seq![('0' as u32 + n) as char]);
    r
}

/// A number in decimal.
pub fn decimal(n: u64) -> (r: String)
    ensures
        r@ == digits(n as nat),
    decreases n,
{
    if n < 10 {
        digit(n).to_owned()
    } else {
        let mut out: String = decimal(n / 10);
        let last: &'static str = digit(n % 10);
        out.append(last);
        assert(out@ =~= digits(n as nat));
        out
    }
}

/// Texts in a row, with `sep` between neighbours.
pub open spec fn listed(parts: Seq<Seq<char>>, sep: Seq<char>) -> Seq<char>
    decreases parts.len(),
{
    if parts.len() == 0 {
        Seq::empty()
    } else if parts.len() == 1 {
        parts[0]
    } else {
        listed(parts.drop_last(), sep) + sep + parts.last()
    }
}

/// Texts in a row, with `sep` between neighbours.
pub fn list(parts: &Vec<String>, sep: &str) -> (r: String)
    ensures
        r@ == listed(texts(parts@), sep@),
{
    let mut out: String = String::new();
    let mut i: usize = 0;
    while i < parts.len()
        invariant
            i <= parts@.len(),
            out@ == listed(texts(parts@).take(i as int), sep@),
        decreases parts@.len() - i,
    {
        let ghost so_far = texts(parts@).take(i as int);
        let ghost next = texts(parts@).take(i + 1);
        proof {
            assert(next.drop_last() =~= so_far);
            assert(next.last() == parts@[i as int]@);
        }
        if i > 0 {
            out.append(sep);
        } else {
            assert(so_far =~= Seq::empty());
        }
        out.append(parts[i].as_str());
        proof {
            if i == 0 {
                assert(out@ =~= next[0]);
            }
        }
        i += 1;
    }
    assert(texts(parts@).take(i as int) =~= texts(parts@));
    out
}

// ---------------------------------------------------------------------------
// Order and sets
// ---------------------------------------------------------------------------

/// Lexicographic order of byte sequences.
pub open spec fn bytes_before(a: Seq<u8>, b: Seq<u8>) -> bool
    decreases a.len(),
{
    if b.len() == 0 {
        false
    } else if a.len() == 0 {
        true
    } else if a[0] != b[0] {
        a[0] < b[0]
    } else {
        bytes_before(a.drop_first(), b.drop_first())
    }
}

/// Lexicographic order of texts by their bytes.
pub open spec fn before(a: Seq<char>, b: Seq<char>) -> bool {
    bytes_before(encode_utf8(a), encode_utf8(b))
}

proof fn lemma_bytes_before_total(a: Seq<u8>, b: Seq<u8>)
    ensures
        bytes_before(a, b) || bytes_before(b, a) || a == b,
        !(bytes_before(a, b) && bytes_before(b, a)),
        a == b ==> !bytes_before(a, b),
    decreases a.len(),
{
    if a.len() > 0 && b.len() > 0 && a[0] == b[0] {
        lemma_bytes_before_total(a.drop_first(), b.drop_first());
        if a.drop_first() == b.drop_first() {
            assert(a =~= seq![a[0]] + a.drop_first());
            assert(b =~= seq![b[0]] + b.drop_first());
        }
    } else if a.len() == 0 && b.len() == 0 {
        assert(a =~= b);
    }
}

proof fn lemma_bytes_before_transitive(a: Seq<u8>, b: Seq<u8>, c: Seq<u8>)
    requires
        bytes_before(a, b),
        bytes_before(b, c),
    ensures
        bytes_before(a, c),
    decreases a.len(),
{
    if a.len() > 0 && b.len() > 0 && c.len() > 0 && a[0] == b[0] && b[0] == c[0] {
        lemma_bytes_before_transitive(a.drop_first(), b.drop_first(), c.drop_first());
    }
}

/// The order is total: of two texts one comes first, unless they are the same.
pub proof fn lemma_before_total(a: Seq<char>, b: Seq<char>)
    ensures
        before(a, b) || before(b, a) || a == b,
        !(before(a, b) && before(b, a)),
        a == b ==> !before(a, b),
{
    lemma_bytes_before_total(encode_utf8(a), encode_utf8(b));
    if encode_utf8(a) == encode_utf8(b) {
        lemma_same_bytes(a, b);
    }
}

pub proof fn lemma_before_transitive(a: Seq<char>, b: Seq<char>, c: Seq<char>)
    requires
        before(a, b),
        before(b, c),
    ensures
        before(a, c),
{
    lemma_bytes_before_transitive(encode_utf8(a), encode_utf8(b), encode_utf8(c));
}

proof fn lemma_bytes_before_at(a: Seq<u8>, b: Seq<u8>, i: int)
    requires
        0 <= i <= a.len(),
        i <= b.len(),
        forall|j: int| 0 <= j < i ==> a[j] == b[j],
    ensures
        bytes_before(a, b) == bytes_before(a.skip(i), b.skip(i)),
    decreases i,
{
    if i == 0 {
        assert(a.skip(0) =~= a);
        assert(b.skip(0) =~= b);
    } else {
        let (a1, b1) = (a.drop_first(), b.drop_first());
        assert forall|j: int| 0 <= j < i - 1 implies a1[j] == b1[j] by {
            assert(a[j + 1] == b[j + 1]);
        }
        lemma_bytes_before_at(a1, b1, i - 1);
        assert(a1.skip(i - 1) =~= a.skip(i));
        assert(b1.skip(i - 1) =~= b.skip(i));
        assert(a[0] == b[0]);
    }
}

/// Whether `a` comes before `b`.
pub fn less(a: &str, b: &str) -> (r: bool)
    ensures
        r == before(a@, b@),
{
    let x = a.as_bytes();
    let y = b.as_bytes();
    let mut i: usize = 0;
    while i < x.len() && i < y.len()
        invariant
            x@ == encode_utf8(a@),
            y@ == encode_utf8(b@),
            i <= x@.len(),
            i <= y@.len(),
            forall|j: int| 0 <= j < i ==> x@[j] == y@[j],
        decreases x@.len() - i,
    {
        if x[i] != y[i] {
            proof {
                lemma_bytes_before_at(x@, y@, i as int);
                assert(x@.skip(i as int)[0] == x@[i as int]);
                assert(y@.skip(i as int)[0] == y@[i as int]);
            }
            return x[i] < y[i];
        }
        i += 1;
    }
    proof {
        lemma_bytes_before_at(x@, y@, i as int);
    }
    i < y.len()
}

/// Whether a sequence of texts is in order, without repetitions.
pub open spec fn ascending(v: Seq<Seq<char>>) -> bool {
    forall|i: int, j: int| 0 <= i < j < v.len() ==> before(#[trigger] v[i], #[trigger] v[j])
}

/// Whether a text is among others.
pub fn among(v: &Vec<String>, s: &str) -> (r: bool)
    ensures
        r == texts(v@).contains(s@),
{
    let mut i: usize = 0;
    while i < v.len()
        invariant
            i <= v@.len(),
            forall|j: int| 0 <= j < i ==> (#[trigger] v@[j])@ != s@,
        decreases v@.len() - i,
    {
        if same(v[i].as_str(), s) {
            assert(texts(v@)[i as int] == s@);
            return true;
        }
        i += 1;
    }
    proof {
        if texts(v@).contains(s@) {
            let j = choose|j: int| 0 <= j < texts(v@).len() && texts(v@)[j] == s@;
            assert(v@[j]@ == s@);
        }
    }
    false
}

/// Adds a text to an ascending set of texts.
pub fn set_insert(v: &mut Vec<String>, s: &str)
    requires
        ascending(texts(old(v)@)),
    ensures
        ascending(texts(final(v)@)),
        forall|t: Seq<char>| #[trigger]
            texts(final(v)@).contains(t) <==> texts(old(v)@).contains(t) || t == s@,
{
    let ghost start = texts(v@);
    let mut i: usize = 0;
    while i < v.len() && less(v[i].as_str(), s)
        invariant
            texts(v@) == start,
            i <= v@.len(),
            forall|j: int| 0 <= j < i ==> before(#[trigger] start[j], s@),
        decreases v@.len() - i,
    {
        assert(start[i as int] == v@[i as int]@);
        i += 1;
    }
    if i < v.len() && same(v[i].as_str(), s) {
        assert(start[i as int] == s@);
        return ;
    }
    v.insert(i, s.to_owned());
    proof {
        let after = texts(v@);
        assert(after =~= start.insert(i as int, s@));
        if i < start.len() {
            lemma_before_total(start[i as int], s@);
        }
        assert forall|a: int, b: int| 0 <= a < b < after.len() implies before(
            #[trigger] after[a],
            #[trigger] after[b],
        ) by {
            if b < i {
                assert(before(start[a], start[b]));
            } else if b == i {
                assert(before(start[a], s@));
            } else if a == i {
                if b - 1 > i {
                    assert(before(start[i as int], start[b - 1]));
                    lemma_before_transitive(s@, start[i as int], start[b - 1]);
                }
            } else if a < i {
                assert(before(start[a], start[b - 1]));
            } else {
                assert(before(start[a - 1], start[b - 1]));
            }
        }
        assert forall|t: Seq<char>| #[trigger] after.contains(t) <==> start.contains(t) || t == s@ by {
            if start.contains(t) {
                let j = choose|j: int| 0 <= j < start.len() && start[j] == t;
                if j < i {
                    assert(after[j] == t);
                } else {
                    assert(after[j + 1] == t);
                }
            }
            if t == s@ {
                assert(after[i as int] == t);
            }
            if after.contains(t) {
                let j = choose|j: int| 0 <= j < after.len() && after[j] == t;
                if j < i {
                    assert(start[j] == t);
                } else if j > i {
                    assert(start[j - 1] == t);
                }
            }
        }
    }
}

/// The set of some texts, in order.
pub fn set_of(v: &Vec<String>) -> (r: Vec<String>)
    ensures
        ascending(texts(r@)),
        forall|t: Seq<char>| #[trigger] texts(r@).contains(t) <==> texts(v@).contains(t),
{
    let mut out: Vec<String> = Vec::new();
    let mut i: usize = 0;
    while i < v.len()
        invariant
            i <= v@.len(),
            ascending(texts(out@)),
            forall|t: Seq<char>| #[trigger]
                texts(out@).contains(t) <==> texts(v@).take(i as int).contains(t),
        decreases v@.len() - i,
    {
        let ghost so_far = texts(out@);
        set_insert(&mut out, v[i].as_str());
        proof {
            let ghost first = texts(v@).take(i as int);
            let ghost next = texts(v@).take(i + 1);
            assert(next =~= first.push(v@[i as int]@));
            assert forall|t: Seq<char>| #[trigger] texts(out@).contains(t) <==> next.contains(t) by {
                assert(so_far.contains(t) <==> first.contains(t));
                if first.contains(t) {
                    let j = choose|j: int| 0 <= j < first.len() && first[j] == t;
                    assert(next[j] == t);
                }
                if t == v@[i as int]@ {
                    assert(next[i as int] == t);
                }
                if next.contains(t) {
                    let j = choose|j: int| 0 <= j < next.len() && next[j] == t;
                    if j < i {
                        assert(first[j] == t);
                    }
                }
            }
        }
        i += 1;
    }
    assert(texts(v@).take(i as int) =~= texts(v@));
    out
}

/// An ascending sequence is determined by the texts it holds.
pub proof fn law_a_set_has_one_order(a: Seq<Seq<char>>, b: Seq<Seq<char>>)
    requires
        ascending(a),
        ascending(b),
        forall|t: Seq<char>| #[trigger] a.contains(t) <==> b.contains(t),
    ensures
        a == b,
    decreases a.len(),
{
    if a.len() == 0 {
        if b.len() > 0 {
            assert(b.contains(b[0]));
            assert(a.contains(b[0]));
        }
        assert(a =~= b);
    } else {
        assert(a.contains(a[0]));
        assert(b.contains(a[0]));
        assert(b.contains(b[0]));
        assert(a.contains(b[0]));
        let i = choose|i: int| 0 <= i < b.len() && b[i] == a[0];
        let j = choose|j: int| 0 <= j < a.len() && a[j] == b[0];
        if i > 0 {
            assert(before(b[0], b[i]));
            if j > 0 {
                assert(before(a[0], a[j]));
            }
            lemma_before_total(a[0], b[0]);
        }
        assert(a[0] == b[0]);
        let (a1, b1) = (a.drop_first(), b.drop_first());
        assert forall|x: int, y: int| 0 <= x < y < a1.len() implies before(#[trigger] a1[x], #[trigger] a1[y]) by {
            assert(before(a[x + 1], a[y + 1]));
        }
        assert forall|x: int, y: int| 0 <= x < y < b1.len() implies before(#[trigger] b1[x], #[trigger] b1[y]) by {
            assert(before(b[x + 1], b[y + 1]));
        }
        assert forall|t: Seq<char>| #[trigger] a1.contains(t) <==> b1.contains(t) by {
            if a1.contains(t) {
                let x = choose|x: int| 0 <= x < a1.len() && a1[x] == t;
                assert(a[x + 1] == t);
                assert(a.contains(t));
                assert(before(a[0], a[x + 1]));
                lemma_before_total(a[0], t);
                let y = choose|y: int| 0 <= y < b.len() && b[y] == t;
                assert(b1[y - 1] == t);
            }
            if b1.contains(t) {
                let x = choose|x: int| 0 <= x < b1.len() && b1[x] == t;
                assert(b[x + 1] == t);
                assert(b.contains(t));
                assert(a.contains(t));
                assert(before(b[0], b[x + 1]));
                lemma_before_total(b[0], t);
                let y = choose|y: int| 0 <= y < a.len() && a[y] == t;
                assert(a1[y - 1] == t);
            }
        }
        law_a_set_has_one_order(a1, b1);
        assert(a =~= seq![a[0]] + a1);
        assert(b =~= seq![b[0]] + b1);
    }
}

/// Whether two lists hold the same texts in the same order.
pub fn same_texts(a: &Vec<String>, b: &Vec<String>) -> (r: bool)
    ensures
        r == (texts(a@) == texts(b@)),
{
    if a.len() != b.len() {
        assert(texts(a@).len() != texts(b@).len());
        return false;
    }
    let mut i: usize = 0;
    while i < a.len()
        invariant
            i <= a@.len(),
            a@.len() == b@.len(),
            forall|j: int| 0 <= j < i ==> (#[trigger] a@[j])@ == b@[j]@,
        decreases a@.len() - i,
    {
        if !same(a[i].as_str(), b[i].as_str()) {
            assert(texts(a@)[i as int] != texts(b@)[i as int]);
            return false;
        }
        i += 1;
    }
    assert(texts(a@) =~= texts(b@));
    true
}

/// Whether two optional texts are the same.
pub open spec fn same_option(a: Option<String>, b: Option<String>) -> bool {
    match (a, b) {
        (Some(x), Some(y)) => x@ == y@,
        (None, None) => true,
        _ => false,
    }
}

pub fn same_optional(a: &Option<String>, b: &Option<String>) -> (r: bool)
    ensures
        r == same_option(*a, *b),
{
    match (a, b) {
        (Some(x), Some(y)) => same(x.as_str(), y.as_str()),
        (None, None) => true,
        _ => false,
    }
}

/// Whether every text of `part` is among `whole`.
pub open spec fn subset(part: Seq<Seq<char>>, whole: Seq<Seq<char>>) -> bool {
    forall|i: int| 0 <= i < part.len() ==> whole.contains(#[trigger] part[i])
}

/// Whether every text of `part` is among `whole`.
pub fn all_among(part: &Vec<String>, whole: &Vec<String>) -> (r: bool)
    ensures
        r == subset(texts(part@), texts(whole@)),
{
    let mut i: usize = 0;
    while i < part.len()
        invariant
            i <= part@.len(),
            forall|j: int| 0 <= j < i ==> texts(whole@).contains(#[trigger] texts(part@)[j]),
        decreases part@.len() - i,
    {
        if !among(whole, part[i].as_str()) {
            assert(!texts(whole@).contains(texts(part@)[i as int]));
            return false;
        }
        i += 1;
    }
    true
}

/// A copy of some texts.
pub fn copied(v: &Vec<String>) -> (r: Vec<String>)
    ensures
        r@ == v@,
{
    let mut out: Vec<String> = Vec::new();
    let mut i: usize = 0;
    while i < v.len()
        invariant
            i <= v@.len(),
            out@ == v@.take(i as int),
        decreases v@.len() - i,
    {
        out.push(v[i].clone());
        i += 1;
        assert(out@ =~= v@.take(i as int));
    }
    assert(out@ =~= v@);
    out
}

/// The texts of a sequence in order, each once.
pub open spec fn in_order(all: Seq<Seq<char>>) -> Seq<Seq<char>> {
    choose|v: Seq<Seq<char>>|
        #[trigger] ascending(v) && forall|t: Seq<char>| #[trigger] v.contains(t) <==> all.contains(t)
}

/// An ascending sequence that holds the texts of another one is its set.
pub proof fn lemma_in_order(v: Seq<Seq<char>>, all: Seq<Seq<char>>)
    requires
        ascending(v),
        forall|t: Seq<char>| #[trigger] v.contains(t) <==> all.contains(t),
    ensures
        v == in_order(all),
        v.len() == all.to_set().len(),
{
    let w = in_order(all);
    assert(ascending(w) && forall|t: Seq<char>| #[trigger] w.contains(t) <==> all.contains(t));
    assert forall|t: Seq<char>| #[trigger] v.contains(t) <==> w.contains(t) by {
        assert(all.contains(t) <==> w.contains(t));
    }
    law_a_set_has_one_order(v, w);
    assert(v.no_duplicates()) by {
        assert forall|i: int, j: int| 0 <= i < v.len() && 0 <= j < v.len() && i != j implies v[i]
            != v[j] by {
            lemma_before_total(v[i], v[j]);
            if i < j {
                assert(before(v[i], v[j]));
            } else {
                assert(before(v[j], v[i]));
            }
        }
    }
    v.unique_seq_to_set();
    assert(v.to_set() =~= all.to_set());
}

/// Where a text belongs in an ascending sequence, from the `i`-th place on.
pub open spec fn place(v: Seq<Seq<char>>, x: Seq<char>, i: int) -> int
    decreases v.len() - i,
{
    if i < 0 || i >= v.len() || before(x, v[i]) {
        i
    } else {
        place(v, x, i + 1)
    }
}

pub proof fn lemma_place(v: Seq<Seq<char>>, x: Seq<char>, i: int)
    requires
        0 <= i <= v.len(),
        ascending(v),
        !v.contains(x),
        forall|k: int| 0 <= k < i ==> before(#[trigger] v[k], x),
    ensures
        i <= place(v, x, i) <= v.len(),
        ascending(v.insert(place(v, x, i), x)),
    decreases v.len() - i,
{
    if i >= v.len() || before(x, v[i]) {
        let w = v.insert(i, x);
        assert forall|a: int, b: int| 0 <= a < b < w.len() implies before(
            #[trigger] w[a],
            #[trigger] w[b],
        ) by {
            if b == i {
                assert(w[a] == v[a]);
            } else if a == i {
                assert(w[b] == v[b - 1]);
                if b - 1 > i {
                    assert(before(v[i], v[b - 1]));
                    lemma_before_transitive(x, v[i], v[b - 1]);
                }
            } else {
                let (p, q) = (
                    if a < i {
                        a
                    } else {
                        a - 1
                    },
                    if b < i {
                        b
                    } else {
                        b - 1
                    },
                );
                assert(w[a] == v[p] && w[b] == v[q]);
            }
        }
    } else {
        lemma_before_total(x, v[i]);
        assert(v.contains(v[i]));
        assert(before(v[i], x));
        lemma_place(v, x, i + 1);
    }
}

/// Every sequence of texts has an order, which holds exactly its texts.
pub proof fn law_texts_can_be_ordered(all: Seq<Seq<char>>)
    ensures
        ascending(in_order(all)),
        forall|t: Seq<char>| #[trigger] in_order(all).contains(t) <==> all.contains(t),
    decreases all.len(),
{
    if all.len() == 0 {
        let none = Seq::<Seq<char>>::empty();
        assert(ascending(none) && forall|t: Seq<char>| #[trigger]
            none.contains(t) <==> all.contains(t));
    } else {
        let (rest, x) = (all.drop_last(), all.last());
        law_texts_can_be_ordered(rest);
        let w = in_order(rest);
        assert(all =~= rest.push(x));
        let v = if w.contains(x) {
            w
        } else {
            w.insert(place(w, x, 0), x)
        };
        if !w.contains(x) {
            lemma_place(w, x, 0);
        }
        assert forall|t: Seq<char>| #[trigger] v.contains(t) <==> all.contains(t) by {
            lemma_push_contains(rest, x, t);
            assert(w.contains(t) <==> rest.contains(t));
            if !w.contains(x) {
                let p = place(w, x, 0);
                if w.contains(t) {
                    let k = choose|k: int| 0 <= k < w.len() && w[k] == t;
                    if k < p {
                        assert(v[k] == t);
                    } else {
                        assert(v[k + 1] == t);
                    }
                }
                if t == x {
                    assert(v[p] == x);
                }
                if v.contains(t) && t != x {
                    let k = choose|k: int| 0 <= k < v.len() && v[k] == t;
                    if k < p {
                        assert(w[k] == t);
                    } else {
                        assert(w[k - 1] == t);
                    }
                }
            }
        }
        assert(ascending(v));
    }
}

/// Adds texts to an ascending set of texts.
pub fn set_extend(v: &mut Vec<String>, more: &Vec<String>)
    requires
        ascending(texts(old(v)@)),
    ensures
        ascending(texts(final(v)@)),
        forall|t: Seq<char>| #[trigger]
            texts(final(v)@).contains(t) <==> texts(old(v)@).contains(t) || texts(more@).contains(t),
{
    let ghost start = texts(v@);
    let ghost all = texts(more@);
    let mut i: usize = 0;
    while i < more.len()
        invariant
            all == texts(more@),
            i <= more@.len(),
            ascending(texts(v@)),
            forall|t: Seq<char>| #[trigger]
                texts(v@).contains(t) <==> start.contains(t) || all.take(i as int).contains(t),
        decreases more@.len() - i,
    {
        let ghost so_far = texts(v@);
        set_insert(v, more[i].as_str());
        proof {
            let first = all.take(i as int);
            let next = all.take(i + 1);
            assert(next =~= first.push(more@[i as int]@));
            assert forall|t: Seq<char>| #[trigger] texts(v@).contains(t) <==> start.contains(t)
                || next.contains(t) by {
                assert(so_far.contains(t) <==> start.contains(t) || first.contains(t));
                lemma_push_contains(first, more@[i as int]@, t);
            }
        }
        i += 1;
    }
    assert(all.take(i as int) =~= all);
}

/// What a sequence holds after one more text.
pub proof fn lemma_push_contains(s: Seq<Seq<char>>, x: Seq<char>, t: Seq<char>)
    ensures
        s.push(x).contains(t) <==> s.contains(t) || t == x,
{
    if s.contains(t) {
        let j = choose|j: int| 0 <= j < s.len() && s[j] == t;
        assert(s.push(x)[j] == t);
    }
    if t == x {
        assert(s.push(x)[s.len() as int] == t);
    }
    if s.push(x).contains(t) {
        let j = choose|j: int| 0 <= j < s.push(x).len() && s.push(x)[j] == t;
        if j < s.len() {
            assert(s[j] == t);
        }
    }
}

/// What two sequences hold together.
pub proof fn lemma_sum_contains(a: Seq<Seq<char>>, b: Seq<Seq<char>>, t: Seq<char>)
    ensures
        (a + b).contains(t) <==> a.contains(t) || b.contains(t),
{
    if a.contains(t) {
        let j = choose|j: int| 0 <= j < a.len() && a[j] == t;
        assert((a + b)[j] == t);
    }
    if b.contains(t) {
        let j = choose|j: int| 0 <= j < b.len() && b[j] == t;
        assert((a + b)[a.len() + j] == t);
    }
    if (a + b).contains(t) {
        let j = choose|j: int| 0 <= j < (a + b).len() && (a + b)[j] == t;
        if j < a.len() {
            assert(a[j] == t);
        } else {
            assert(b[j - a.len()] == t);
        }
    }
}

/// How many different texts there are.
pub fn distinct(v: &Vec<String>) -> (r: usize)
    ensures
        r == texts(v@).to_set().len(),
{
    let set: Vec<String> = set_of(v);
    proof {
        lemma_in_order(texts(set@), texts(v@));
        assert(texts(set@).len() == set@.len());
    }
    set.len()
}

/// Whether two lists hold the same texts, in whatever order and number.
pub fn same_set(a: &Vec<String>, b: &Vec<String>) -> (r: bool)
    ensures
        r == (texts(a@).to_set() == texts(b@).to_set()),
{
    let ghost (x, y) = (texts(a@), texts(b@));
    let r: bool = all_among(a, b) && all_among(b, a);
    proof {
        if r {
            assert forall|t: Seq<char>| x.to_set().contains(t) <==> y.to_set().contains(t) by {
                if x.contains(t) {
                    let i = choose|i: int| 0 <= i < x.len() && x[i] == t;
                    assert(y.contains(x[i]));
                }
                if y.contains(t) {
                    let i = choose|i: int| 0 <= i < y.len() && y[i] == t;
                    assert(x.contains(y[i]));
                }
            }
            assert(x.to_set() =~= y.to_set());
        } else if x.to_set() == y.to_set() {
            assert(subset(x, y)) by {
                assert forall|i: int| 0 <= i < x.len() implies y.contains(#[trigger] x[i]) by {
                    assert(x.to_set().contains(x[i]));
                    assert(y.to_set().contains(x[i]));
                }
            }
            assert(subset(y, x)) by {
                assert forall|i: int| 0 <= i < y.len() implies x.contains(#[trigger] y[i]) by {
                    assert(y.to_set().contains(y[i]));
                    assert(x.to_set().contains(y[i]));
                }
            }
        }
    }
    r
}

/// Whether one position comes before another when positions are sorted by
/// their texts, equal texts staying in their order.
pub open spec fn precedes(keys: Seq<Seq<char>>, a: int, b: int) -> bool {
    before(keys[a], keys[b]) || (keys[a] == keys[b] && a < b)
}

/// Whether an order holds each of the first `n` positions once, sorted by their
/// texts.
pub open spec fn sorts(order: Seq<usize>, keys: Seq<Seq<char>>, n: int) -> bool {
    &&& order.len() == n
    &&& forall|i: int| 0 <= i < order.len() ==> (#[trigger] order[i]) < n
    &&& forall|i: int, j: int|
        0 <= i < j < order.len() ==> precedes(
            keys,
            (#[trigger] order[i]) as int,
            (#[trigger] order[j]) as int,
        )
}

/// An order that sorts positions holds no position twice.
pub proof fn law_an_order_repeats_nothing(
    order: Seq<usize>,
    keys: Seq<Seq<char>>,
    n: int,
    i: int,
    j: int,
)
    requires
        sorts(order, keys, n),
        0 <= i < j < order.len(),
    ensures
        order[i] != order[j],
{
    lemma_before_total(keys[order[i] as int], keys[order[j] as int]);
}

/// The positions of some texts, sorted by them.
pub fn order_of(keys: &Vec<String>) -> (r: Vec<usize>)
    ensures
        sorts(r@, texts(keys@), keys@.len() as int),
{
    let ghost all = texts(keys@);
    let mut out: Vec<usize> = Vec::new();
    let mut n: usize = 0;
    while n < keys.len()
        invariant
            all == texts(keys@),
            n <= keys@.len(),
            sorts(out@, all, n as int),
        decreases keys@.len() - n,
    {
        let ghost so_far = out@;
        let mut at: usize = out.len();
        while at > 0 && less(keys[n].as_str(), keys[out[at - 1]].as_str())
            invariant
                all == texts(keys@),
                n < keys@.len(),
                out@ == so_far,
                sorts(so_far, all, n as int),
                at <= out@.len(),
                forall|i: int|
                    at <= i < out@.len() ==> before(all[n as int], all[(#[trigger] out@[i]) as int]),
            decreases at,
        {
            assert(all[out@[at - 1] as int] == keys@[out@[at - 1] as int]@);
            at -= 1;
        }
        proof {
            if at > 0 {
                assert(all[out@[at - 1] as int] == keys@[out@[at - 1] as int]@);
                assert(!before(all[n as int], all[so_far[at - 1] as int]));
            }
        }
        out.insert(at, n);
        proof {
            let next = out@;
            assert(next =~= so_far.insert(at as int, n));
            assert forall|i: int, j: int| 0 <= i < j < next.len() implies precedes(
                all,
                (#[trigger] next[i]) as int,
                (#[trigger] next[j]) as int,
            ) by {
                if i < at && j < at {
                    assert(precedes(all, so_far[i] as int, so_far[j] as int));
                } else if i < at && j == at {
                    lemma_before_total(all[n as int], all[so_far[at - 1] as int]);
                    if i < at - 1 {
                        assert(precedes(all, so_far[i] as int, so_far[at - 1] as int));
                        if before(all[so_far[i] as int], all[so_far[at - 1] as int]) && before(
                            all[so_far[at - 1] as int],
                            all[n as int],
                        ) {
                            lemma_before_transitive(
                                all[so_far[i] as int],
                                all[so_far[at - 1] as int],
                                all[n as int],
                            );
                        }
                    }
                } else if i < at {
                    assert(precedes(all, so_far[i] as int, so_far[j - 1] as int));
                } else if i == at {
                    assert(before(all[n as int], all[so_far[j - 1] as int]));
                } else {
                    assert(precedes(all, so_far[i - 1] as int, so_far[j - 1] as int));
                }
            }
        }
        n += 1;
    }
    out
}

// ---------------------------------------------------------------------------
// Lines of text for people
// ---------------------------------------------------------------------------

/// The first place from `i` on where no white space stands.
pub open spec fn solid_from(s: Seq<char>, i: int) -> int
    decreases s.len() - i,
{
    if i < 0 || i >= s.len() || !is_space(s[i]) {
        i
    } else {
        solid_from(s, i + 1)
    }
}

/// The last place up to `n`, not before `start`, in front of which no white space
/// stands.
pub open spec fn solid_to(s: Seq<char>, start: int, n: int) -> int
    decreases n - start,
{
    if n <= start || !is_space(s[n - 1]) {
        n
    } else {
        solid_to(s, start, n - 1)
    }
}

/// A text without the white space around it.
pub open spec fn trimmed(s: Seq<char>) -> Seq<char> {
    let start = solid_from(s, 0);
    s.subrange(start, solid_to(s, start, s.len() as int))
}

pub fn trim(s: &str) -> (r: &str)
    ensures
        r@ == trimmed(s@),
{
    let all: Vec<char> = chars(s);
    let mut start: usize = 0;
    while start < all.len() && space(all[start])
        invariant
            start <= all@.len(),
            all@ == s@,
            solid_from(s@, 0) == solid_from(s@, start as int),
        decreases all@.len() - start,
    {
        start += 1;
    }
    let mut end: usize = all.len();
    while end > start && space(all[end - 1])
        invariant
            start <= end <= all@.len(),
            all@ == s@,
            solid_to(s@, start as int, s@.len() as int) == solid_to(s@, start as int, end as int),
        decreases end,
    {
        end -= 1;
    }
    s.substring_char(start, end)
}

/// A text filled up with spaces on the right.
pub open spec fn padded(s: Seq<char>, width: int) -> Seq<char>
    decreases width - s.len(),
{
    if s.len() >= width {
        s
    } else {
        padded(s.push(' '), width)
    }
}

pub fn pad(s: &str, width: usize) -> (r: String)
    ensures
        r@ == padded(s@, width as int),
{
    proof {
        reveal_strlit(" ");
    }
    let mut out: String = s.to_owned();
    let mut n: usize = s.unicode_len();
    while n < width
        invariant
            n == out@.len(),
            padded(s@, width as int) == padded(out@, width as int),
            " "@ == seq![' '],
        decreases width - n,
    {
        let ghost before = out@;
        out.append(" ");
        assert(out@ =~= before.push(' '));
        n += 1;
    }
    out
}

/// The value of decimal digits.
pub open spec fn value(s: Seq<char>) -> nat
    decreases s.len(),
{
    if s.len() == 0 {
        0
    } else {
        value(s.drop_last()) * 10 + (s.last() as u32 - '0' as u32) as nat
    }
}

/// Whether a text is made of decimal digits only.
pub open spec fn all_digits(s: Seq<char>) -> bool {
    forall|i: int| 0 <= i < s.len() ==> '0' <= #[trigger] s[i] && s[i] <= '9'
}

/// The digits of a number that may have a plus sign.
pub open spec fn unsigned_part(s: Seq<char>) -> Seq<char> {
    if s.len() > 0 && s[0] == '+' {
        s.skip(1)
    } else {
        s
    }
}

/// The number that a text is, if it is one and not larger than `max`.
pub open spec fn number(s: Seq<char>, max: nat) -> Option<nat> {
    let d = unsigned_part(s);
    if d.len() > 0 && all_digits(d) && value(d) <= max {
        Some(value(d))
    } else {
        None
    }
}

proof fn lemma_value_grows(s: Seq<char>, n: int)
    requires
        all_digits(s),
        0 <= n <= s.len(),
    ensures
        value(s.take(n)) <= value(s),
    decreases s.len() - n,
{
    if n < s.len() {
        let more = s.take(n + 1);
        assert(more.drop_last() =~= s.take(n));
        assert(value(more) >= value(s.take(n)) * 10);
        lemma_value_grows(s, n + 1);
    } else {
        assert(s.take(n) =~= s);
    }
}

pub fn parse(s: &str, max: u64) -> (r: Option<u64>)
    ensures
        match r {
            Some(n) => number(s@, max as nat) == Some(n as nat),
            None => number(s@, max as nat) is None,
        },
{
    let all: Vec<char> = chars(s);
    let from: usize = if all.len() > 0 && all[0] == '+' {
        1
    } else {
        0
    };
    let ghost d = unsigned_part(s@);
    if all.len() == from {
        assert(d.len() == 0);
        return None;
    }
    assert(d =~= s@.skip(from as int));
    let mut n: u64 = 0;
    let mut fits: bool = true;
    let mut i: usize = from;
    assert(d.take(0) =~= Seq::<char>::empty());
    while i < all.len()
        invariant
            from <= i <= all@.len(),
            all@ == s@,
            d == s@.skip(from as int),
            forall|k: int| 0 <= k < i - from ==> '0' <= #[trigger] d[k] && d[k] <= '9',
            n <= max,
            fits ==> n == value(d.take(i - from)),
            !fits ==> value(d.take(i - from)) > max,
            d == unsigned_part(s@),
        decreases all@.len() - i,
    {
        let c: char = all[i];
        assert(d[i - from] == c);
        if !('0' <= c && c <= '9') {
            return None;
        }
        let last: u64 = c as u64 - '0' as u64;
        proof {
            let next = d.take(i - from + 1);
            assert(next.drop_last() =~= d.take(i - from));
            assert(value(next) == value(d.take(i - from)) * 10 + last);
        }
        if fits {
            if last > max || n > (max - last) / 10 {
                fits = false;
            } else {
                n = n * 10 + last;
            }
        }
        i += 1;
    }
    assert(d.take(i - from) =~= d);
    if fits {
        Some(n)
    } else {
        None
    }
}

proof fn lemma_solid_from(s: Seq<char>, i: int)
    requires
        0 <= i <= s.len(),
    ensures
        i <= solid_from(s, i) <= s.len(),
        forall|k: int| i <= k < solid_from(s, i) ==> is_space(#[trigger] s[k]),
        solid_from(s, i) < s.len() ==> !is_space(s[solid_from(s, i)]),
    decreases s.len() - i,
{
    if i < s.len() && is_space(s[i]) {
        lemma_solid_from(s, i + 1);
    }
}

proof fn lemma_solid_to(s: Seq<char>, start: int, n: int)
    requires
        0 <= start <= n <= s.len(),
    ensures
        start <= solid_to(s, start, n) <= n,
        forall|k: int| solid_to(s, start, n) <= k < n ==> is_space(#[trigger] s[k]),
        start < solid_to(s, start, n) ==> !is_space(s[solid_to(s, start, n) - 1]),
    decreases n - start,
{
    if start < n && is_space(s[n - 1]) {
        lemma_solid_to(s, start, n - 1);
    }
}

/// Trimming takes white space off both ends of a text, all of it and nothing else.
pub proof fn law_trimming_takes_the_space_around(s: Seq<char>) -> (ends: (int, int))
    ensures
        0 <= ends.0 <= ends.1 <= s.len(),
        trimmed(s) == s.subrange(ends.0, ends.1),
        blank(s.take(ends.0)),
        blank(s.skip(ends.1)),
        ends.0 < ends.1 ==> !is_space(s[ends.0]) && !is_space(s[ends.1 - 1]),
{
    let start = solid_from(s, 0);
    lemma_solid_from(s, 0);
    let end = solid_to(s, start, s.len() as int);
    lemma_solid_to(s, start, s.len() as int);
    assert forall|i: int| 0 <= i < s.take(start).len() implies is_space(
        #[trigger] s.take(start)[i],
    ) by {
        assert(is_space(s[i]));
    }
    assert forall|i: int| 0 <= i < s.skip(end).len() implies is_space(#[trigger] s.skip(end)[i]) by {
        assert(is_space(s[end + i]));
    }
    (start, end)
}

/// A number that was written is read back, where it is not above the limit.
pub proof fn law_written_numbers_are_read_back(n: nat, max: nat)
    ensures
        digits(n).len() > 0,
        all_digits(digits(n)),
        value(digits(n)) == n,
        number(digits(n), max) == (if n <= max {
            Some(n)
        } else {
            None
        }),
        number(seq!['+'] + digits(n), max) == number(digits(n), max),
    decreases n,
{
    if n < 10 {
        assert(digits(n).drop_last() =~= Seq::<char>::empty());
        assert(value(digits(n).drop_last()) == 0);
    } else {
        law_written_numbers_are_read_back(n / 10, max);
        assert(digits(n).drop_last() =~= digits(n / 10));
    }
    assert(unsigned_part(digits(n)) == digits(n)) by {
        assert('0' <= digits(n)[0]);
    }
    assert((seq!['+'] + digits(n)).skip(1) =~= digits(n));
}

/// Padding puts spaces behind a text until it is as wide as it should be.
pub proof fn law_padding_only_puts_spaces_behind(s: Seq<char>, width: int)
    ensures
        s.len() >= width ==> padded(s, width) == s,
        s.len() < width ==> padded(s, width).len() == width,
        padded(s, width).len() >= s.len(),
        padded(s, width).take(s.len() as int) == s,
        forall|i: int| s.len() <= i < padded(s, width).len() ==> #[trigger] padded(s, width)[i] == ' ',
    decreases width - s.len(),
{
    if s.len() < width {
        law_padding_only_puts_spaces_behind(s.push(' '), width);
        let all = padded(s, width);
        assert(all.take(s.len() as int) =~= all.take((s.len() + 1) as int).take(s.len() as int));
        assert(s.push(' ').take(s.len() as int) =~= s);
        assert(all[s.len() as int] == all.take((s.len() + 1) as int)[s.len() as int]);
    } else {
        assert(s.take(s.len() as int) =~= s);
    }
}

/// What begins a text is the first part of it, and what is clipped off stood behind the limit.
pub proof fn law_heads_and_clips_come_first(s: Seq<char>, head: Seq<char>, rest: Seq<char>, max: nat)
    ensures
        begins(head + rest, head),
        begins(s, head) ==> s == head + s.skip(head.len() as int),
        clipped(s, max as int).len() == (if s.len() <= max {
            s.len()
        } else {
            max
        }),
        begins(s, clipped(s, max as int)),
{
    assert((head + rest).take(head.len() as int) =~= head);
    if begins(s, head) {
        assert(s =~= s.take(head.len() as int) + s.skip(head.len() as int));
    }
    assert(s.take(s.len() as int) =~= s);
}

} // verus!
