//! The shape of identifiers.
use crate::text;
use vstd::prelude::*;
use vstd::string::*;

verus! {

pub const IDENTIFIER_RULE: &'static str =
    "identifier must be 1-128 characters matching ^[A-Za-z0-9][A-Za-z0-9._:-]*$";

/// A character that an identifier may hold after its first.
pub open spec fn is_identifier_char(c: char) -> bool {
    text::is_alphanumeric(c) || c == '.' || c == '_' || c == ':' || c == '-'
}

/// 1 to 128 characters: a letter or digit, then letters, digits, dots,
/// underscores, colons and hyphens.
pub open spec fn is_identifier(s: Seq<char>) -> bool {
    &&& 1 <= s.len() <= 128
    &&& text::is_alphanumeric(s[0])
    &&& forall|i: int| 0 <= i < s.len() ==> is_identifier_char(#[trigger] s[i])
}

/// Whether a text is an identifier.
pub fn identifier(s: &str) -> (r: bool)
    ensures
        r == is_identifier(s@),
{
    let all: Vec<char> = text::chars(s);
    if all.len() < 1 || all.len() > 128 || !text::alphanumeric(all[0]) {
        return false;
    }
    let mut i: usize = 0;
    while i < all.len()
        invariant
            i <= all@.len(),
            all@ == s@,
            forall|j: int| 0 <= j < i ==> is_identifier_char(#[trigger] s@[j]),
        decreases all@.len() - i,
    {
        let c: char = all[i];
        if !(text::alphanumeric(c) || c == '.' || c == '_' || c == ':' || c == '-') {
            assert(!is_identifier_char(s@[i as int]));
            return false;
        }
        i += 1;
    }
    true
}

} // verus!
