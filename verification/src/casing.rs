//! Case folding. The full Unicode lowercase mapping is left to the standard
//! library behind a named result; what the rules actually compare against it
//! is stated exactly.

use vstd::prelude::*;
use cow_utils::CowUtils;

verus! {

/// What `str::to_lowercase` returns for the characters `s`: a function of
/// the characters alone.
pub uninterp spec fn lower_of(s: Seq<char>) -> Seq<char>;

/// Relies on str::to_lowercase: the Unicode lowercase mapping of the
/// characters, depending on the characters alone.
#[verifier::external_body]
fn to_lowercase_string(s: &str) -> (r: String)
    ensures
        r@ == lower_of(s@),
{
    s.to_lowercase()
}

/// The code of a character after basic-letter lowercasing: uppercase
/// letters of the basic range move down by the case distance, all else is
/// kept.
pub open spec fn lower_char_code(u: u32) -> u32 {
    if 65 <= u && u <= 90 {
        (u + 32) as u32
    } else {
        u
    }
}

/// One character after basic-letter lowercasing.
pub open spec fn lower_char(c: char) -> char {
    lower_char_code(c as u32) as char
}

/// A character sequence after basic-letter lowercasing, pointwise.
pub open spec fn ascii_lower(s: Seq<char>) -> Seq<char> {
    Seq::new(s.len(), |i: int| lower_char(s[i]))
}

/// Relies on cow_utils::CowUtils::cow_to_ascii_lowercase: uppercase letters
/// of the basic range are mapped to their lowercase counterparts and every
/// other character is kept.
#[verifier::external_body]
pub fn ascii_lowercase_str(s: &str) -> (r: String)
    ensures
        r@ == ascii_lower(s@),
{
    s.cow_to_ascii_lowercase().into_owned()
}

/// Whether the lowercase mapping of `s` is exactly `t`.
pub fn lowercase_eq(s: &str, t: &str) -> (r: bool)
    ensures
        r == (lower_of(s@) == t@),
{
    let lowered = to_lowercase_string(s);
    crate::scope::compare_str(lowered.as_str(), t)
}

} // verus!
