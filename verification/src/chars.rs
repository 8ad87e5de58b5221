//! Classes of chars that word movement and word selection use.
use vstd::prelude::*;

verus! {

/// `c` has the Unicode `White_Space` property.
pub open spec fn spec_is_whitespace(c: char) -> bool {
    let u = c as u32;
    (0x09 <= u <= 0x0D) || u == 0x20 || u == 0x85 || u == 0xA0 || u == 0x1680 || (0x2000 <= u
        <= 0x200A) || u == 0x2028 || u == 0x2029 || u == 0x202F || u == 0x205F || u == 0x3000
}

/// Whether `char::is_alphanumeric` holds of `c` (the Unicode `Alphabetic`
/// property or a numeric general category).
pub uninterp spec fn char_is_alphanumeric(c: char) -> bool;

/// Whether `c` has the Unicode `White_Space` property (what
/// `char::is_whitespace` answers).
pub(crate) fn is_whitespace(c: char) -> (b: bool)
    ensures
        b == spec_is_whitespace(c),
{
    let u = c as u32;
    (0x09 <= u && u <= 0x0D) || u == 0x20 || u == 0x85 || u == 0xA0 || u == 0x1680 || (0x2000 <= u
        && u <= 0x200A) || u == 0x2028 || u == 0x2029 || u == 0x202F || u == 0x205F || u == 0x3000
}

/// `char::is_alphanumeric`: whether `c` is alphabetic or numeric in
/// Unicode.  Which chars those are is not stated; the result is named.
#[verifier::external_body]
pub(crate) fn is_alphanumeric(c: char) -> (b: bool)
    ensures
        b == char_is_alphanumeric(c),
{
    c.is_alphanumeric()
}

/// A char that belongs to a word: alphanumeric or an underscore.
pub open spec fn is_word_char(c: char) -> bool {
    char_is_alphanumeric(c) || c == '_'
}

} // verus!
