//! Unicode case mapping and character classes, as the standard library
//! computes them from the Unicode tables.
use vstd::prelude::*;

verus! {

/// What `str::to_lowercase` gives for a string.
pub uninterp spec fn lowercase(s: Seq<char>) -> Seq<char>;

/// What `str::to_uppercase` gives for a string.
pub uninterp spec fn uppercase(s: Seq<char>) -> Seq<char>;

/// What `char::is_alphanumeric` says of a character.
pub uninterp spec fn is_alnum(c: char) -> bool;

/// `str::to_lowercase`: the result depends on the string alone.
#[verifier::external_body]
pub(crate) fn to_lower(s: &str) -> (r: String)
    ensures
        r@ == lowercase(s@),
{
    s.to_lowercase()
}

/// `u` is what upper-casing makes of the ASCII character `c`: a lower-case
/// letter becomes its capital, any other character stays as it is.
pub open spec fn ascii_upper_of(c: char, u: char) -> bool {
    if 'a' <= c && c <= 'z' {
        'A' <= u && u <= 'Z' && u as u32 + 32 == c as u32
    } else {
        u == c
    }
}

/// `str::to_uppercase`: the result depends on the string alone, and, as
/// its documentation says of ASCII text (`"hello"` gives `"HELLO"`, and
/// `to_ascii_uppercase` points to it for ASCII characters as well), a
/// string of ASCII characters is upper-cased one character for one.
#[verifier::external_body]
pub(crate) fn to_upper(s: &str) -> (r: String)
    ensures
        r@ == uppercase(s@),
        (forall|i: int| 0 <= i < s@.len() ==> (#[trigger] s@[i] as u32) < 128) ==> (r@.len() == s@.len() && forall|
            i: int,
        |
            0 <= i < s@.len() ==> ascii_upper_of(s@[i], #[trigger] r@[i])),
{
    s.to_uppercase()
}

/// `char::is_alphanumeric`: the result depends on the character alone.
#[verifier::external_body]
pub(crate) fn char_is_alnum(c: char) -> (b: bool)
    ensures
        b == is_alnum(c),
{
    c.is_alphanumeric()
}

} // verus!
