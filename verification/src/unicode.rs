use vstd::prelude::*;

verus! {

/// Whether `c` has the Unicode `White_Space` property, as `char::is_whitespace`
/// tests it: tab, line feed, vertical tab, form feed, carriage return, space,
/// U+0085, U+00A0, U+1680, U+2000 to U+200A, U+2028, U+2029, U+202F, U+205F, U+3000.
pub open spec fn whitespace(c: char) -> bool {
    let n = c as u32;
    ||| 0x09 <= n <= 0x0d
    ||| n == 0x20
    ||| n == 0x85
    ||| n == 0xa0
    ||| n == 0x1680
    ||| 0x2000 <= n <= 0x200a
    ||| n == 0x2028
    ||| n == 0x2029
    ||| n == 0x202f
    ||| n == 0x205f
    ||| n == 0x3000
}

/// Whether `char::is_alphanumeric` holds of `c` (Unicode `Alphabetic` or `Numeric`).
pub uninterp spec fn alphanumeric(c: char) -> bool;

/// The characters that `char::to_uppercase` gives for `c` (one or more).
pub uninterp spec fn uppercase(c: char) -> Seq<char>;

/// What `str::to_lowercase` gives for `s`.
pub uninterp spec fn lowercase(s: Seq<char>) -> Seq<char>;

/// Whether `c` has the Unicode `White_Space` property.
pub fn is_whitespace(c: char) -> (res: bool)
    ensures
        res == whitespace(c),
{
    let n = c as u32;
    (0x09 <= n && n <= 0x0d) || n == 0x20 || n == 0x85 || n == 0xa0 || n == 0x1680 || (0x2000 <= n
        && n <= 0x200a) || n == 0x2028 || n == 0x2029 || n == 0x202f || n == 0x205f || n == 0x3000
}

/// Calls `char::is_alphanumeric`; the result is named `alphanumeric(c)`.
#[verifier::external_body]
pub(crate) fn is_alphanumeric(c: char) -> (res: bool)
    ensures
        res == alphanumeric(c),
{
    c.is_alphanumeric()
}

/// Calls `char::to_uppercase` and collects what it yields; the result is
/// named `uppercase(c)`, and, as the documentation says, holds one or more characters.
#[verifier::external_body]
pub(crate) fn to_uppercase(c: char) -> (res: String)
    ensures
        res@ == uppercase(c),
        res@.len() >= 1,
{
    c.to_uppercase().collect()
}

/// Calls `str::to_lowercase`; the result is named `lowercase(s@)`.
#[verifier::external_body]
pub(crate) fn to_lowercase(s: &str) -> (res: String)
    ensures
        res@ == lowercase(s@),
{
    s.to_lowercase()
}

} // verus!
