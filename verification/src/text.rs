//! Character classes and string building that the lexer relies on.
use vstd::prelude::*;

verus! {

/// Whether `c` has the Unicode `Alphabetic` property, as `char::is_alphabetic` reports it.
pub uninterp spec fn unicode_alphabetic(c: char) -> bool;

/// Whether `c` is in one of the Unicode number categories, as `char::is_numeric` reports it.
pub uninterp spec fn unicode_numeric(c: char) -> bool;

/// Whether `c` has the Unicode `White_Space` property, as `char::is_whitespace` reports it:
/// the code points that the Unicode Character Database lists with that property.
pub open spec fn unicode_white_space(c: char) -> bool {
    let n = c as u32;
    ||| 0x09 <= n <= 0x0d
    ||| n == 0x20
    ||| n == 0x85
    ||| n == 0xa0
    ||| n == 0x1680
    ||| 0x2000 <= n <= 0x200a
    ||| n == 0x2028
    ||| n == 0x2029
    ||| n == 0x202f
    ||| n == 0x205f
    ||| n == 0x3000
}

/// `char::is_alphabetic`: the result is the character's `Alphabetic` property, named
/// `unicode_alphabetic`. Of the Unicode tables only the ASCII range is stated: there the
/// alphabetic characters are the letters.
#[verifier::external_body]
pub(crate) fn char_is_alphabetic(c: char) -> (b: bool)
    ensures
        b == unicode_alphabetic(c),
        (c as u32) < 0x80 ==> (b <==> (('a' <= c && c <= 'z') || ('A' <= c && c <= 'Z'))),
{
    c.is_alphabetic()
}

/// `char::is_numeric`: the result is the character's membership in the number
/// categories, named `unicode_numeric`. Of the Unicode tables only the ASCII range is
/// stated: there the numeric characters are the digits.
#[verifier::external_body]
pub(crate) fn char_is_numeric(c: char) -> (b: bool)
    ensures
        b == unicode_numeric(c),
        (c as u32) < 0x80 ==> (b <==> ('0' <= c && c <= '9')),
{
    c.is_numeric()
}

/// Whether `c` has the Unicode `White_Space` property, as `char::is_whitespace` answers.
pub(crate) fn char_is_whitespace(c: char) -> (b: bool)
    ensures
        b == unicode_white_space(c),
{
    let n = c as u32;
    (0x09 <= n && n <= 0x0d) || n == 0x20 || n == 0x85 || n == 0xa0 || n == 0x1680 || (0x2000
        <= n && n <= 0x200a) || n == 0x2028 || n == 0x2029 || n == 0x202f || n == 0x205f || n
        == 0x3000
}

/// Whether `char::is_alphabetic` holds of `c`: in the ASCII range, the letters.
pub open spec fn alphabetic(c: char) -> bool {
    if (c as u32) < 0x80 {
        ('a' <= c && c <= 'z') || ('A' <= c && c <= 'Z')
    } else {
        unicode_alphabetic(c)
    }
}

/// Whether `char::is_numeric` holds of `c`: in the ASCII range, the digits.
pub open spec fn numeric(c: char) -> bool {
    if (c as u32) < 0x80 {
        '0' <= c && c <= '9'
    } else {
        unicode_numeric(c)
    }
}

/// `char::is_alphanumeric`, which std documents as `is_alphabetic() || is_numeric()`.
pub open spec fn alphanumeric(c: char) -> bool {
    alphabetic(c) || numeric(c)
}

/// `String: FromIterator<char>`: the string holds exactly the given characters, in order.
#[verifier::external_body]
pub(crate) fn string_from_chars(cs: &Vec<char>) -> (s: String)
    ensures
        s@ == cs@,
{
    cs.iter().collect()
}

} // verus!
