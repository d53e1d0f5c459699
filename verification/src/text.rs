//! The Unicode whitespace test, and specifications for the few
//! standard-library string operations that the shell relies on and that
//! vstd does not describe.

use vstd::prelude::*;

verus! {

/// Whether `c` carries the Unicode `White_Space` property: the control
/// characters U+0009 to U+000D, the space U+0020, U+0085, the no-break
/// space U+00A0, U+1680, U+2000 to U+200A, the line and paragraph
/// separators U+2028 and U+2029, U+202F, U+205F and U+3000.
pub open spec fn is_unicode_whitespace(c: char) -> bool {
    let n = c as u32;
    ||| 0x9 <= n <= 0xD
    ||| n == 0x20
    ||| n == 0x85
    ||| n == 0xA0
    ||| n == 0x1680
    ||| 0x2000 <= n <= 0x200A
    ||| n == 0x2028
    ||| n == 0x2029
    ||| n == 0x202F
    ||| n == 0x205F
    ||| n == 0x3000
}

/// Whether `c` has the Unicode `White_Space` property, the answer that
/// `char::is_whitespace` gives.
pub(crate) fn char_is_whitespace(c: char) -> (r: bool)
    ensures
        r == is_unicode_whitespace(c),
{
    let n = c as u32;
    (0x9 <= n && n <= 0xD) || n == 0x20 || n == 0x85 || n == 0xA0 || n == 0x1680 || (0x2000 <= n
        && n <= 0x200A) || n == 0x2028 || n == 0x2029 || n == 0x202F || n == 0x205F || n == 0x3000
}

/// `String::push` appends one character at the end of the buffer.
pub assume_specification[ String::push ](string: &mut String, ch: char)
    ensures
        final(string)@ == old(string)@.push(ch),
;

/// `String::pop` removes and returns the last character, or returns `None`
/// and leaves the buffer alone when it is empty.
pub assume_specification[ String::pop ](string: &mut String) -> (r: Option<char>)
    ensures
        old(string)@.len() == 0 ==> r is None && final(string)@ == old(string)@,
        old(string)@.len() > 0 ==> r == Some(old(string)@.last()) && final(string)@
            == old(string)@.drop_last(),
;

/// Calls `str::strip_suffix` with a single character as the pattern: the
/// slice without that last character when the text ends with it, `None`
/// otherwise.
#[verifier::external_body]
pub(crate) fn strip_suffix_char(text: &str, suffix: char) -> (r: Option<&str>)
    ensures
        r is Some <==> (text@.len() > 0 && text@.last() == suffix),
        r matches Some(rest) ==> rest@ == text@.drop_last(),
{
    text.strip_suffix(suffix)
}

} // verus!
