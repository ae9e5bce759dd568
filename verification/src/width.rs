//! Terminal columns of characters and strings, as the `unicode-width` crate measures them.

use unicode_width::{UnicodeWidthChar, UnicodeWidthStr};
use vstd::prelude::*;

verus! {

/// The columns `unicode-width` gives one character, `None` for a control character.
pub uninterp spec fn char_columns(c: char) -> Option<usize>;

/// The columns `unicode-width` gives a string; not always the sum over its characters, since
/// some sequences (`"\r\n"`, emoji sequences, a few ligatures) are measured as one.
pub uninterp spec fn str_columns(s: Seq<char>) -> usize;

/// Printable ASCII: U+0020 to U+007E.
pub open spec fn printable_ascii(c: char) -> bool {
    0x20 <= (c as u32) && (c as u32) < 0x7f
}

/// `UnicodeWidthChar::width`. Its source gives printable ASCII one column, control characters
/// (below U+0020 and U+007F to U+009F) no width, and every other character a width of at most
/// three columns.
#[verifier::external_body]
pub fn char_width(c: char) -> (w: Option<usize>)
    ensures
        w == char_columns(c),
        printable_ascii(c) ==> w == Some(1usize),
        ((c as u32) < 0x20 || (0x7f <= (c as u32) && (c as u32) < 0xa0)) ==> w is None,
        (c as u32) >= 0xa0 ==> w is Some,
        w matches Some(n) ==> n <= 3,
{
    c.width()
}

/// `UnicodeWidthStr::width`. Its source measures a string of printable ASCII as one column per
/// character, and never more than three columns per character.
#[verifier::external_body]
pub fn str_width(s: &str) -> (w: usize)
    ensures
        w == str_columns(s@),
        (forall|i: int| 0 <= i < s@.len() ==> printable_ascii(#[trigger] s@[i])) ==> w == s@.len(),
        w <= 3 * s@.len(),
{
    UnicodeWidthStr::width(s)
}

} // verus!
