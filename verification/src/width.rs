//! Display width of text, as measured by the `unicode-width` crate.

use vstd::prelude::*;

verus! {

/// The number of terminal columns that `text` occupies when it is drawn.
pub uninterp spec fn display_width(text: Seq<char>) -> nat;

/// The width that a cell stores for `text`: what `display_width` names, and
/// no column for no text.
pub open spec fn width_of(text: Seq<char>) -> nat {
    if text.len() == 0 {
        0
    } else {
        display_width(text)
    }
}

/// Measures `text` with `unicode_width::UnicodeWidthStr::width`.
///
/// Trusted: the result is a function of the characters of `text` alone, and
/// it is that function which `display_width` names. Text without characters
/// occupies no column.
#[verifier::external_body]
pub(crate) fn measure(text: &str) -> (w: usize)
    ensures
        w == display_width(text@),
        text@.len() == 0 ==> w == 0,
{
    unicode_width::UnicodeWidthStr::width(text)
}

} // verus!
