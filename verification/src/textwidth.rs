//! Fixed-width terminal display width of characters.
//!
//! The width of a character is the number of terminal columns it occupies:
//! 1 for most glyphs, 2 for wide glyphs, 0 for combining marks, and none at
//! all for control characters. The full table is the business of the
//! `unicode_width` crate; this module names its result and records the few
//! facts the rest of the library relies on.

use vstd::prelude::*;

verus! {

/// The display width that `unicode_width` assigns to `c`: `None` for a
/// control character, otherwise the number of terminal columns.
pub uninterp spec fn display_width_of(c: char) -> Option<usize>;

/// Relies on `unicode_width::UnicodeWidthChar::width`: a pure table lookup
/// over the character alone. Its source gives printable ASCII (U+0020 up to
/// U+007E) width 1 and makes ASCII control characters widthless.
#[verifier::external_body]
pub(crate) fn char_display_width(c: char) -> (r: Option<usize>)
    ensures
        r == display_width_of(c),
        ' ' <= c && c <= '~' ==> r == Some(1usize),
        c < ' ' ==> r is None,
{
    unicode_width::UnicodeWidthChar::width(c)
}

} // verus!
