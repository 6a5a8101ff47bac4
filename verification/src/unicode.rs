use vstd::prelude::*;

use unicode_segmentation::UnicodeSegmentation;
use unicode_width::{UnicodeWidthChar, UnicodeWidthStr};

verus! {

/// The extended grapheme clusters of a string, in order.
pub uninterp spec fn graphemes_of(s: Seq<char>) -> Seq<Seq<char>>;

/// The displayed column width of a string.
pub uninterp spec fn display_width(s: Seq<char>) -> usize;

/// The displayed column width of one character, `None` for control characters.
pub uninterp spec fn char_display_width(c: char) -> Option<usize>;

/// Relies on unicode_segmentation::UnicodeSegmentation::graphemes (extended
/// mode): it splits a string into its extended grapheme clusters, which are
/// non-empty and concatenate back to the original string, and depend on the
/// characters alone.
#[verifier::external_body]
pub(crate) fn split_graphemes(s: &str) -> (r: Vec<String>)
    ensures
        r@.map_values(|g: String| g@) == graphemes_of(s@),
        r@.map_values(|g: String| g@).flatten() == s@,
        forall|i: int| 0 <= i < r@.len() ==> r@[i]@.len() > 0,
{
    s.graphemes(true).map(|g| g.to_string()).collect()
}

/// Relies on unicode_width::UnicodeWidthChar::width: the displayed column
/// width of one character, `None` for a control character; it depends on the
/// character alone.
#[verifier::external_body]
pub(crate) fn char_width(c: char) -> (r: Option<usize>)
    ensures
        r == char_display_width(c),
{
    UnicodeWidthChar::width(c)
}

/// Relies on unicode_width::UnicodeWidthStr::width: the displayed column
/// width of a string; it depends on the characters alone.
#[verifier::external_body]
pub(crate) fn str_width(s: &str) -> (r: usize)
    ensures
        r == display_width(s@),
{
    UnicodeWidthStr::width(s)
}

/// Relies on char's ToString: the string holding exactly that character.
#[verifier::external_body]
pub(crate) fn char_to_string(c: char) -> (r: String)
    ensures
        r@ == seq![c],
{
    c.to_string()
}

} // verus!
