//! The status markers printed at the end of a console line: a run of dots that fills
//! the line up to a marker (`[ Ok ]`, `[ Неудача ]` or an information text).
use vstd::prelude::*;
use unicode_segmentation::UnicodeSegmentation;

verus! {

/// The console that command results are printed to.
pub struct TerminalWriter;

/// Width, in columns, of the success marker `" [ Ok ]"`.
pub const OK_MARKER_WIDTH: usize = 7;

/// Width, in columns, of the failure marker `" [ Неудача ]"`.
pub const BAD_MARKER_WIDTH: usize = 12;

/// What `UnicodeSegmentation::graphemes(text, true).count()` gives: the number of
/// extended grapheme clusters of a text.
pub uninterp spec fn grapheme_count(text: Seq<char>) -> nat;

/// Calls `unicode_segmentation::UnicodeSegmentation::graphemes` (extended clusters)
/// and counts them. The count is [`grapheme_count`] of the text; each cluster holds at
/// least one character and the clusters cover the text, so the count is at most the
/// number of characters and is zero exactly for the empty text.
#[verifier::external_body]
fn count_graphemes(text: &str) -> (r: usize)
    ensures
        r == grapheme_count(text@),
        r <= text@.len(),
        (r == 0) == (text@.len() == 0),
{
    text.graphemes(true).count()
}

/// The number of dots before the success marker on a line `width` columns wide whose
/// cursor stands at column `used`.
pub fn ok_fill(width: u16, used: u16) -> (r: usize)
    requires
        used <= width,
        width - used >= OK_MARKER_WIDTH,
    ensures
        r == width - used - OK_MARKER_WIDTH,
{
    (width - used) as usize - OK_MARKER_WIDTH
}

/// The number of dots before the failure marker on a line `width` columns wide whose
/// cursor stands at column `used`.
pub fn bad_fill(width: u16, used: u16) -> (r: usize)
    requires
        used <= width,
        width - used >= BAD_MARKER_WIDTH,
    ensures
        r == width - used - BAD_MARKER_WIDTH,
{
    (width - used) as usize - BAD_MARKER_WIDTH
}

/// The number of dots before an information text: the free columns of the line less
/// the text's width in grapheme clusters, or none when the text does not fit.
pub fn info_fill(width: u16, used: u16, text: &str) -> (r: usize)
    requires
        used <= width,
    ensures
        r == if grapheme_count(text@) <= width - used {
            width - used - grapheme_count(text@)
        } else {
            0
        },
{
    let free = (width - used) as usize;
    let text_width = count_graphemes(text);
    if text_width <= free {
        free - text_width
    } else {
        0
    }
}

/// `n` dots.
pub fn dots(n: usize) -> (r: String)
    ensures
        r@ == Seq::new(n as nat, |i: int| '.'),
{
    let mut v: Vec<char> = Vec::new();
    let mut i: usize = 0;
    while i < n
        invariant
            i <= n,
            v@ == Seq::new(i as nat, |k: int| '.'),
        decreases n - i,
    {
        v.push('.');
        i += 1;
        assert(v@ =~= Seq::new(i as nat, |k: int| '.'));
    }
    crate::chars::from_chars(&v)
}

} // verus!
