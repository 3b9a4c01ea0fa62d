//! Terminal columns taken by characters, as the `unicode-width` crate reports them.
use unicode_width::UnicodeWidthChar;
use vstd::prelude::*;

verus! {

/// What `unicode_width::UnicodeWidthChar::width` returns for `c`.
pub uninterp spec fn unicode_char_width(c: char) -> Option<usize>;

/// Calls `UnicodeWidthChar::width`: the columns that `c` takes, or `None` for
/// a control character. The crate's source shows that printable ASCII
/// characters take one column, that characters below U+0020 and from U+007F
/// to U+009F are control characters, and that no character takes more than
/// three columns. Which width every other character has is left unsaid.
#[verifier::external_body]
fn unicode_width_of(c: char) -> (r: Option<usize>)
    ensures
        r == unicode_char_width(c),
        0x20 <= (c as u32) < 0x7f ==> r == Some(1usize),
        (c as u32) < 0x20 || 0x7f <= (c as u32) < 0xa0 ==> r is None,
        r matches Some(w) ==> w <= 3,
{
    UnicodeWidthChar::width(c)
}

/// Columns taken by `c`, a control character taking none: one for a
/// printable ASCII character, else what `unicode-width` reports.
pub open spec fn char_cols(c: char) -> nat {
    if 0x20 <= (c as u32) < 0x7f {
        1
    } else {
        match unicode_char_width(c) {
            Some(w) => w as nat,
            None => 0,
        }
    }
}

/// Columns taken by the characters of `t`, one after the other.
pub open spec fn text_width(t: Seq<char>) -> nat
    decreases t.len(),
{
    if t.len() == 0 {
        0
    } else {
        text_width(t.drop_last()) + char_cols(t.last())
    }
}

/// Whether every column position in `t`, at most three per character, fits in a `usize`.
pub open spec fn fits_columns(t: Seq<char>) -> bool {
    3 * t.len() <= usize::MAX
}

/// Columns taken by `c`.
pub fn char_width(c: char) -> (w: usize)
    ensures
        w == char_cols(c),
        w <= 3,
{
    match unicode_width_of(c) {
        Some(w) => w,
        None => 0,
    }
}

} // verus!
