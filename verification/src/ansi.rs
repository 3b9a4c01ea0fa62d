//! ANSI escape sequences in a line, and the visible text around them.
//!
//! An escape sequence starts with `ESC`. When `[` follows, it is a CSI
//! sequence, which runs up to and including its final character, one in the
//! range `@` to `~` other than `[` (or to the end of the line). Otherwise the
//! sequence is `ESC` and the single character after it.
use crate::text::str_chars;
use crate::width::{char_cols, char_width, fits_columns, text_width};
use vstd::prelude::*;

verus! {

/// The character that starts an escape sequence.
pub open spec fn is_esc(c: char) -> bool {
    c == '\x1b'
}

/// Whether `c` ends a CSI sequence.
pub open spec fn is_csi_final(c: char) -> bool {
    '@' <= c <= '~' && c != '['
}

/// Position right after the end of a CSI sequence, looking for its final
/// character from position `j` on.
pub open spec fn csi_end(s: Seq<char>, j: int) -> int
    decreases s.len() - j,
{
    if j >= s.len() {
        s.len() as int
    } else if is_csi_final(s[j]) {
        j + 1
    } else {
        csi_end(s, j + 1)
    }
}

/// Position right after the escape sequence whose `ESC` stands just before
/// position `i`.
pub open spec fn escape_end(s: Seq<char>, i: int) -> int {
    if i >= s.len() {
        i
    } else if s[i] != '[' {
        i + 1
    } else {
        csi_end(s, i + 1)
    }
}

pub proof fn lemma_csi_end_bounds(s: Seq<char>, j: int)
    requires
        0 <= j <= s.len(),
    ensures
        j <= csi_end(s, j) <= s.len(),
    decreases s.len() - j,
{
    if j < s.len() && !is_csi_final(s[j]) {
        lemma_csi_end_bounds(s, j + 1);
    }
}

pub proof fn lemma_escape_end_bounds(s: Seq<char>, i: int)
    requires
        0 <= i <= s.len(),
    ensures
        i <= escape_end(s, i) <= s.len(),
        i < s.len() ==> i < escape_end(s, i),
{
    if i < s.len() && s[i] == '[' {
        lemma_csi_end_bounds(s, i + 1);
    }
}

/// The visible characters of `s` from position `i` on: escape sequences are left out.
pub open spec fn visible_from(s: Seq<char>, i: int) -> Seq<char>
    decreases s.len() - i,
{
    if i < 0 || i >= s.len() {
        Seq::empty()
    } else if is_esc(s[i]) {
        proof {
            lemma_escape_end_bounds(s, i + 1);
        }
        visible_from(s, escape_end(s, i + 1))
    } else {
        seq![s[i]] + visible_from(s, i + 1)
    }
}

/// The visible characters of a line.
pub open spec fn visible_text(s: Seq<char>) -> Seq<char> {
    visible_from(s, 0)
}

/// The width of `done.push(c)` is that of `done` and that of `c`.
pub proof fn lemma_text_width_push(done: Seq<char>, c: char)
    ensures
        text_width(done.push(c)) == text_width(done) + char_cols(c),
{
    assert(done.push(c).drop_last() =~= done);
}

/// Consumes the rest of an escape sequence whose `ESC` stands just before
/// position `i`, and returns the position right after it.
pub fn skip_escape(chars: &[char], i: usize) -> (end: usize)
    requires
        i <= chars@.len(),
    ensures
        end == escape_end(chars@, i as int),
{
    let n = chars.len();
    if i >= n {
        return i;
    }
    if chars[i] != '[' {
        // Not a CSI sequence, so it is a single character
        return i + 1;
    }
    let mut j = i + 1;
    while j < n
        invariant
            n == chars@.len(),
            i + 1 <= j <= n,
            chars@[i as int] == '[',
            csi_end(chars@, j as int) == csi_end(chars@, i as int + 1),
        decreases n - j,
    {
        let chr = chars[j];
        // Any character in this range terminates a CSI sequence
        if '@' <= chr && chr <= '~' && chr != '[' {
            assert(is_csi_final(chars@[j as int]));
            return j + 1;
        }
        j = j + 1;
    }
    n
}

/// Visible characters of an ANSI-colored line, with the column each starts at.
pub fn visible_chars(line: &str) -> (r: Vec<(char, usize)>)
    requires
        fits_columns(line@),
    ensures
        r@.len() == visible_text(line@).len(),
        visible_text(line@).len() <= line@.len(),
        text_width(visible_text(line@)) <= 3 * line@.len(),
        forall|k: int|
            #![trigger r@[k]]
            0 <= k < r@.len() ==> r@[k].0 == visible_text(line@)[k] && r@[k].1 == text_width(
                visible_text(line@).take(k),
            ),
{
    let chars = str_chars(line);
    let n = chars.len();
    let mut result: Vec<(char, usize)> = Vec::new();
    let mut column: usize = 0;
    let mut i: usize = 0;
    let ghost mut done: Seq<char> = Seq::empty();
    while i < n
        invariant
            n == chars@.len(),
            chars@ == line@,
            fits_columns(line@),
            i <= n,
            done.len() <= i,
            done + visible_from(line@, i as int) == visible_text(line@),
            result@.len() == done.len(),
            forall|k: int|
                0 <= k < result@.len() ==> #[trigger] result@[k].0 == done[k] && result@[k].1
                    == text_width(done.take(k)),
            column == text_width(done),
            column <= 3 * done.len(),
        decreases n - i,
    {
        let chr = chars[i];
        if chr == '\x1b' {
            proof {
                lemma_escape_end_bounds(line@, i + 1);
            }
            i = skip_escape(chars.as_slice(), i + 1);
        } else {
            let w = char_width(chr);
            result.push((chr, column));
            proof {
                lemma_text_width_push(done, chr);
                assert(done + visible_from(line@, i as int) == done.push(chr) + visible_from(
                    line@,
                    i + 1,
                ));
                assert forall|k: int| 0 <= k < done.len() implies #[trigger] done.push(chr).take(k)
                    == done.take(k) by {
                    assert(done.push(chr).take(k) =~= done.take(k));
                }
                assert(done.push(chr).take(done.len() as int) =~= done);
                done = done.push(chr);
            }
            column = column + w;
            i = i + 1;
        }
    }
    proof {
        assert(done =~= visible_text(line@));
    }
    result
}

/// Visible width of an ANSI-colored line, in terminal columns.
pub fn visible_width(line: &str) -> (w: usize)
    requires
        fits_columns(line@),
    ensures
        w == text_width(visible_text(line@)),
{
    let chars = str_chars(line);
    let n = chars.len();
    let mut width: usize = 0;
    let mut i: usize = 0;
    let ghost mut done: Seq<char> = Seq::empty();
    while i < n
        invariant
            n == chars@.len(),
            chars@ == line@,
            fits_columns(line@),
            i <= n,
            done.len() <= i,
            done + visible_from(line@, i as int) == visible_text(line@),
            width == text_width(done),
            width <= 3 * done.len(),
        decreases n - i,
    {
        let chr = chars[i];
        if chr == '\x1b' {
            proof {
                lemma_escape_end_bounds(line@, i + 1);
            }
            i = skip_escape(chars.as_slice(), i + 1);
        } else {
            proof {
                lemma_text_width_push(done, chr);
                assert(done + visible_from(line@, i as int) == done.push(chr) + visible_from(
                    line@,
                    i + 1,
                ));
                done = done.push(chr);
            }
            width = width + char_width(chr);
            i = i + 1;
        }
    }
    proof {
        assert(done =~= visible_text(line@));
    }
    width
}

} // verus!
