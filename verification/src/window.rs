//! Horizontal windows of ANSI-colored lines, with search matches in reverse
//! video, and plain texts padded to a width.
use crate::ansi::{
    csi_end, escape_end, is_csi_final, is_esc, lemma_escape_end_bounds, skip_escape, visible_from,
    visible_text,
};
use crate::text::{push_char, str_chars};
use crate::width::{char_cols, char_width, fits_columns, text_width};
use crate::ansi::lemma_text_width_push;
use vstd::prelude::*;

verus! {

/// ANSI sequence switching reverse video on.
pub open spec fn reverse_on() -> Seq<char> {
    seq!['\x1b', '[', '7', 'm']
}

/// ANSI sequence switching reverse video off.
pub open spec fn reverse_off() -> Seq<char> {
    seq!['\x1b', '[', '2', '7', 'm']
}

/// What switches reverse video from `highlighted` to `wanted`: nothing when
/// it is in the wanted state already.
pub open spec fn toggle(highlighted: bool, wanted: bool) -> Seq<char> {
    if wanted == highlighted {
        Seq::empty()
    } else if wanted {
        reverse_on()
    } else {
        reverse_off()
    }
}

/// What ends a window: reverse video is switched off if it is on.
pub open spec fn closing(highlighted: bool) -> Seq<char> {
    toggle(highlighted, false)
}

/// Whether `column` lies in one of the column ranges of `matches`.
pub open spec fn in_matches(matches: Seq<(usize, usize)>, column: int) -> bool {
    exists|k: int| 0 <= k < matches.len() && #[trigger] matches[k].0 <= column < matches[k].1
}

/// The window of `width` columns starting at column `start` that `slice` cuts
/// out of `s`, from position `i` on, the visible characters before `i`
/// taking `column` columns and reverse video being `highlighted`.
///
/// Escape sequences are copied, and followed by a switch to reverse video
/// while it is on. A visible character that ends at or before `start` is
/// left out; the first one that begins at or after `start + width` ends the
/// window. Any other is preceded by the switch of reverse video to whether
/// its first column is a match, and is replaced by a space when only a part
/// of it is inside the window.
pub open spec fn slice_from(
    s: Seq<char>,
    i: int,
    column: int,
    highlighted: bool,
    start: int,
    width: int,
    matches: Seq<(usize, usize)>,
) -> Seq<char>
    decreases s.len() - i,
{
    if i < 0 || i >= s.len() {
        closing(highlighted)
    } else if is_esc(s[i]) {
        proof {
            lemma_escape_end_bounds(s, i + 1);
        }
        let end = escape_end(s, i + 1);
        s.subrange(i, end) + (if highlighted {
            reverse_on()
        } else {
            Seq::empty()
        }) + slice_from(s, end, column, highlighted, start, width, matches)
    } else {
        let w = char_cols(s[i]);
        if column + w <= start {
            slice_from(s, i + 1, column + w, highlighted, start, width, matches)
        } else if column >= start + width {
            closing(highlighted)
        } else {
            let wanted = in_matches(matches, column);
            let shown = if column < start || column + w > start + width {
                ' '
            } else {
                s[i]
            };
            toggle(highlighted, wanted) + seq![shown] + slice_from(
                s,
                i + 1,
                column + w,
                wanted,
                start,
                width,
                matches,
            )
        }
    }
}

/// Appends the switch of reverse video on (`on`) or off.
fn push_reverse(out: &mut String, on: bool)
    ensures
        final(out)@ == old(out)@ + (if on {
            reverse_on()
        } else {
            reverse_off()
        }),
{
    push_char(out, '\x1b');
    push_char(out, '[');
    if on {
        push_char(out, '7');
    } else {
        push_char(out, '2');
        push_char(out, '7');
    }
    push_char(out, 'm');
    proof {
        if on {
            assert(final(out)@ =~= old(out)@ + reverse_on());
        } else {
            assert(final(out)@ =~= old(out)@ + reverse_off());
        }
    }
}

/// Switch reverse video on or off, unless it is in the wanted state already.
pub fn set_highlight(result: &mut String, highlighted: &mut bool, wanted: bool)
    ensures
        *final(highlighted) == wanted,
        final(result)@ == old(result)@ + toggle(*old(highlighted), wanted),
{
    if wanted != *highlighted {
        push_reverse(result, wanted);
        *highlighted = wanted;
    } else {
        assert(final(result)@ =~= old(result)@ + toggle(*old(highlighted), wanted));
    }
}

/// Whether `column` lies in one of the column ranges of `matches`.
pub fn is_match(matches: &[(usize, usize)], column: usize) -> (r: bool)
    ensures
        r == in_matches(matches@, column as int),
{
    let mut k: usize = 0;
    while k < matches.len()
        invariant
            k <= matches@.len(),
            forall|j: int| 0 <= j < k ==> !(#[trigger] matches@[j].0 <= column < matches@[j].1),
        decreases matches@.len() - k,
    {
        let (from, to) = matches[k];
        if column >= from && column < to {
            assert(matches@[k as int].0 <= column < matches@[k as int].1);
            return true;
        }
        k = k + 1;
    }
    false
}

/// Cut a horizontal window of `width` columns out of an ANSI-colored `line`,
/// starting at column `start`.
///
/// Escape sequences are kept, so that colors of the visible part are the same
/// as in the un-scrolled line. Wide characters that are cut in half are
/// replaced by a space. Columns in `matches` are shown in reverse video.
pub fn slice(line: &str, start: usize, width: usize, matches: &[(usize, usize)]) -> (r: String)
    requires
        fits_columns(line@),
        start + width <= usize::MAX,
    ensures
        r@ == slice_from(line@, 0, 0, false, start as int, width as int, matches@),
{
    let chars = str_chars(line);
    let n = chars.len();
    let ghost s = line@;
    let ghost whole = slice_from(s, 0, 0, false, start as int, width as int, matches@);
    let mut result = String::new();
    let mut column: usize = 0;
    let mut highlighted = false;
    let mut i: usize = 0;
    while i < n
        invariant
            n == chars@.len(),
            chars@ == s,
            fits_columns(s),
            start + width <= usize::MAX,
            i <= n,
            column <= 3 * i,
            whole == slice_from(s, 0, 0, false, start as int, width as int, matches@),
            result@ + slice_from(
                s,
                i as int,
                column as int,
                highlighted,
                start as int,
                width as int,
                matches@,
            ) == whole,
        ensures
            result@ + closing(highlighted) == whole,
        decreases n - i,
    {
        let chr = chars[i];
        if chr == '\x1b' {
            proof {
                lemma_escape_end_bounds(s, i + 1);
            }
            let end = skip_escape(chars.as_slice(), i + 1);
            let ghost before = result@;
            let mut j = i;
            while j < end
                invariant
                    n == chars@.len(),
                    chars@ == s,
                    i <= j <= end <= n,
                    result@ == before + s.subrange(i as int, j as int),
                decreases end - j,
            {
                push_char(&mut result, chars[j]);
                proof {
                    assert(s.subrange(i as int, j + 1) =~= s.subrange(i as int, j as int).push(
                        s[j as int],
                    ));
                }
                j = j + 1;
            }
            if highlighted {
                // The sequence may have switched reverse video off again
                push_reverse(&mut result, true);
            }
            proof {
                assert(result@ + slice_from(
                    s,
                    end as int,
                    column as int,
                    highlighted,
                    start as int,
                    width as int,
                    matches@,
                ) =~= before + slice_from(
                    s,
                    i as int,
                    column as int,
                    highlighted,
                    start as int,
                    width as int,
                    matches@,
                ));
            }
            i = end;
        } else {
            let char_width = char_width(chr);
            if column + char_width <= start {
                column = column + char_width;
                i = i + 1;
                continue;
            }
            if column >= start + width {
                break;
            }
            let ghost before = result@;
            let ghost was = highlighted;
            let wanted = is_match(matches, column);
            set_highlight(&mut result, &mut highlighted, wanted);
            if column < start || column + char_width > start + width {
                // Only one half of a wide character is visible
                push_char(&mut result, ' ');
            } else {
                push_char(&mut result, chr);
            }
            proof {
                let shown = if column < start || column + char_width > start + width {
                    ' '
                } else {
                    chr
                };
                assert(result@ =~= before + toggle(was, wanted) + seq![shown]);
            }
            column = column + char_width;
            i = i + 1;
        }
    }
    let ghost before = result@;
    if highlighted {
        push_reverse(&mut result, false);
    }
    proof {
        assert(result@ =~= before + closing(highlighted));
    }
    result
}

/// `n` spaces.
pub open spec fn spaces(n: nat) -> Seq<char> {
    Seq::new(n, |k: int| ' ')
}

/// Length of the longest prefix of `t` whose width is at most `width`.
pub open spec fn fit_len(t: Seq<char>, width: int) -> nat
    decreases t.len(),
{
    if t.len() == 0 || text_width(t) <= width {
        t.len()
    } else {
        fit_len(t.drop_last(), width)
    }
}

/// `t` cut or padded with spaces to `width` columns: the longest prefix
/// that fits, then as many spaces as columns are left.
pub open spec fn padded(t: Seq<char>, width: int) -> Seq<char> {
    let n = fit_len(t, width);
    t.take(n as int) + spaces((width - text_width(t.take(n as int))) as nat)
}

/// A prefix of a text is no wider than the text.
pub proof fn lemma_text_width_prefix(t: Seq<char>, k: int)
    requires
        0 <= k <= t.len(),
    ensures
        text_width(t.take(k)) <= text_width(t),
    decreases t.len(),
{
    if k == t.len() {
        assert(t.take(k) =~= t);
    } else {
        assert(t.drop_last().take(k) =~= t.take(k));
        lemma_text_width_prefix(t.drop_last(), k);
    }
}

/// The prefix of length `i` is the longest that fits when it fits and the
/// next one does not.
pub proof fn lemma_fit_len(t: Seq<char>, width: int, i: int)
    requires
        0 <= i <= t.len(),
        text_width(t.take(i)) <= width,
        i == t.len() || text_width(t.take(i + 1)) > width,
    ensures
        fit_len(t, width) == i,
    decreases t.len(),
{
    if i == t.len() {
        assert(t.take(i) =~= t);
    } else {
        lemma_text_width_prefix(t, i + 1);
        assert(t.drop_last().take(i) =~= t.take(i));
        if i + 1 < t.len() {
            assert(t.drop_last().take(i + 1) =~= t.take(i + 1));
        } else {
            assert(t.take(i + 1) =~= t);
        }
        lemma_fit_len(t.drop_last(), width, i);
    }
}

/// Truncate or pad a plain (un-colored) text to exactly `width` columns.
pub fn pad(text: &str, width: usize) -> (r: String)
    requires
        width + 3 <= usize::MAX,
    ensures
        r@ == padded(text@, width as int),
{
    let chars = str_chars(text);
    let n = chars.len();
    let ghost t = text@;
    let mut result = String::new();
    let mut column: usize = 0;
    let mut i: usize = 0;
    while i < n
        invariant
            n == chars@.len(),
            chars@ == t,
            width + 3 <= usize::MAX,
            i <= n,
            column == text_width(t.take(i as int)),
            column <= width,
            result@ == t.take(i as int),
        ensures
            i <= n,
            column == text_width(t.take(i as int)),
            column <= width,
            result@ == t.take(i as int),
            i == n || text_width(t.take(i + 1)) > width,
        decreases n - i,
    {
        let chr = chars[i];
        let char_width = char_width(chr);
        proof {
            assert(t.take(i + 1) =~= t.take(i as int).push(chr));
            lemma_text_width_push(t.take(i as int), chr);
        }
        if column + char_width > width {
            break;
        }
        push_char(&mut result, chr);
        column = column + char_width;
        i = i + 1;
    }
    proof {
        lemma_fit_len(t, width as int, i as int);
    }
    let ghost prefix = result@;
    let mut k: usize = column;
    while k < width
        invariant
            column <= k <= width,
            result@ == prefix + spaces((k - column) as nat),
        decreases width - k,
    {
        push_char(&mut result, ' ');
        proof {
            assert(spaces((k + 1 - column) as nat) =~= spaces((k - column) as nat).push(' '));
        }
        k = k + 1;
    }
    result
}

/// Whether `t` holds no `ESC`, i.e. no escape sequence: a plain text.
pub open spec fn is_plain(t: Seq<char>) -> bool {
    forall|k: int| 0 <= k < t.len() ==> !is_esc(#[trigger] t[k])
}

/// A plain text is all visible.
pub proof fn lemma_plain_is_visible(t: Seq<char>, i: int)
    requires
        is_plain(t),
        0 <= i <= t.len(),
    ensures
        visible_from(t, i) == t.subrange(i, t.len() as int),
    decreases t.len() - i,
{
    if i < t.len() {
        lemma_plain_is_visible(t, i + 1);
        assert(t.subrange(i, t.len() as int) =~= seq![t[i]] + t.subrange(i + 1, t.len() as int));
    } else {
        assert(t.subrange(i, t.len() as int) =~= Seq::<char>::empty());
    }
}

/// The width of two texts one after the other is the sum of their widths.
pub proof fn lemma_text_width_concat(a: Seq<char>, b: Seq<char>)
    ensures
        text_width(a + b) == text_width(a) + text_width(b),
    decreases b.len(),
{
    if b.len() == 0 {
        assert(a + b =~= a);
    } else {
        lemma_text_width_concat(a, b.drop_last());
        assert((a + b).drop_last() =~= a + b.drop_last());
        assert((a + b).last() == b.last());
    }
}

/// `n` spaces take `n` columns.
pub proof fn lemma_spaces_width(n: nat)
    ensures
        text_width(spaces(n)) == n,
    decreases n,
{
    if n > 0 {
        lemma_spaces_width((n - 1) as nat);
        assert(spaces(n).drop_last() =~= spaces((n - 1) as nat));
    }
}

/// The longest prefix that fits is no longer than the text, and fits.
pub proof fn lemma_fit_len_fits(t: Seq<char>, width: int)
    requires
        0 <= width,
    ensures
        fit_len(t, width) <= t.len(),
        text_width(t.take(fit_len(t, width) as int)) <= width,
    decreases t.len(),
{
    if t.len() == 0 || text_width(t) <= width {
        assert(t.take(t.len() as int) =~= t);
    } else {
        lemma_fit_len_fits(t.drop_last(), width);
        let n = fit_len(t.drop_last(), width) as int;
        assert(t.drop_last().take(n) =~= t.take(n));
    }
}

/// `pad` gives a plain text exactly `width` columns: the visible width of the
/// result is `width`, whatever the text's own width.
pub proof fn lemma_pad_exact_width(t: Seq<char>, width: int)
    requires
        is_plain(t),
        0 <= width,
    ensures
        text_width(visible_text(padded(t, width))) == width,
        is_plain(padded(t, width)),
{
    lemma_fit_len_fits(t, width);
    let n = fit_len(t, width) as int;
    let m = (width - text_width(t.take(n))) as nat;
    let r = padded(t, width);
    assert(is_plain(r)) by {
        assert forall|k: int| 0 <= k < r.len() implies !is_esc(#[trigger] r[k]) by {
            if k < n {
                assert(r[k] == t[k]);
            } else {
                assert(r[k] == spaces(m)[k - n]);
            }
        }
    }
    lemma_plain_is_visible(r, 0);
    assert(r.subrange(0, r.len() as int) =~= r);
    lemma_text_width_concat(t.take(n), spaces(m));
    lemma_spaces_width(m);
}

/// The window of `width` columns from column `start` of a visible text `t`
/// whose first character begins at `column`: a character that ends at or
/// before `start` is left out, the first that begins at or after
/// `start + width` ends the window, and one that is only partly inside is
/// replaced by a space.
pub open spec fn window_text(t: Seq<char>, column: int, start: int, width: int) -> Seq<char>
    decreases t.len(),
{
    if t.len() == 0 {
        Seq::empty()
    } else {
        let c = t[0];
        let w = char_cols(c);
        if column + w <= start {
            window_text(t.drop_first(), column + w, start, width)
        } else if column >= start + width {
            Seq::empty()
        } else {
            seq![
                if column < start || column + w > start + width {
                    ' '
                } else {
                    c
                },
            ] + window_text(t.drop_first(), column + w, start, width)
        }
    }
}

/// Whether every `ESC` in `s` starts a complete escape sequence: one
/// character follows it, and when that is `[`, a final character follows later.
pub open spec fn well_formed_escapes(s: Seq<char>) -> bool {
    forall|i: int|
        0 <= i < s.len() && is_esc(#[trigger] s[i]) ==> {
            &&& i + 1 < s.len()
            &&& s[i + 1] == '[' ==> exists|k: int| i + 2 <= k < s.len() && is_csi_final(#[trigger] s[k])
        }
}

/// A CSI search from `p.len() + j` in `p + y` ends where the one from `j` in `y` does.
proof fn lemma_csi_end_shift(p: Seq<char>, y: Seq<char>, j: int)
    requires
        0 <= j <= y.len(),
    ensures
        csi_end(p + y, p.len() + j) == p.len() + csi_end(y, j),
    decreases y.len() - j,
{
    if j < y.len() {
        assert((p + y)[p.len() + j] == y[j]);
        lemma_csi_end_shift(p, y, j + 1);
    }
}

/// An escape sequence in `p + y` after position `p.len()` ends where it does in `y`.
proof fn lemma_escape_end_shift(p: Seq<char>, y: Seq<char>, k: int)
    requires
        0 <= k <= y.len(),
    ensures
        escape_end(p + y, p.len() + k) == p.len() + escape_end(y, k),
{
    if k < y.len() {
        assert((p + y)[p.len() + k] == y[k]);
        if y[k] == '[' {
            lemma_csi_end_shift(p, y, k + 1);
        }
    }
}

/// What is visible in `p + y` after `p` is what is visible in `y`.
pub proof fn lemma_visible_shift(p: Seq<char>, y: Seq<char>, j: int)
    requires
        0 <= j <= y.len(),
    ensures
        visible_from(p + y, p.len() + j) == visible_from(y, j),
    decreases y.len() - j,
{
    if j < y.len() {
        assert((p + y)[p.len() + j] == y[j]);
        if is_esc(y[j]) {
            lemma_escape_end_shift(p, y, j + 1);
            lemma_escape_end_bounds(y, j + 1);
            lemma_visible_shift(p, y, escape_end(y, j + 1));
        } else {
            lemma_visible_shift(p, y, j + 1);
        }
    }
}

/// An escape sequence `x` that ends within itself hides nothing that follows it.
proof fn lemma_escape_token(x: Seq<char>, y: Seq<char>)
    requires
        x.len() >= 1,
        is_esc(x[0]),
        escape_end(x + y, 1) == x.len(),
    ensures
        visible_from(x + y, 0) == visible_from(y, 0),
{
    assert((x + y)[0] == x[0]);
    lemma_visible_shift(x, y, 0);
}

/// A visible character is followed by what is visible after it.
proof fn lemma_visible_char(c: char, y: Seq<char>)
    requires
        !is_esc(c),
    ensures
        visible_from(seq![c] + y, 0) == seq![c] + visible_from(y, 0),
{
    assert((seq![c] + y)[0] == c);
    lemma_visible_shift(seq![c], y, 0);
}

/// The CSI search from `j` stops right after `k` when `k` is the first final
/// character from `j` on.
proof fn lemma_csi_end_at(a: Seq<char>, j: int, k: int)
    requires
        0 <= j <= k < a.len(),
        is_csi_final(a[k]),
        forall|t: int| j <= t < k ==> !is_csi_final(#[trigger] a[t]),
    ensures
        csi_end(a, j) == k + 1,
    decreases k - j,
{
    if j < k {
        lemma_csi_end_at(a, j + 1, k);
    }
}

/// Where a final character follows position `j`, the CSI search stops right
/// after the first one.
proof fn lemma_csi_first_final(s: Seq<char>, j: int)
    requires
        0 <= j,
        exists|t: int| j <= t < s.len() && is_csi_final(#[trigger] s[t]),
    ensures
        j < csi_end(s, j) <= s.len(),
        is_csi_final(s[csi_end(s, j) - 1]),
        forall|t: int| j <= t < csi_end(s, j) - 1 ==> !is_csi_final(#[trigger] s[t]),
    decreases s.len() - j,
{
    if !is_csi_final(s[j]) {
        let t0 = choose|t: int| j <= t < s.len() && is_csi_final(#[trigger] s[t]);
        assert(t0 != j);
        assert(j + 1 <= t0 < s.len() && is_csi_final(s[t0]));
        lemma_csi_first_final(s, j + 1);
    }
}

/// A complete escape sequence of `s`, copied, ends where it ends in `s`,
/// whatever follows the copy.
proof fn lemma_copied_escape(s: Seq<char>, i: int, y: Seq<char>)
    requires
        well_formed_escapes(s),
        0 <= i < s.len(),
        is_esc(s[i]),
    ensures
        ({
            let x = s.subrange(i, escape_end(s, i + 1));
            &&& x.len() >= 1
            &&& is_esc(x[0])
            &&& escape_end(x + y, 1) == x.len()
        }),
{
    assert(i + 1 < s.len());
    lemma_escape_end_bounds(s, i + 1);
    let e = escape_end(s, i + 1);
    let x = s.subrange(i, e);
    let z = x + y;
    assert(z[0] == s[i]);
    assert(z[1] == s[i + 1]);
    if s[i + 1] == '[' {
        lemma_csi_first_final(s, i + 2);
        assert(z[e - 1 - i] == s[e - 1]);
        assert forall|t: int| 2 <= t < e - 1 - i implies !is_csi_final(#[trigger] z[t]) by {
            assert(z[t] == s[t + i]);
        }
        lemma_csi_end_at(z, 2, e - 1 - i);
    }
}

/// A switch of reverse video hides nothing that follows it.
proof fn lemma_toggle_invisible(h: bool, wanted: bool, y: Seq<char>)
    ensures
        visible_from(toggle(h, wanted) + y, 0) == visible_from(y, 0),
{
    if wanted == h {
        assert(toggle(h, wanted) + y =~= y);
    } else if wanted {
        let z = reverse_on() + y;
        assert(z[1] == '[' && z[2] == '7' && z[3] == 'm');
        lemma_csi_end_at(z, 2, 3);
        lemma_escape_token(reverse_on(), y);
    } else {
        let z = reverse_off() + y;
        assert(z[1] == '[' && z[2] == '2' && z[3] == '7' && z[4] == 'm');
        lemma_csi_end_at(z, 2, 4);
        lemma_escape_token(reverse_off(), y);
    }
}

/// What is visible of the window that `slice_from` cuts from position `i` on,
/// with `suffix` after it, is the window of what is visible of the line from
/// there, then what is visible of `suffix`.
proof fn lemma_slice_visible_from(
    s: Seq<char>,
    i: int,
    column: int,
    highlighted: bool,
    start: int,
    width: int,
    matches: Seq<(usize, usize)>,
    suffix: Seq<char>,
)
    requires
        well_formed_escapes(s),
        0 <= i <= s.len(),
    ensures
        visible_from(slice_from(s, i, column, highlighted, start, width, matches) + suffix, 0)
            == window_text(visible_from(s, i), column, start, width) + visible_from(suffix, 0),
    decreases s.len() - i,
{
    let out = slice_from(s, i, column, highlighted, start, width, matches);
    if i == s.len() {
        lemma_toggle_invisible(highlighted, false, suffix);
        assert(window_text(visible_from(s, i), column, start, width) =~= Seq::<char>::empty());
        assert(Seq::<char>::empty() + visible_from(suffix, 0) =~= visible_from(suffix, 0));
    } else if is_esc(s[i]) {
        lemma_escape_end_bounds(s, i + 1);
        let e = escape_end(s, i + 1);
        let x = s.subrange(i, e);
        let rest = slice_from(s, e, column, highlighted, start, width, matches);
        let r: Seq<char> = if highlighted {
            reverse_on()
        } else {
            Seq::empty()
        };
        assert(out + suffix =~= x + (r + (rest + suffix)));
        lemma_copied_escape(s, i, r + (rest + suffix));
        lemma_escape_token(x, r + (rest + suffix));
        lemma_toggle_invisible(!highlighted, highlighted, rest + suffix);
        if highlighted {
            assert(toggle(!highlighted, highlighted) == r);
        } else {
            assert(r + (rest + suffix) =~= rest + suffix);
        }
        lemma_slice_visible_from(s, e, column, highlighted, start, width, matches, suffix);
    } else {
        let c = s[i];
        let w = char_cols(c);
        let vis = visible_from(s, i);
        assert(vis == seq![c] + visible_from(s, i + 1));
        assert(vis.drop_first() =~= visible_from(s, i + 1));
        assert(vis[0] == c);
        if column + w <= start {
            lemma_slice_visible_from(s, i + 1, column + w, highlighted, start, width, matches, suffix);
        } else if column >= start + width {
            lemma_toggle_invisible(highlighted, false, suffix);
            assert(Seq::<char>::empty() + visible_from(suffix, 0) =~= visible_from(suffix, 0));
        } else {
            let wanted = in_matches(matches, column);
            let shown = if column < start || column + w > start + width {
                ' '
            } else {
                c
            };
            let rest = slice_from(s, i + 1, column + w, wanted, start, width, matches);
            assert(out + suffix =~= toggle(highlighted, wanted) + (seq![shown] + (rest + suffix)));
            lemma_toggle_invisible(highlighted, wanted, seq![shown] + (rest + suffix));
            lemma_visible_char(shown, rest + suffix);
            lemma_slice_visible_from(s, i + 1, column + w, wanted, start, width, matches, suffix);
            let win = window_text(visible_from(s, i + 1), column + w, start, width);
            assert(seq![shown] + (win + visible_from(suffix, 0)) =~= (seq![shown] + win)
                + visible_from(suffix, 0));
        }
    }
}

/// `slice` cuts a horizontal window out of a line: what is visible of its
/// result is the window of `width` columns from column `start` of what is
/// visible of the line, wide characters cut in half being replaced by a space.
/// This holds of lines whose escape sequences are complete.
pub proof fn lemma_slice_shows_window(
    line: Seq<char>,
    start: int,
    width: int,
    matches: Seq<(usize, usize)>,
)
    requires
        well_formed_escapes(line),
    ensures
        visible_text(slice_from(line, 0, 0, false, start, width, matches)) == window_text(
            visible_text(line),
            0,
            start,
            width,
        ),
{
    lemma_slice_visible_from(line, 0, 0, false, start, width, matches, Seq::empty());
    let out = slice_from(line, 0, 0, false, start, width, matches);
    assert(out + Seq::<char>::empty() =~= out);
    assert(window_text(visible_text(line), 0, start, width) + Seq::<char>::empty() =~= window_text(
        visible_text(line),
        0,
        start,
        width,
    ));
}

/// What is visible of a window of a line with `suffix` after it: the window of
/// what is visible of the line, then what is visible of `suffix`.
pub proof fn lemma_slice_then_visible(
    line: Seq<char>,
    start: int,
    width: int,
    matches: Seq<(usize, usize)>,
    suffix: Seq<char>,
)
    requires
        well_formed_escapes(line),
    ensures
        visible_text(slice_from(line, 0, 0, false, start, width, matches) + suffix) == window_text(
            visible_text(line),
            0,
            start,
            width,
        ) + visible_text(suffix),
{
    lemma_slice_visible_from(line, 0, 0, false, start, width, matches, suffix);
}

/// The visible text of a line holds no `ESC`.
pub proof fn lemma_visible_is_plain(s: Seq<char>, i: int)
    ensures
        is_plain(visible_from(s, i)),
    decreases s.len() - i,
{
    if 0 <= i < s.len() {
        if is_esc(s[i]) {
            lemma_escape_end_bounds(s, i + 1);
            lemma_visible_is_plain(s, escape_end(s, i + 1));
        } else {
            lemma_visible_is_plain(s, i + 1);
            let rest = visible_from(s, i + 1);
            assert forall|k: int| 0 <= k < visible_from(s, i).len() implies !is_esc(
                #[trigger] visible_from(s, i)[k],
            ) by {
                if k > 0 {
                    assert(visible_from(s, i)[k] == rest[k - 1]);
                }
            }
        }
    }
}

/// Colors do not count in the width of a line: the line with its escape
/// sequences taken out is as wide as the line, and shows the same characters.
pub proof fn lemma_strip_colors_keeps_width(s: Seq<char>)
    ensures
        visible_text(visible_text(s)) == visible_text(s),
        text_width(visible_text(visible_text(s))) == text_width(visible_text(s)),
{
    let t = visible_text(s);
    lemma_visible_is_plain(s, 0);
    lemma_plain_is_visible(t, 0);
    assert(t.subrange(0, t.len() as int) =~= t);
}

/// A complete CSI sequence hides nothing that follows it.
pub proof fn lemma_csi_token_invisible(x: Seq<char>, y: Seq<char>)
    requires
        x.len() >= 3,
        is_esc(x[0]),
        x[1] == '[',
        is_csi_final(x[x.len() - 1]),
        forall|t: int| 2 <= t < x.len() - 1 ==> !is_csi_final(#[trigger] x[t]),
    ensures
        visible_from(x + y, 0) == visible_from(y, 0),
{
    let z = x + y;
    assert(z[1] == '[');
    assert(z[x.len() - 1] == x[x.len() - 1]);
    assert forall|t: int| 2 <= t < x.len() - 1 implies !is_csi_final(#[trigger] z[t]) by {
        assert(z[t] == x[t]);
    }
    lemma_csi_end_at(z, 2, x.len() - 1);
    lemma_escape_token(x, y);
}

/// The prefix one longer than the longest that fits is too wide.
proof fn lemma_fit_len_longest(t: Seq<char>, width: int)
    requires
        0 <= width,
    ensures
        fit_len(t, width) < t.len() ==> text_width(t.take(fit_len(t, width) + 1int)) > width,
    decreases t.len(),
{
    if t.len() > 0 && text_width(t) > width {
        let dl = t.drop_last();
        lemma_fit_len_longest(dl, width);
        lemma_fit_len_fits(dl, width);
        let f = fit_len(dl, width) as int;
        if f < dl.len() {
            assert(dl.take(f + 1) =~= t.take(f + 1));
        } else {
            assert(t.take(f + 1) =~= t);
        }
    }
}

/// `pad` keeps the longest prefix of the text that fits in `width` columns and
/// fills the columns left with spaces: the result starts with that prefix,
/// the next character of the text would not have fitted, and every
/// character after the prefix is a space, as many as columns are left.
pub proof fn lemma_pad_keeps_prefix_then_spaces(t: Seq<char>, width: int)
    requires
        0 <= width,
    ensures
        exists|n: int|
            #![trigger t.take(n)]
            {
                let r = padded(t, width);
                &&& 0 <= n <= t.len()
                &&& r.take(n) == t.take(n)
                &&& text_width(t.take(n)) <= width
                &&& (n == t.len() || text_width(t.take(n + 1)) > width)
                &&& r.len() == n + width - text_width(t.take(n))
                &&& forall|k: int| n <= k < r.len() ==> #[trigger] r[k] == ' '
            },
{
    lemma_fit_len_fits(t, width);
    lemma_fit_len_longest(t, width);
    let n = fit_len(t, width) as int;
    let r = padded(t, width);
    assert(r.take(n) =~= t.take(n));
    assert forall|k: int| n <= k < r.len() implies #[trigger] r[k] == ' ' by {
        assert(r[k] == spaces((width - text_width(t.take(n))) as nat)[k - n]);
    }
}

/// `x`, kept between 0 and `hi`.
pub open spec fn clamp(x: int, hi: int) -> int {
    if x < 0 {
        0
    } else if x > hi {
        hi
    } else {
        x
    }
}

/// Where every character takes one column, the window of `width` columns from
/// column `start` of a text starting at column `column` is the part of the
/// text that lies in those columns.
proof fn lemma_window_of_narrow_text(t: Seq<char>, column: int, start: int, width: int)
    requires
        0 <= width,
        forall|k: int| 0 <= k < t.len() ==> char_cols(#[trigger] t[k]) == 1,
    ensures
        window_text(t, column, start, width) == t.subrange(
            clamp(start - column, t.len() as int),
            clamp(start + width - column, t.len() as int),
        ),
    decreases t.len(),
{
    if t.len() > 0 {
        let rest = t.drop_first();
        assert forall|k: int| 0 <= k < rest.len() implies char_cols(#[trigger] rest[k]) == 1 by {
            assert(rest[k] == t[k + 1]);
        }
        assert(char_cols(t[0]) == 1);
        lemma_window_of_narrow_text(rest, column + 1, start, width);
        let n = t.len() as int;
        if column + 1 <= start {
            assert(rest.subrange(clamp(start - column - 1, n - 1), clamp(start + width - column - 1, n - 1))
                =~= t.subrange(clamp(start - column, n), clamp(start + width - column, n)));
        } else if column >= start + width {
            assert(t.subrange(clamp(start - column, n), clamp(start + width - column, n)) =~= Seq::<
                char,
            >::empty());
        } else {
            assert(seq![t[0]] + rest.subrange(0, clamp(start + width - column - 1, n - 1)) =~= t.subrange(
                clamp(start - column, n),
                clamp(start + width - column, n),
            ));
        }
    }
}

/// On a line whose visible characters all take one column, `slice` shows
/// exactly the visible characters in columns `start` to `start + width`.
pub proof fn lemma_slice_of_narrow_line(
    line: Seq<char>,
    start: int,
    width: int,
    matches: Seq<(usize, usize)>,
)
    requires
        well_formed_escapes(line),
        0 <= start,
        0 <= width,
        forall|k: int|
            0 <= k < visible_text(line).len() ==> char_cols(#[trigger] visible_text(line)[k]) == 1,
    ensures
        visible_text(slice_from(line, 0, 0, false, start, width, matches)) == visible_text(
            line,
        ).subrange(
            clamp(start, visible_text(line).len() as int),
            clamp(start + width, visible_text(line).len() as int),
        ),
{
    lemma_slice_shows_window(line, start, width, matches);
    lemma_window_of_narrow_text(visible_text(line), 0, start, width);
}

} // verus!
