//! What the viewer puts on screen: the lines of the graph, cut to the screen,
//! and the status line.
use crate::ansi::{visible_text, visible_width};
use crate::search::{find_matches, match_ranges, texts};
use crate::text::push_char;
use crate::viewer::{lines_fit, min, Screen, State, StateView};
use crate::width::{fits_columns, text_width};
use crate::ansi::is_csi_final;
use crate::window::{
    lemma_csi_token_invisible, lemma_slice_then_visible, pad, padded, slice, slice_from,
    well_formed_escapes, window_text,
};
use vstd::prelude::*;

verus! {

/// ANSI sequence resetting all colors and attributes.
pub open spec fn reset() -> Seq<char> {
    seq!['\x1b', '[', '0', 'm']
}

/// The help text of the status line.
pub open spec fn help_text() -> Seq<char> {
    "hjkl scroll  gg/G top/end  / search  n next  q quit"@
}

/// The decimal digit `d`.
pub open spec fn digit(d: nat) -> char {
    (48 + d) as char
}

/// The decimal notation of `n`.
pub open spec fn decimal(n: nat) -> Seq<char>
    decreases n,
{
    if n < 10 {
        seq![digit(n)]
    } else {
        decimal(n / 10).push(digit(n % 10))
    }
}

/// Appends the decimal notation of `n` to `s`.
pub fn push_decimal(s: &mut String, n: usize)
    ensures
        final(s)@ == old(s)@ + decimal(n as nat),
    decreases n,
{
    if n >= 10 {
        push_decimal(s, n / 10);
    }
    let d = (n % 10) as u8;
    push_char(s, (48u8 + d) as char);
    proof {
        if n >= 10 {
            assert(decimal(n as nat) == decimal((n / 10) as nat).push(digit((n % 10) as nat)));
        }
    }
}

/// Appends the reset of all colors and attributes.
fn push_reset(s: &mut String)
    ensures
        final(s)@ == old(s)@ + reset(),
{
    push_char(s, '\x1b');
    push_char(s, '[');
    push_char(s, '0');
    push_char(s, 'm');
    assert(final(s)@ =~= old(s)@ + reset());
}

/// What row `row` of the screen shows: the part of its line that the view
/// shows, with the matches of the current search in reverse video and with
/// colors reset at the end; nothing below the last line.
pub open spec fn row_of(lines: Seq<Seq<char>>, s: StateView, screen: Screen, row: int) -> Option<Seq<char>> {
    let index = s.top + row;
    if 0 <= index < lines.len() {
        let line = lines[index];
        let matches = match s.search {
            Some(search) => match_ranges(line, search.pattern, search.ignore_case),
            None => Seq::empty(),
        };
        Some(
            slice_from(line, 0, 0, false, s.left, screen.width as int, matches) + reset(),
        )
    } else {
        None
    }
}

/// The text of row `row` of the visible part of the graph.
pub fn row_text(lines: &[String], state: &State, screen: &Screen, row: usize) -> (r: Option<String>)
    requires
        lines_fit(lines@),
        state.top + row <= usize::MAX,
        state.left + screen.width <= usize::MAX,
    ensures
        match r {
            Some(t) => row_of(texts(lines@), state@, *screen, row as int) == Some(t@),
            None => row_of(texts(lines@), state@, *screen, row as int) is None,
        },
{
    let index = state.top + row;
    if index < lines.len() {
        let line = lines[index].as_str();
        assert(fits_columns(lines@[index as int]@));
        let matches = match &state.search {
            Some(search) => find_matches(line, search),
            None => Vec::new(),
        };
        let mut text = slice(line, state.left, screen.width, matches.as_slice());
        push_reset(&mut text);
        Some(text)
    } else {
        None
    }
}

/// The status line: its text, and the column of the cursor while a search
/// pattern is being typed.
pub struct Status {
    pub text: String,
    pub cursor: Option<usize>,
}

/// The text of the status line before it is cut or padded to the screen:
/// the search prompt while a pattern is being typed, else the range of lines
/// shown, the number of lines, and the message or the help text.
pub open spec fn status_text(line_count: int, s: StateView, screen: Screen) -> Seq<char> {
    match s.prompt {
        Some(p) => seq![
            if p.backward {
                '?'
            } else {
                '/'
            },
        ] + p.text,
        None => seq![' '] + decimal((s.top + 1) as nat) + seq!['-'] + decimal(
            min(s.top + screen.page, line_count) as nat,
        ) + seq!['/'] + decimal(line_count as nat) + seq![' ', ' '] + match s.message {
            Some(m) => m,
            None => help_text(),
        },
    }
}

/// The column of the cursor: after the pattern typed so far, on the screen.
pub open spec fn status_cursor(line_count: int, s: StateView, screen: Screen) -> Option<int> {
    match s.prompt {
        Some(_) => Some(
            min(
                text_width(visible_text(status_text(line_count, s, screen))) as int,
                screen.width - 1,
            ),
        ),
        None => None,
    }
}

/// Whether what the status line computes fits in a `usize`: the columns of
/// the search prompt, on a screen at least one column wide, or the numbers of
/// the lines shown.
pub open spec fn status_fits(s: StateView, screen: Screen) -> bool {
    match s.prompt {
        Some(p) => 3 * (p.text.len() + 1) <= usize::MAX && 1 <= screen.width,
        None => s.top + screen.page <= usize::MAX && s.top + 1 <= usize::MAX,
    }
}

/// Draw the status line, or the search prompt while a pattern is being typed.
pub fn status_line(line_count: usize, state: &State, screen: &Screen) -> (r: Status)
    requires
        screen.width <= usize::MAX - 3,
        status_fits(state@, *screen),
    ensures
        r.text@ == padded(status_text(line_count as int, state@, *screen), screen.width as int),
        match r.cursor {
            Some(c) => status_cursor(line_count as int, state@, *screen) == Some(c as int),
            None => status_cursor(line_count as int, state@, *screen) is None,
        },
{
    match &state.prompt {
        Some(prompt) => {
            let mut text = String::new();
            push_char(&mut text, if prompt.backward { '?' } else { '/' });
            text.append(prompt.text.as_str());
            let width = visible_width(text.as_str());
            let cursor = if width < screen.width - 1 {
                width
            } else {
                screen.width - 1
            };
            Status { text: pad(text.as_str(), screen.width), cursor: Some(cursor) }
        },
        None => {
            let mut status = String::new();
            push_char(&mut status, ' ');
            push_decimal(&mut status, state.top + 1);
            push_char(&mut status, '-');
            let last = if state.top + screen.page < line_count {
                state.top + screen.page
            } else {
                line_count
            };
            push_decimal(&mut status, last);
            push_char(&mut status, '/');
            push_decimal(&mut status, line_count);
            push_char(&mut status, ' ');
            push_char(&mut status, ' ');
            match &state.message {
                Some(message) => status.append(message.as_str()),
                None => status.append("hjkl scroll  gg/G top/end  / search  n next  q quit"),
            }
            assert(status@ =~= status_text(line_count as int, state@, *screen));
            Status { text: pad(status.as_str(), screen.width), cursor: None }
        },
    }
}

/// The line the viewer shows for a graph line and its text.
pub open spec fn composed(graph_line: Seq<char>, text_line: Seq<char>) -> Seq<char> {
    seq![' '] + graph_line + seq![' ', ' '] + text_line
}

/// The lines of the view: each graph line beside its text, as many as there
/// are pairs of them.
pub fn compose_lines(graph_lines: &[String], text_lines: &[String]) -> (r: Vec<String>)
    ensures
        r@.len() == min(graph_lines@.len() as int, text_lines@.len() as int),
        forall|i: int|
            0 <= i < r@.len() ==> #[trigger] r@[i]@ == composed(graph_lines@[i]@, text_lines@[i]@),
{
    let count = if graph_lines.len() < text_lines.len() {
        graph_lines.len()
    } else {
        text_lines.len()
    };
    let mut lines: Vec<String> = Vec::new();
    let mut i: usize = 0;
    while i < count
        invariant
            count == min(graph_lines@.len() as int, text_lines@.len() as int),
            i <= count,
            lines@.len() == i,
            forall|k: int|
                0 <= k < i ==> #[trigger] lines@[k]@ == composed(graph_lines@[k]@, text_lines@[k]@),
        decreases count - i,
    {
        let mut line = String::new();
        push_char(&mut line, ' ');
        line.append(graph_lines[i].as_str());
        push_char(&mut line, ' ');
        push_char(&mut line, ' ');
        line.append(text_lines[i].as_str());
        assert(line@ =~= composed(graph_lines@[i as int]@, text_lines@[i as int]@));
        lines.push(line);
        i = i + 1;
    }
    lines
}

/// The largest visible width of the lines, 0 when there is none.
pub open spec fn max_width_of(lines: Seq<Seq<char>>) -> nat
    decreases lines.len(),
{
    if lines.len() == 0 {
        0
    } else {
        let w = text_width(visible_text(lines.last()));
        let rest = max_width_of(lines.drop_last());
        if w > rest {
            w
        } else {
            rest
        }
    }
}

/// The visible width of the widest line, in terminal columns.
pub fn max_line_width(lines: &[String]) -> (r: usize)
    requires
        lines_fit(lines@),
    ensures
        r == max_width_of(texts(lines@)),
{
    let mut widest: usize = 0;
    let mut i: usize = 0;
    while i < lines.len()
        invariant
            lines_fit(lines@),
            i <= lines@.len(),
            widest == max_width_of(texts(lines@).take(i as int)),
        decreases lines@.len() - i,
    {
        let width = visible_width(lines[i].as_str());
        proof {
            let upto = texts(lines@).take(i + 1);
            assert(upto.drop_last() =~= texts(lines@).take(i as int));
            assert(upto.last() == lines@[i as int]@);
        }
        if width > widest {
            widest = width;
        }
        i = i + 1;
    }
    assert(texts(lines@).take(i as int) =~= texts(lines@));
    widest
}

/// The widest line is as wide as every line, and as wide as one of them
/// (0 when there is none).
pub proof fn lemma_max_width_is_widest(lines: Seq<Seq<char>>)
    ensures
        forall|i: int|
            0 <= i < lines.len() ==> text_width(visible_text(#[trigger] lines[i])) <= max_width_of(
                lines,
            ),
        lines.len() == 0 ==> max_width_of(lines) == 0,
        lines.len() > 0 ==> exists|i: int|
            0 <= i < lines.len() && text_width(visible_text(#[trigger] lines[i])) == max_width_of(
                lines,
            ),
    decreases lines.len(),
{
    if lines.len() > 0 {
        let rest = lines.drop_last();
        lemma_max_width_is_widest(rest);
        assert forall|i: int| 0 <= i < lines.len() implies text_width(
            visible_text(#[trigger] lines[i]),
        ) <= max_width_of(lines) by {
            if i < rest.len() {
                assert(lines[i] == rest[i]);
            }
        }
        let w = text_width(visible_text(lines.last()));
        if w > max_width_of(rest) || rest.len() == 0 {
            assert(text_width(visible_text(lines[lines.len() - 1])) == max_width_of(lines));
        } else {
            let i = choose|i: int|
                0 <= i < rest.len() && text_width(visible_text(#[trigger] rest[i])) == max_width_of(
                    rest,
                );
            assert(lines[i] == rest[i]);
        }
    }
}

/// The value of a sequence of decimal digits.
pub open spec fn digits_value(d: Seq<char>) -> int
    decreases d.len(),
{
    if d.len() == 0 {
        0
    } else {
        digits_value(d.drop_last()) * 10 + (d.last() as int - 48)
    }
}

/// Whether `d` is a decimal number as it is written: one or more digits, not
/// starting with `0` unless it is just `0`.
pub open spec fn is_number_text(d: Seq<char>) -> bool {
    &&& d.len() > 0
    &&& forall|k: int| 0 <= k < d.len() ==> 48 <= #[trigger] (d[k] as int) <= 57
    &&& d.len() > 1 ==> d[0] as int != 48
}

/// The decimal notation of `n` is a number as it is written, and its value is `n`.
pub proof fn lemma_decimal_reads_back(n: nat)
    ensures
        is_number_text(decimal(n)),
        digits_value(decimal(n)) == n,
    decreases n,
{
    let last = digit(n % 10);
    assert(last as int == 48 + n % 10);
    if n < 10 {
        let d = decimal(n);
        assert(d =~= seq![last]);
        assert(d[0] == last);
        assert(d.drop_last() =~= Seq::<char>::empty());
        assert(d.last() == last);
        assert(digits_value(d) == digits_value(d.drop_last()) * 10 + (last as int - 48));
    } else {
        lemma_decimal_reads_back(n / 10);
        let d = decimal(n);
        let front = decimal(n / 10);
        assert(d.drop_last() =~= front);
        assert(d[0] == front[0]);
        assert(d.last() == last);
        assert forall|k: int| 0 <= k < d.len() implies 48 <= #[trigger] (d[k] as int) <= 57 by {
            if k < front.len() {
                assert(d[k] == front[k]);
            }
        }
        assert(digits_value(d) == digits_value(front) * 10 + (last as int - 48));
        assert((n / 10) * 10 + n % 10 == n);
        if front.len() == 1 {
            assert(front.drop_last() =~= Seq::<char>::empty());
            assert(front.last() == front[0]);
            assert(digits_value(front.drop_last()) == 0);
            assert(digits_value(front) == digits_value(front.drop_last()) * 10 + (front.last() as int
                - 48));
        }
        assert(d[0] as int != 48);
    }
}

/// Outside the search prompt, the status line reads ` first-last/count  info`:
/// the numbers, counted from 1, of the first and the last line shown (the
/// last line of the page, or of the graph where it ends before), the number
/// of lines, then the message, or the help text when there is none. While a
/// pattern is typed, it reads `/` (or `?` for a backward search) and the
/// pattern, with the cursor after the pattern or at the last column.
pub proof fn lemma_status_line_reads(line_count: int, s: StateView, screen: Screen)
    requires
        0 <= s.top,
        0 <= line_count,
    ensures
        s.prompt is None ==> exists|first: Seq<char>, last: Seq<char>, count: Seq<char>|
            #![trigger digits_value(first), digits_value(last), digits_value(count)]
            {
                &&& is_number_text(first) && digits_value(first) == s.top + 1
                &&& is_number_text(last) && digits_value(last) == (if s.top + screen.page
                    <= line_count {
                    s.top + screen.page
                } else {
                    line_count
                })
                &&& is_number_text(count) && digits_value(count) == line_count
                &&& status_text(line_count, s, screen) == seq![' '] + first + seq!['-'] + last
                    + seq!['/'] + count + seq![' ', ' '] + (match s.message {
                    Some(m) => m,
                    None => help_text(),
                })
            },
        s.prompt is Some ==> status_text(line_count, s, screen) == seq![
            if s.prompt->0.backward {
                '?'
            } else {
                '/'
            },
        ] + s.prompt->0.text,
        s.prompt is Some ==> status_cursor(line_count, s, screen) == Some(
            if text_width(visible_text(status_text(line_count, s, screen))) <= screen.width - 1 {
                text_width(visible_text(status_text(line_count, s, screen))) as int
            } else {
                screen.width - 1
            },
        ),
{
    if s.prompt is None {
        let last_line = min(s.top + screen.page, line_count);
        lemma_decimal_reads_back((s.top + 1) as nat);
        lemma_decimal_reads_back(last_line as nat);
        lemma_decimal_reads_back(line_count as nat);
        let first = decimal((s.top + 1) as nat);
        let last = decimal(last_line as nat);
        let count = decimal(line_count as nat);
        assert(digits_value(first) == s.top + 1);
        assert(digits_value(last) == last_line);
        assert(digits_value(count) == line_count);
    }
}

/// Row `row` of the screen shows line `top + row` of the graph, and nothing
/// below the last line. Of a line whose escape sequences are complete, what
/// is visible on the row is the window of the screen's width from the first
/// visible column of what is visible of the line: colors, highlighting and
/// the reset at the end take no column.
pub proof fn lemma_row_shows_line(lines: Seq<Seq<char>>, s: StateView, screen: Screen, row: int)
    requires
        0 <= s.top,
        0 <= row,
    ensures
        (row_of(lines, s, screen, row) is Some) == (s.top + row < lines.len()),
        s.top + row < lines.len() && well_formed_escapes(lines[s.top + row]) ==> visible_text(
            row_of(lines, s, screen, row)->0,
        ) == window_text(visible_text(lines[s.top + row]), 0, s.left, screen.width as int),
{
    if s.top + row < lines.len() && well_formed_escapes(lines[s.top + row]) {
        let line = lines[s.top + row];
        let matches = match s.search {
            Some(search) => match_ranges(line, search.pattern, search.ignore_case),
            None => Seq::empty(),
        };
        lemma_slice_then_visible(line, s.left, screen.width as int, matches, reset());
        let r = reset();
        assert(is_csi_final(r[3]));
        lemma_csi_token_invisible(r, Seq::empty());
        assert(r + Seq::<char>::empty() =~= r);
        let win = window_text(visible_text(line), 0, s.left, screen.width as int);
        assert(win + Seq::<char>::empty() =~= win);
    }
}

} // verus!
