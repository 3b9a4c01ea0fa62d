//! The state of the viewer, and how key presses change it.
use crate::search::{
    find_line, has_uppercase, lemma_find_line_first_in_order, line_matches, next_match, normalized,
    std_is_uppercase, texts, wrapped_line, Search,
};
use crate::text::{pop_char, push_char};
use crate::width::fits_columns;
use crossterm::event::KeyModifiers;
use vstd::prelude::*;

verus! {

/// The key of a key press, as far as the viewer tells keys apart.
#[derive(Clone, Copy)]
pub enum KeyCode {
    Char(char),
    Enter,
    Esc,
    Backspace,
    Up,
    Down,
    Left,
    Right,
    Home,
    End,
    PageUp,
    PageDown,
    /// Any other key.
    Other,
}

/// A key press: the key and the bits of the modifier keys held with it, as
/// `crossterm::event::KeyModifiers` holds them.
#[derive(Clone, Copy)]
pub struct Key {
    pub code: KeyCode,
    pub modifiers: u8,
}

/// Calls `KeyModifiers::contains` with `KeyModifiers::CONTROL` on the
/// modifier bits `modifiers`. In crossterm's source, `CONTROL` is the flag
/// `0b0000_0010`, and `contains` tests that all its bits are set.
#[verifier::external_body]
fn control_held(modifiers: u8) -> (r: bool)
    ensures
        r == (modifiers & 2u8 == 2u8),
{
    KeyModifiers::from_bits_retain(modifiers).contains(KeyModifiers::CONTROL)
}

/// Whether the Control key was held with `key`.
pub open spec fn ctrl(key: Key) -> bool {
    key.modifiers & 2u8 == 2u8
}

pub fn is_ctrl(key: &Key) -> (r: bool)
    ensures
        r == ctrl(*key),
{
    control_held(key.modifiers)
}

/// Dimensions of the visible part of the graph, in terminal cells.
pub struct Screen {
    pub width: usize,
    /// Number of lines, i.e. the terminal height without the status line.
    pub page: usize,
}

impl Screen {
    /// The screen of a terminal of `width` columns and `height` rows; one
    /// row is reserved for the status line at the bottom.
    pub fn from_size(width: u16, height: u16) -> (r: Screen)
        ensures
            r.width == (if width >= 1 {
                width as int
            } else {
                1
            }),
            r.page == (if height >= 2 {
                height as int
            } else {
                2
            }) - 1,
    {
        let width = width as usize;
        let height = height as usize;
        Screen {
            width: if width >= 1 {
                width
            } else {
                1
            },
            page: if height >= 2 {
                height - 1
            } else {
                1
            },
        }
    }
}

/// A search pattern while it is being typed.
pub struct Prompt {
    pub text: String,
    pub backward: bool,
}

impl Prompt {
    pub fn new(backward: bool) -> (r: Self)
        ensures
            r.text@ == Seq::<char>::empty(),
            r.backward == backward,
    {
        Prompt { text: String::new(), backward }
    }
}

/// What the viewer shows, and where.
pub struct State {
    /// First visible line.
    pub top: usize,
    /// First visible terminal column.
    pub left: usize,
    /// Search to highlight and to repeat with `n` and `N`.
    pub search: Option<Search>,
    /// Search pattern that is currently being typed, if any.
    pub prompt: Option<Prompt>,
    /// One-off message, shown instead of the help text.
    pub message: Option<String>,
    /// Set once `g` was pressed, so that `gg` can jump to the first line.
    pub pending_g: bool,
}

/// A search, as values.
pub struct SearchView {
    pub text: Seq<char>,
    pub pattern: Seq<char>,
    pub ignore_case: bool,
    pub backward: bool,
}

/// A search pattern being typed, as values.
pub struct PromptView {
    pub text: Seq<char>,
    pub backward: bool,
}

/// The state of the viewer, as values.
pub struct StateView {
    pub top: int,
    pub left: int,
    pub search: Option<SearchView>,
    pub prompt: Option<PromptView>,
    pub message: Option<Seq<char>>,
    pub pending_g: bool,
}

impl View for Search {
    type V = SearchView;

    open spec fn view(&self) -> SearchView {
        SearchView {
            text: self.text@,
            pattern: self.pattern@,
            ignore_case: self.ignore_case,
            backward: self.backward,
        }
    }
}

impl View for Prompt {
    type V = PromptView;

    open spec fn view(&self) -> PromptView {
        PromptView { text: self.text@, backward: self.backward }
    }
}

impl View for State {
    type V = StateView;

    open spec fn view(&self) -> StateView {
        StateView {
            top: self.top as int,
            left: self.left as int,
            search: match self.search {
                Some(s) => Some(s@),
                None => None,
            },
            prompt: match self.prompt {
                Some(p) => Some(p@),
                None => None,
            },
            message: match self.message {
                Some(m) => Some(m@),
                None => None,
            },
            pending_g: self.pending_g,
        }
    }
}

/// The search that `Search::new` makes of `text` and `backward`.
pub open spec fn search_of(text: Seq<char>, backward: bool) -> SearchView {
    SearchView {
        text,
        pattern: normalized(text, !has_uppercase(text)),
        ignore_case: !has_uppercase(text),
        backward,
    }
}

/// The viewer as it starts: at the first line and column, with no search.
pub open spec fn initial_state() -> StateView {
    StateView { top: 0, left: 0, search: None, prompt: None, message: None, pending_g: false }
}

impl State {
    pub fn new() -> (r: Self)
        ensures
            r@ == initial_state(),
    {
        State { top: 0, left: 0, search: None, prompt: None, message: None, pending_g: false }
    }
}

/// `a - b`, or 0 where that is negative.
pub open spec fn sat_sub(a: int, b: int) -> int {
    if a >= b {
        a - b
    } else {
        0
    }
}

/// `a`, or 1 where it is smaller.
pub open spec fn at_least_one(a: int) -> int {
    if a >= 1 {
        a
    } else {
        1
    }
}

/// Lines scrolled by Ctrl+D and Ctrl+U.
pub open spec fn half_page(screen: Screen) -> int {
    at_least_one(screen.page as int / 2)
}

/// Lines scrolled by a page: all but one of the lines shown.
pub open spec fn full_page(screen: Screen) -> int {
    at_least_one(sat_sub(screen.page as int, 1))
}

/// Columns scrolled by `H` and `L`.
pub open spec fn half_width(screen: Screen) -> int {
    at_least_one(screen.width as int / 2)
}

/// The message shown when `n` or `N` is pressed before any search.
pub open spec fn no_search_message() -> Seq<char> {
    "No previous search"@
}

/// The message shown when a search finds no line.
pub open spec fn not_found_message(text: Seq<char>) -> Seq<char> {
    "Pattern not found: "@ + text
}

/// The state after a jump to the next line matching the current search
/// (`reverse`: in the other direction than the search's own), putting it on
/// top; with a message instead where there is no search or no such line.
pub open spec fn jumped(s: StateView, lines: Seq<Seq<char>>, reverse: bool) -> StateView {
    match s.search {
        None => StateView { message: Some(no_search_message()), ..s },
        Some(search) => match next_match(
            lines,
            search.pattern,
            search.ignore_case,
            s.top,
            search.backward != reverse,
            1,
        ) {
            Some(line) => StateView { top: line, ..s },
            None => StateView { message: Some(not_found_message(search.text)), ..s },
        },
    }
}

/// Whether `key` is a plain `g`, which `gg` is made of.
pub open spec fn is_plain_g(key: Key) -> bool {
    key.code == KeyCode::Char('g') && !ctrl(key)
}

/// Whether `key` leaves the viewer.
pub open spec fn is_quit(key: Key) -> bool {
    ||| key.code == KeyCode::Char('q')
    ||| key.code == KeyCode::Esc
    ||| key.code == KeyCode::Char('c') && ctrl(key)
}

/// The first visible line after `key` in normal mode, for the keys other than
/// `n` and `N`; `was_g` tells whether the key before was a plain `g`.
pub open spec fn top_after(top: int, line_count: int, key: Key, screen: Screen, was_g: bool) -> int {
    match key.code {
        KeyCode::Char(c) => if c == 'g' && !ctrl(key) {
            if was_g {
                0
            } else {
                top
            }
        } else if c == 'G' {
            line_count
        } else if c == 'j' {
            top + 1
        } else if c == 'k' {
            sat_sub(top, 1)
        } else if c == 'd' && ctrl(key) {
            top + half_page(screen)
        } else if c == 'u' && ctrl(key) {
            sat_sub(top, half_page(screen))
        } else if c == 'f' && ctrl(key) {
            top + full_page(screen)
        } else if c == 'b' && ctrl(key) {
            sat_sub(top, full_page(screen))
        } else if c == ' ' {
            top + full_page(screen)
        } else {
            top
        },
        KeyCode::End => line_count,
        KeyCode::Home => 0,
        KeyCode::Down | KeyCode::Enter => top + 1,
        KeyCode::Up => sat_sub(top, 1),
        KeyCode::PageDown => top + full_page(screen),
        KeyCode::PageUp => sat_sub(top, full_page(screen)),
        _ => top,
    }
}

/// The first visible column after `key` in normal mode.
pub open spec fn left_after(left: int, key: Key, screen: Screen) -> int {
    match key.code {
        KeyCode::Char(c) => if c == 'l' && !ctrl(key) {
            left + 1
        } else if c == 'h' && !ctrl(key) {
            sat_sub(left, 1)
        } else if c == 'L' {
            left + half_width(screen)
        } else if c == 'H' {
            sat_sub(left, half_width(screen))
        } else if c == '0' || c == '^' {
            0
        } else if c == '$' {
            usize::MAX as int
        } else {
            left
        },
        KeyCode::Right => left + 1,
        KeyCode::Left => sat_sub(left, 1),
        _ => left,
    }
}

/// The state after `key` in normal (i.e. not searching) mode. `/` and `?`
/// open the prompt for a forward and a backward search, `n` and `N` repeat
/// the search, and any other key scrolls, or does nothing. Each key clears
/// the message, and a plain `g` that does not end a `gg` starts one.
pub open spec fn navigated(s: StateView, lines: Seq<Seq<char>>, key: Key, screen: Screen) -> StateView {
    let base = StateView {
        pending_g: is_plain_g(key) && !s.pending_g,
        message: None,
        left: left_after(s.left, key, screen),
        ..s
    };
    if key.code == KeyCode::Char('n') {
        jumped(base, lines, false)
    } else if key.code == KeyCode::Char('N') {
        jumped(base, lines, true)
    } else if key.code == KeyCode::Char('/') {
        StateView { prompt: Some(PromptView { text: Seq::empty(), backward: false }), ..base }
    } else if key.code == KeyCode::Char('?') {
        StateView { prompt: Some(PromptView { text: Seq::empty(), backward: true }), ..base }
    } else {
        StateView { top: top_after(s.top, lines.len() as int, key, screen, s.pending_g), ..base }
    }
}

/// The state as the viewer is left: the message and a pending `g` are dropped.
pub open spec fn left_by_quitting(s: StateView) -> StateView {
    StateView { pending_g: false, message: None, ..s }
}

/// Whether `navigated` stays within what a `usize` holds.
pub open spec fn navigation_fits(s: StateView, line_count: int, key: Key, screen: Screen) -> bool {
    &&& top_after(s.top, line_count, key, screen, s.pending_g) <= usize::MAX
    &&& left_after(s.left, key, screen) <= usize::MAX
    &&& (key.code == KeyCode::Char('n') || key.code == KeyCode::Char('N')) && s.search is Some
        ==> s.top + line_count <= usize::MAX
}

/// Whether every line's columns fit in a `usize`.
pub open spec fn lines_fit(lines: Seq<String>) -> bool {
    forall|i: int| 0 <= i < lines.len() ==> fits_columns(#[trigger] lines[i]@)
}

/// Scroll to the next line matching the current search, putting it on top.
///
/// With `reverse`, the search direction is inverted, as with `N` in vim.
pub fn jump(state: &mut State, lines: &[String], reverse: bool)
    requires
        lines_fit(lines@),
        (old(state).search is Some) ==> old(state).top + lines@.len() <= usize::MAX,
    ensures
        final(state)@ == jumped(old(state)@, texts(lines@), reverse),
{
    match &state.search {
        None => state.message = Some(String::from_str("No previous search")),
        Some(search) => {
            let found = find_line(lines, search, state.top, search.backward != reverse);
            match found {
                Some(line) => {
                    state.top = line;
                },
                None => {
                    let mut message = String::from_str("Pattern not found: ");
                    message.append(search.text.as_str());
                    state.message = Some(message);
                },
            }
        },
    }
}

/// Process a key press in the normal (i.e. not searching) mode.
///
/// Returns false if the user wants to leave the viewer.
pub fn navigate(state: &mut State, lines: &[String], key: Key, screen: &Screen) -> (r: bool)
    requires
        lines_fit(lines@),
        navigation_fits(old(state)@, lines@.len() as int, key, *screen),
    ensures
        r == !is_quit(key),
        !is_quit(key) ==> final(state)@ == navigated(old(state)@, texts(lines@), key, *screen),
        is_quit(key) ==> final(state)@ == left_by_quitting(old(state)@),
{
    let was_g = state.pending_g;
    state.pending_g = false;
    state.message = None;

    let ctrl = is_ctrl(&key);
    let half_page = if screen.page / 2 >= 1 {
        screen.page / 2
    } else {
        1
    };
    let full_page = if screen.page >= 2 {
        screen.page - 1
    } else {
        1
    };
    let half_width = if screen.width / 2 >= 1 {
        screen.width / 2
    } else {
        1
    };

    match key.code {
        KeyCode::Char('q') | KeyCode::Esc => return false,
        KeyCode::Char('c') if ctrl => return false,
        KeyCode::Char('g') if !ctrl => {
            if was_g {
                state.top = 0;
            } else {
                state.pending_g = true;
            }
        },
        KeyCode::Char('G') | KeyCode::End => state.top = lines.len(),
        KeyCode::Home => state.top = 0,
        KeyCode::Char('j') | KeyCode::Down | KeyCode::Enter => state.top = state.top + 1,
        KeyCode::Char('k') | KeyCode::Up => state.top = state.top.saturating_sub(1),
        KeyCode::Char('l') if !ctrl => state.left = state.left + 1,
        KeyCode::Right => state.left = state.left + 1,
        KeyCode::Char('h') if !ctrl => state.left = state.left.saturating_sub(1),
        KeyCode::Left => state.left = state.left.saturating_sub(1),
        KeyCode::Char('L') => state.left = state.left + half_width,
        KeyCode::Char('H') => state.left = state.left.saturating_sub(half_width),
        KeyCode::Char('0') | KeyCode::Char('^') => state.left = 0,
        KeyCode::Char('$') => state.left = usize::MAX,
        KeyCode::Char('d') if ctrl => state.top = state.top + half_page,
        KeyCode::Char('u') if ctrl => state.top = state.top.saturating_sub(half_page),
        KeyCode::Char('f') if ctrl => state.top = state.top + full_page,
        KeyCode::Char('b') if ctrl => state.top = state.top.saturating_sub(full_page),
        KeyCode::Char(' ') | KeyCode::PageDown => state.top = state.top + full_page,
        KeyCode::PageUp => state.top = state.top.saturating_sub(full_page),
        KeyCode::Char('/') => state.prompt = Some(Prompt::new(false)),
        KeyCode::Char('?') => state.prompt = Some(Prompt::new(true)),
        KeyCode::Char('n') => jump(state, lines, false),
        KeyCode::Char('N') => jump(state, lines, true),
        _ => {},
    }

    true
}

/// The state after `key` while a search pattern is being typed. Enter
/// starts the search that was typed and jumps to its first match, or, for an
/// empty pattern, removes the current search; Esc and Ctrl+C leave the
/// prompt; a character is added to the pattern and Backspace takes the last
/// one away.
pub open spec fn typed(s: StateView, lines: Seq<Seq<char>>, key: Key) -> StateView {
    match key.code {
        KeyCode::Enter => match s.prompt {
            None => s,
            Some(p) => if p.text.len() == 0 {
                StateView { prompt: None, search: None, ..s }
            } else {
                jumped(
                    StateView { prompt: None, search: Some(search_of(p.text, p.backward)), ..s },
                    lines,
                    false,
                )
            },
        },
        KeyCode::Esc => StateView { prompt: None, ..s },
        KeyCode::Char(c) => if c == 'c' && ctrl(key) {
            StateView { prompt: None, ..s }
        } else if !ctrl(key) {
            match s.prompt {
                Some(p) => StateView {
                    prompt: Some(PromptView { text: p.text.push(c), ..p }),
                    ..s
                },
                None => s,
            }
        } else {
            s
        },
        KeyCode::Backspace => match s.prompt {
            Some(p) => StateView {
                prompt: Some(
                    PromptView {
                        text: if p.text.len() > 0 {
                            p.text.drop_last()
                        } else {
                            p.text
                        },
                        ..p
                    },
                ),
                ..s
            },
            None => s,
        },
        _ => s,
    }
}

/// Whether `key` is Enter on a non-empty search pattern, which starts a
/// search through the lines.
pub open spec fn searches_on_enter(s: StateView, key: Key) -> bool {
    &&& key.code == KeyCode::Enter
    &&& s.prompt matches Some(p) && p.text.len() > 0
}

/// Process a key press while a search pattern is being typed.
///
/// An empty pattern removes the current search, and with it its highlighting.
pub fn type_search(state: &mut State, lines: &[String], key: Key)
    requires
        lines_fit(lines@),
        searches_on_enter(old(state)@, key) ==> old(state).top + lines@.len() <= usize::MAX,
    ensures
        final(state)@ == typed(old(state)@, texts(lines@), key),
{
    let ctrl = is_ctrl(&key);
    match key.code {
        KeyCode::Enter => {
            let Some(prompt) = state.prompt.take() else {
                return;
            };
            state.search = if prompt.text.as_str().is_empty() {
                None
            } else {
                Some(Search::new(prompt.text, prompt.backward))
            };
            if state.search.is_some() {
                jump(state, lines, false);
            }
        },
        KeyCode::Esc => state.prompt = None,
        KeyCode::Char('c') if ctrl => state.prompt = None,
        KeyCode::Char(chr) if !ctrl => {
            if let Some(mut prompt) = state.prompt.take() {
                push_char(&mut prompt.text, chr);
                state.prompt = Some(prompt);
            }
        },
        KeyCode::Backspace => {
            if let Some(mut prompt) = state.prompt.take() {
                pop_char(&mut prompt.text);
                state.prompt = Some(prompt);
            }
        },
        _ => {},
    }
}

/// The state after `key`, in the mode that the state is in.
pub open spec fn after_key(s: StateView, lines: Seq<Seq<char>>, key: Key, screen: Screen) -> StateView {
    if s.prompt is Some {
        typed(s, lines, key)
    } else if is_quit(key) {
        left_by_quitting(s)
    } else {
        navigated(s, lines, key, screen)
    }
}

/// Whether the viewer stays open after `key`.
pub open spec fn stays_open(s: StateView, key: Key) -> bool {
    s.prompt is Some || !is_quit(key)
}

/// Whether every position that a key press computes fits in a `usize`.
pub open spec fn key_fits(s: StateView, line_count: int, key: Key, screen: Screen) -> bool {
    if s.prompt is Some {
        searches_on_enter(s, key) ==> s.top + line_count <= usize::MAX
    } else {
        navigation_fits(s, line_count, key, screen)
    }
}

impl State {
    /// Process a key press: while a search pattern is being typed the key
    /// goes to the pattern, otherwise it navigates.
    ///
    /// Returns false if the user wants to leave the viewer.
    pub fn on_key(&mut self, lines: &[String], key: Key, screen: &Screen) -> (r: bool)
        requires
            lines_fit(lines@),
            key_fits(old(self)@, lines@.len() as int, key, *screen),
        ensures
            r == stays_open(old(self)@, key),
            final(self)@ == after_key(old(self)@, texts(lines@), key, *screen),
    {
        if self.prompt.is_some() {
            type_search(self, lines, key);
            true
        } else {
            navigate(self, lines, key, screen)
        }
    }

    /// Keeps the view within the graph: the first visible line is at most
    /// the last one from which a full page can be shown, and the first
    /// visible column at most the last one from which the widest line fills
    /// the screen.
    pub fn fit_to_screen(&mut self, line_count: usize, max_width: usize, screen: &Screen)
        ensures
            final(self)@ == fitted(old(self)@, line_count as int, max_width as int, *screen),
            final(self).top <= old(self).top,
            line_count >= screen.page ==> final(self).top + screen.page <= line_count,
            line_count < screen.page ==> final(self).top == 0,
            old(self).top + screen.page <= line_count ==> final(self).top == old(self).top,
            final(self).left <= old(self).left,
            max_width >= screen.width ==> final(self).left + screen.width <= max_width,
            max_width < screen.width ==> final(self).left == 0,
            old(self).left + screen.width <= max_width ==> final(self).left == old(self).left,
    {
        let last_top = line_count.saturating_sub(screen.page);
        if self.top > last_top {
            self.top = last_top;
        }
        let last_left = max_width.saturating_sub(screen.width);
        if self.left > last_left {
            self.left = last_left;
        }
    }
}

/// `a` or `b`, whichever is smaller.
pub open spec fn min(a: int, b: int) -> int {
    if a <= b {
        a
    } else {
        b
    }
}

/// The state kept within the graph, as `fit_to_screen` does.
pub open spec fn fitted(s: StateView, line_count: int, max_width: int, screen: Screen) -> StateView {
    StateView {
        top: min(s.top, sat_sub(line_count, screen.page as int)),
        left: min(s.left, sat_sub(max_width, screen.width as int)),
        ..s
    }
}

/// `gg` goes to the first line, from any state of the view in normal mode.
pub proof fn lemma_gg_goes_to_top(s: StateView, lines: Seq<Seq<char>>, g: Key, screen: Screen)
    requires
        s.prompt is None,
        is_plain_g(g),
    ensures
        after_key(after_key(s, lines, g, screen), lines, g, screen).top == 0,
{
}

/// A character typed into the search prompt is taken away again by
/// Backspace, which gives back the state from before.
pub proof fn lemma_backspace_undoes_typing(
    s: StateView,
    lines: Seq<Seq<char>>,
    typed_key: Key,
    backspace: Key,
    screen: Screen,
)
    requires
        s.prompt is Some,
        typed_key.code is Char,
        !ctrl(typed_key),
        backspace.code == KeyCode::Backspace,
    ensures
        after_key(after_key(s, lines, typed_key, screen), lines, backspace, screen) == s,
{
    let p = s.prompt->0;
    let c = typed_key.code->Char_0;
    assert(p.text.push(c).drop_last() =~= p.text);
}

/// Enter on an empty search pattern removes the current search, and leaves
/// the prompt.
pub proof fn lemma_empty_pattern_clears_search(
    s: StateView,
    lines: Seq<Seq<char>>,
    enter: Key,
    screen: Screen,
)
    requires
        s.prompt matches Some(p) && p.text.len() == 0,
        enter.code == KeyCode::Enter,
    ensures
        after_key(s, lines, enter, screen).search is None,
        after_key(s, lines, enter, screen).prompt is None,
        after_key(s, lines, enter, screen).top == s.top,
{
}

/// Enter on a non-empty search pattern makes it the current search, and
/// puts its first match after the first visible line on top, as `n` then does
/// for the next one.
pub proof fn lemma_enter_starts_search(
    s: StateView,
    lines: Seq<Seq<char>>,
    enter: Key,
    screen: Screen,
)
    requires
        s.prompt matches Some(p) && p.text.len() > 0,
        enter.code == KeyCode::Enter,
    ensures
        after_key(s, lines, enter, screen).search == Some(
            search_of(s.prompt->0.text, s.prompt->0.backward),
        ),
        after_key(s, lines, enter, screen).prompt is None,
        after_key(s, lines, enter, screen) == jumped(
            StateView {
                prompt: None,
                search: Some(search_of(s.prompt->0.text, s.prompt->0.backward)),
                ..s
            },
            lines,
            false,
        ),
{
}

/// Esc and Ctrl+C leave the search prompt, and change nothing else.
pub proof fn lemma_cancel_prompt(s: StateView, lines: Seq<Seq<char>>, key: Key, screen: Screen)
    requires
        s.prompt is Some,
        key.code == KeyCode::Esc || (key.code == KeyCode::Char('c') && ctrl(key)),
    ensures
        after_key(s, lines, key, screen) == (StateView { prompt: None, ..s }),
        stays_open(s, key),
{
}

/// `j` then `k` come back to the line and column the view was at.
pub proof fn lemma_down_then_up(
    s: StateView,
    lines: Seq<Seq<char>>,
    down: Key,
    up: Key,
    screen: Screen,
)
    requires
        s.prompt is None,
        0 <= s.top,
        down.code == KeyCode::Char('j') || down.code == KeyCode::Down,
        up.code == KeyCode::Char('k') || up.code == KeyCode::Up,
    ensures
        after_key(after_key(s, lines, down, screen), lines, up, screen).top == s.top,
        after_key(after_key(s, lines, down, screen), lines, up, screen).left == s.left,
{
}

/// Keys that leave the viewer do so only outside the search prompt; inside
/// it, `q` is part of the pattern.
pub proof fn lemma_quit_only_outside_prompt(s: StateView, key: Key)
    ensures
        !stays_open(s, key) <==> (s.prompt is None && is_quit(key)),
{
}

/// A message is shown once: any key in normal mode takes it away, but for
/// `n` and `N`, which show a new one where they find no line.
pub proof fn lemma_message_is_one_off(s: StateView, lines: Seq<Seq<char>>, key: Key, screen: Screen)
    requires
        s.prompt is None,
        key.code != KeyCode::Char('n'),
        key.code != KeyCode::Char('N'),
    ensures
        after_key(s, lines, key, screen).message is None,
{
}

/// Fitting keeps the view within the graph: where there are at least a
/// page of lines, the page shown ends at or before the last line, and the
/// first line otherwise; a view that is within the graph already is kept, and
/// one past its end moves to the last full page. The same holds of columns
/// and the widest line. Nothing else changes.
pub proof fn lemma_fit_keeps_view_in_graph(
    s: StateView,
    line_count: int,
    max_width: int,
    screen: Screen,
)
    requires
        0 <= s.top,
        0 <= s.left,
        0 <= line_count,
        0 <= max_width,
    ensures
        ({
            let f = fitted(s, line_count, max_width, screen);
            let page = screen.page as int;
            let width = screen.width as int;
            &&& line_count >= page ==> f.top + page <= line_count
            &&& line_count < page ==> f.top == 0
            &&& s.top + page <= line_count ==> f.top == s.top
            &&& s.top + page > line_count ==> f.top == (if line_count >= page {
                line_count - page
            } else {
                0
            })
            &&& max_width >= width ==> f.left + width <= max_width
            &&& max_width < width ==> f.left == 0
            &&& s.left + width <= max_width ==> f.left == s.left
            &&& s.left + width > max_width ==> f.left == (if max_width >= width {
                max_width - width
            } else {
                0
            })
            &&& f.search == s.search && f.prompt == s.prompt && f.message == s.message
            &&& f.pending_g == s.pending_g
        }),
{
}

/// `h`, `j`, `k` and `l` (and the arrow keys) scroll by one: `h` and Left one
/// column left and `k` and Up one line up, stopping at the first; `l` and
/// Right one column right and `j`, Down and Enter one line down. The other
/// direction stays as it was.
pub proof fn lemma_hjkl_scroll_by_one(s: StateView, lines: Seq<Seq<char>>, key: Key, screen: Screen)
    requires
        s.prompt is None,
        0 <= s.top,
        0 <= s.left,
        !ctrl(key),
    ensures
        ({
            let t = after_key(s, lines, key, screen);
            &&& (key.code == KeyCode::Char('h') || key.code == KeyCode::Left) ==> t.left == (if s.left
                >= 1 {
                s.left - 1
            } else {
                0
            }) && t.top == s.top
            &&& (key.code == KeyCode::Char('l') || key.code == KeyCode::Right) ==> t.left == s.left
                + 1 && t.top == s.top
            &&& (key.code == KeyCode::Char('j') || key.code == KeyCode::Down || key.code
                == KeyCode::Enter) ==> t.top == s.top + 1 && t.left == s.left
            &&& (key.code == KeyCode::Char('k') || key.code == KeyCode::Up) ==> t.top == (if s.top
                >= 1 {
                s.top - 1
            } else {
                0
            }) && t.left == s.left
        }),
{
}

/// `l` then `h` come back to the column the view was at, and so do Right
/// then Left.
pub proof fn lemma_right_then_left(
    s: StateView,
    lines: Seq<Seq<char>>,
    right: Key,
    left: Key,
    screen: Screen,
)
    requires
        s.prompt is None,
        0 <= s.left,
        right.code == KeyCode::Right || (right.code == KeyCode::Char('l') && !ctrl(right)),
        left.code == KeyCode::Left || (left.code == KeyCode::Char('h') && !ctrl(left)),
    ensures
        after_key(after_key(s, lines, right, screen), lines, left, screen).left == s.left,
        after_key(after_key(s, lines, right, screen), lines, left, screen).top == s.top,
{
}

/// The direction in which `key`, `n` or `N`, repeats `search`: `N` goes the
/// other way than the search itself.
pub open spec fn repeats_backward(search: SearchView, key: Key) -> bool {
    if key.code == KeyCode::Char('N') {
        !search.backward
    } else {
        search.backward
    }
}

/// Whether some line holds a match of `search`, among the lines tried from `from`.
pub open spec fn some_line_matches(lines: Seq<Seq<char>>, search: SearchView, from: int, back: bool) -> bool {
    exists|o: int|
        1 <= o <= lines.len() && line_matches(
            lines[#[trigger] wrapped_line(from, lines.len() as int, o, back)],
            search.pattern,
            search.ignore_case,
        )
}

/// Whether `line` is the first line holding a match of `search` that is tried
/// from `from`, going backward (`back`) or forward.
pub open spec fn first_matching_line(
    lines: Seq<Seq<char>>,
    search: SearchView,
    from: int,
    back: bool,
    line: int,
) -> bool {
    exists|o: int|
        1 <= o <= lines.len() && line == #[trigger] wrapped_line(from, lines.len() as int, o, back)
            && line_matches(lines[line], search.pattern, search.ignore_case) && forall|p: int|
            1 <= p < o ==> !line_matches(
                lines[#[trigger] wrapped_line(from, lines.len() as int, p, back)],
                search.pattern,
                search.ignore_case,
            )
}

/// `n` repeats the search in its own direction, and `N` in the other one:
/// backward for a forward search, forward for a backward one. The lines are
/// tried one after the other from the first visible line in that direction,
/// wrapping around at the end (or start) of the graph, and the view moves to
/// the first that holds a match; where none does, the view stays and says
/// that the pattern was not found.
pub proof fn lemma_repeat_search_direction(
    s: StateView,
    lines: Seq<Seq<char>>,
    key: Key,
    screen: Screen,
)
    requires
        s.prompt is None,
        s.search is Some,
        0 <= s.top,
        key.code == KeyCode::Char('n') || key.code == KeyCode::Char('N'),
    ensures
        key.code == KeyCode::Char('N') ==> repeats_backward(s.search->0, key) == !s.search->0.backward,
        key.code == KeyCode::Char('n') ==> repeats_backward(s.search->0, key) == s.search->0.backward,
        forall|o: int|
            #[trigger] wrapped_line(s.top, lines.len() as int, o, true) == (s.top + lines.len() - o)
                % (lines.len() as int),
        forall|o: int|
            #[trigger] wrapped_line(s.top, lines.len() as int, o, false) == (s.top + o) % (
            lines.len() as int),
        some_line_matches(lines, s.search->0, s.top, repeats_backward(s.search->0, key))
            ==> first_matching_line(
            lines,
            s.search->0,
            s.top,
            repeats_backward(s.search->0, key),
            after_key(s, lines, key, screen).top,
        ),
        some_line_matches(lines, s.search->0, s.top, repeats_backward(s.search->0, key))
            ==> after_key(s, lines, key, screen).message is None,
        !some_line_matches(lines, s.search->0, s.top, repeats_backward(s.search->0, key))
            ==> after_key(s, lines, key, screen).top == s.top,
        !some_line_matches(lines, s.search->0, s.top, repeats_backward(s.search->0, key))
            ==> after_key(s, lines, key, screen).message == Some(
            not_found_message(s.search->0.text),
        ),
        after_key(s, lines, key, screen).search == s.search,
        after_key(s, lines, key, screen).left == s.left,
{
    let search = s.search->0;
    let back = repeats_backward(search, key);
    let n = lines.len() as int;
    let reverse = key.code == KeyCode::Char('N');
    assert(back == (search.backward != reverse));
    let base = StateView {
        pending_g: is_plain_g(key) && !s.pending_g,
        message: None,
        left: left_after(s.left, key, screen),
        ..s
    };
    let t = after_key(s, lines, key, screen);
    assert(t == jumped(base, lines, reverse));
    lemma_find_line_first_in_order(lines, search.pattern, search.ignore_case, s.top, back);
    let found = next_match(lines, search.pattern, search.ignore_case, s.top, back, 1);
    match found {
        Some(l) => {
            assert(t.top == l);
            assert(first_matching_line(lines, search, s.top, back, l));
        },
        None => {
            if some_line_matches(lines, search, s.top, back) {
                let o = choose|o: int|
                    1 <= o <= n && line_matches(
                        lines[#[trigger] wrapped_line(s.top, n, o, back)],
                        search.pattern,
                        search.ignore_case,
                    );
                assert(false);
            }
        },
    }
}

/// Smart case: a search is case-insensitive exactly when no character of its
/// pattern, at any position, is upper case; a case-sensitive search matches
/// the pattern as typed.
pub proof fn lemma_smart_case(text: Seq<char>, backward: bool)
    ensures
        forall|k: int|
            0 <= k < text.len() && #[trigger] std_is_uppercase(text[k]) ==> !search_of(
                text,
                backward,
            ).ignore_case,
        (forall|k: int| 0 <= k < text.len() ==> !#[trigger] std_is_uppercase(text[k])) ==> search_of(
            text,
            backward,
        ).ignore_case,
        !search_of(text, backward).ignore_case ==> search_of(text, backward).pattern == text,
        search_of(text, backward).text == text,
        search_of(text, backward).backward == backward,
{
}

/// `n`, or 0 where it is negative.
pub open spec fn or_zero(n: int) -> int {
    if n >= 0 {
        n
    } else {
        0
    }
}

/// The keys that scroll by more than one: Ctrl+D and Ctrl+U by half a page,
/// Ctrl+F, Space and PageDown forward and Ctrl+B and PageUp back by all but
/// one line of a page (at least one line each), `G` and End to the end and
/// Home to the start; `L` and `H` by half the screen's width, `0` and `^` to
/// the first column and `$` to the last. Scrolling back stops at the first
/// line and column, and no key scrolls the other way.
pub proof fn lemma_page_keys(s: StateView, lines: Seq<Seq<char>>, key: Key, screen: Screen)
    requires
        s.prompt is None,
        0 <= s.top,
        0 <= s.left,
    ensures
        ({
            let t = after_key(s, lines, key, screen);
            let page = screen.page as int;
            let half = if page / 2 >= 1 {
                page / 2
            } else {
                1
            };
            let full = if page >= 2 {
                page - 1
            } else {
                1
            };
            let half_width = if screen.width / 2 >= 1 {
                screen.width / 2
            } else {
                1
            };
            &&& key.code == KeyCode::Char('d') && ctrl(key) ==> t.top == s.top + half && t.left
                == s.left
            &&& key.code == KeyCode::Char('u') && ctrl(key) ==> t.top == or_zero(s.top - half)
                && t.left == s.left
            &&& (key.code == KeyCode::Char('f') && ctrl(key) || key.code == KeyCode::Char(' ')
                || key.code == KeyCode::PageDown) ==> t.top == s.top + full && t.left == s.left
            &&& (key.code == KeyCode::Char('b') && ctrl(key) || key.code == KeyCode::PageUp)
                ==> t.top == or_zero(s.top - full) && t.left == s.left
            &&& (key.code == KeyCode::Char('G') || key.code == KeyCode::End) ==> t.top
                == lines.len() && t.left == s.left
            &&& key.code == KeyCode::Home ==> t.top == 0 && t.left == s.left
            &&& key.code == KeyCode::Char('L') ==> t.left == s.left + half_width && t.top == s.top
            &&& key.code == KeyCode::Char('H') ==> t.left == or_zero(s.left - half_width) && t.top
                == s.top
            &&& (key.code == KeyCode::Char('0') || key.code == KeyCode::Char('^')) ==> t.left == 0
                && t.top == s.top
            &&& key.code == KeyCode::Char('$') ==> t.left == usize::MAX && t.top == s.top
        }),
{
}

/// Scrolling forward and then back by the same amount comes back to the line
/// or column the view was at: Ctrl+D then Ctrl+U, Ctrl+F (or Space, or
/// PageDown) then Ctrl+B (or PageUp), and `L` then `H`.
pub proof fn lemma_page_round_trips(
    s: StateView,
    lines: Seq<Seq<char>>,
    forward: Key,
    back: Key,
    screen: Screen,
)
    requires
        s.prompt is None,
        0 <= s.top,
        0 <= s.left,
        (forward.code == KeyCode::Char('d') && ctrl(forward) && back.code == KeyCode::Char('u')
            && ctrl(back)) || ((forward.code == KeyCode::Char('f') && ctrl(forward) || forward.code
            == KeyCode::Char(' ') || forward.code == KeyCode::PageDown) && (back.code
            == KeyCode::Char('b') && ctrl(back) || back.code == KeyCode::PageUp)) || (forward.code
            == KeyCode::Char('L') && back.code == KeyCode::Char('H')),
    ensures
        after_key(after_key(s, lines, forward, screen), lines, back, screen).top == s.top,
        after_key(after_key(s, lines, forward, screen), lines, back, screen).left == s.left,
{
}

/// `/` opens an empty prompt for a forward search and `?` one for a backward
/// search; a character typed into the prompt is added at its end.
pub proof fn lemma_prompt_typing(s: StateView, lines: Seq<Seq<char>>, key: Key, screen: Screen)
    ensures
        s.prompt is None && key.code == KeyCode::Char('/') ==> after_key(
            s,
            lines,
            key,
            screen,
        ).prompt == Some(PromptView { text: Seq::empty(), backward: false }),
        s.prompt is None && key.code == KeyCode::Char('?') ==> after_key(
            s,
            lines,
            key,
            screen,
        ).prompt == Some(PromptView { text: Seq::empty(), backward: true }),
        s.prompt is Some && key.code is Char && !ctrl(key) ==> after_key(
            s,
            lines,
            key,
            screen,
        ).prompt == Some(
            PromptView {
                text: s.prompt->0.text.push(key.code->Char_0),
                backward: s.prompt->0.backward,
            },
        ),
        s.prompt is Some && key.code is Char && !ctrl(key) ==> after_key(
            s,
            lines,
            key,
            screen,
        ).search == s.search && after_key(s, lines, key, screen).top == s.top,
{
}

/// In normal mode `q`, Esc and Ctrl+C leave the viewer, and every other key
/// keeps it open; a key other than a plain `g` drops a pending `g`, so that
/// `g`, another key and `g` do not make a `gg`.
pub proof fn lemma_quit_keys_and_pending_g(s: StateView, lines: Seq<Seq<char>>, key: Key, screen: Screen)
    requires
        s.prompt is None,
    ensures
        key.code == KeyCode::Char('q') ==> !stays_open(s, key),
        key.code == KeyCode::Esc ==> !stays_open(s, key),
        key.code == KeyCode::Char('c') && ctrl(key) ==> !stays_open(s, key),
        key.code != KeyCode::Char('q') && key.code != KeyCode::Esc && !(key.code == KeyCode::Char(
            'c',
        ) && ctrl(key)) ==> stays_open(s, key),
        !(key.code == KeyCode::Char('g') && !ctrl(key)) ==> !after_key(
            s,
            lines,
            key,
            screen,
        ).pending_g,
        key.code == KeyCode::Char('g') && !ctrl(key) ==> after_key(s, lines, key, screen).pending_g
            == !s.pending_g,
{
}

} // verus!
