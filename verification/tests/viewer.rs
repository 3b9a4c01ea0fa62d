use git_graph::search::Search;
use git_graph::viewer::{is_ctrl, jump, navigate, type_search, Key, KeyCode, Prompt, Screen, State};

const CTRL: u8 = 2;

fn key(code: KeyCode) -> Key {
    Key { code, modifiers: 0 }
}

fn ctrl_key(c: char) -> Key {
    Key { code: KeyCode::Char(c), modifiers: CTRL }
}

fn chr(c: char) -> Key {
    key(KeyCode::Char(c))
}

fn graph() -> Vec<String> {
    ["aa", "bb", "cc", "bb", "dd", "ee", "ff", "gg", "hh", "ii"]
        .iter()
        .map(|line| line.to_string())
        .collect()
}

fn screen() -> Screen {
    Screen { width: 20, page: 4 }
}

#[test]
fn state_starts_at_top() {
    let state = State::new();
    assert_eq!((state.top, state.left), (0, 0));
    assert!(state.search.is_none() && state.prompt.is_none() && state.message.is_none());
    assert!(!state.pending_g);
}

#[test]
fn screen_reserves_status_row() {
    let screen = Screen::from_size(80, 24);
    assert_eq!((screen.width, screen.page), (80, 23));
    let screen = Screen::from_size(0, 0);
    assert_eq!((screen.width, screen.page), (1, 1));
}

#[test]
fn control_modifier_is_detected() {
    assert!(is_ctrl(&ctrl_key('d')));
    assert!(!is_ctrl(&chr('d')));
    // Shift and Alt are not Control
    assert!(!is_ctrl(&Key { code: KeyCode::Char('d'), modifiers: 0b101 }));
    assert!(is_ctrl(&Key { code: KeyCode::Char('d'), modifiers: 0b111 }));
}

#[test]
fn gg_goes_to_first_line() {
    let lines = graph();
    let mut state = State::new();
    state.top = 5;
    assert!(state.on_key(&lines, chr('g'), &screen()));
    assert_eq!(state.top, 5);
    assert!(state.pending_g);
    assert!(state.on_key(&lines, chr('g'), &screen()));
    assert_eq!(state.top, 0);
    assert!(!state.pending_g);
}

#[test]
fn g_then_other_key_does_not_jump() {
    let lines = graph();
    let mut state = State::new();
    state.top = 5;
    state.on_key(&lines, chr('g'), &screen());
    state.on_key(&lines, chr('j'), &screen());
    state.on_key(&lines, chr('g'), &screen());
    assert_eq!(state.top, 6);
    assert!(state.pending_g);
}

#[test]
fn navigation_keys_scroll() {
    let lines = graph();
    let screen = screen();
    let mut state = State::new();
    assert!(navigate(&mut state, &lines, chr('G'), &screen));
    assert_eq!(state.top, 10);
    navigate(&mut state, &lines, key(KeyCode::Home), &screen);
    assert_eq!(state.top, 0);
    navigate(&mut state, &lines, ctrl_key('d'), &screen);
    assert_eq!(state.top, 2);
    navigate(&mut state, &lines, ctrl_key('f'), &screen);
    assert_eq!(state.top, 5);
    navigate(&mut state, &lines, key(KeyCode::PageUp), &screen);
    assert_eq!(state.top, 2);
    navigate(&mut state, &lines, ctrl_key('u'), &screen);
    assert_eq!(state.top, 0);
    navigate(&mut state, &lines, chr('k'), &screen);
    assert_eq!(state.top, 0);
    // Plain 'd' does nothing
    navigate(&mut state, &lines, chr('d'), &screen);
    assert_eq!(state.top, 0);
    navigate(&mut state, &lines, chr(' '), &screen);
    assert_eq!(state.top, 3);
    navigate(&mut state, &lines, ctrl_key('b'), &screen);
    assert_eq!(state.top, 0);
    navigate(&mut state, &lines, key(KeyCode::End), &screen);
    assert_eq!(state.top, 10);
}

#[test]
fn horizontal_keys_scroll() {
    let lines = graph();
    let screen = screen();
    let mut state = State::new();
    navigate(&mut state, &lines, chr('l'), &screen);
    assert_eq!(state.left, 1);
    navigate(&mut state, &lines, chr('L'), &screen);
    assert_eq!(state.left, 11);
    navigate(&mut state, &lines, chr('H'), &screen);
    assert_eq!(state.left, 1);
    navigate(&mut state, &lines, key(KeyCode::Left), &screen);
    navigate(&mut state, &lines, key(KeyCode::Left), &screen);
    assert_eq!(state.left, 0);
    navigate(&mut state, &lines, chr('$'), &screen);
    assert_eq!(state.left, usize::MAX);
    navigate(&mut state, &lines, chr('^'), &screen);
    assert_eq!(state.left, 0);
    // Ctrl+L is not 'l'
    navigate(&mut state, &lines, ctrl_key('l'), &screen);
    assert_eq!(state.left, 0);
}

#[test]
fn down_then_up_comes_back() {
    let lines = graph();
    let mut state = State::new();
    state.top = 3;
    state.on_key(&lines, chr('j'), &screen());
    assert_eq!(state.top, 4);
    state.on_key(&lines, key(KeyCode::Up), &screen());
    assert_eq!(state.top, 3);
}

#[test]
fn quit_keys_leave_the_viewer() {
    let lines = graph();
    let mut state = State::new();
    assert!(!state.on_key(&lines, chr('q'), &screen()));
    assert!(!state.on_key(&lines, key(KeyCode::Esc), &screen()));
    assert!(!state.on_key(&lines, ctrl_key('c'), &screen()));
    assert!(state.on_key(&lines, chr('c'), &screen()));
}

#[test]
fn q_is_typed_in_the_prompt() {
    let lines = graph();
    let mut state = State::new();
    assert!(state.on_key(&lines, chr('/'), &screen()));
    assert!(state.on_key(&lines, chr('q'), &screen()));
    assert_eq!(state.prompt.as_ref().unwrap().text, "q");
}

#[test]
fn search_prompt_finds_next_line() {
    let lines = graph();
    let mut state = State::new();
    state.on_key(&lines, chr('/'), &screen());
    assert!(!state.prompt.as_ref().unwrap().backward);
    state.on_key(&lines, chr('b'), &screen());
    state.on_key(&lines, chr('b'), &screen());
    state.on_key(&lines, key(KeyCode::Enter), &screen());
    assert!(state.prompt.is_none());
    assert_eq!(state.search.as_ref().unwrap().text, "bb");
    assert_eq!(state.top, 1);
    state.on_key(&lines, chr('n'), &screen());
    assert_eq!(state.top, 3);
    state.on_key(&lines, chr('n'), &screen());
    assert_eq!(state.top, 1);
    state.on_key(&lines, chr('N'), &screen());
    assert_eq!(state.top, 3);
    assert!(state.message.is_none());
}

#[test]
fn backward_search_prompt() {
    let lines = graph();
    let mut state = State::new();
    state.on_key(&lines, chr('?'), &screen());
    assert!(state.prompt.as_ref().unwrap().backward);
    state.on_key(&lines, chr('b'), &screen());
    state.on_key(&lines, key(KeyCode::Enter), &screen());
    assert_eq!(state.top, 3);
    state.on_key(&lines, chr('n'), &screen());
    assert_eq!(state.top, 1);
    state.on_key(&lines, chr('N'), &screen());
    assert_eq!(state.top, 3);
}

#[test]
fn backspace_undoes_typing() {
    let lines = graph();
    let mut state = State::new();
    state.on_key(&lines, chr('/'), &screen());
    state.on_key(&lines, chr('a'), &screen());
    state.on_key(&lines, chr('x'), &screen());
    state.on_key(&lines, key(KeyCode::Backspace), &screen());
    assert_eq!(state.prompt.as_ref().unwrap().text, "a");
    state.on_key(&lines, key(KeyCode::Backspace), &screen());
    state.on_key(&lines, key(KeyCode::Backspace), &screen());
    assert_eq!(state.prompt.as_ref().unwrap().text, "");
}

#[test]
fn empty_pattern_removes_search() {
    let lines = graph();
    let mut state = State::new();
    state.search = Some(Search::new("cc".to_string(), false));
    state.prompt = Some(Prompt::new(false));
    type_search(&mut state, &lines, key(KeyCode::Enter));
    assert!(state.search.is_none());
    assert!(state.prompt.is_none());
    assert_eq!(state.top, 0);
}

#[test]
fn escape_cancels_prompt() {
    let lines = graph();
    let mut state = State::new();
    state.search = Some(Search::new("cc".to_string(), false));
    state.prompt = Some(Prompt::new(false));
    type_search(&mut state, &lines, chr('d'));
    type_search(&mut state, &lines, key(KeyCode::Esc));
    assert!(state.prompt.is_none());
    assert_eq!(state.search.as_ref().unwrap().text, "cc");
    state.prompt = Some(Prompt::new(true));
    type_search(&mut state, &lines, ctrl_key('c'));
    assert!(state.prompt.is_none());
    // Other keys with Control are not typed
    state.prompt = Some(Prompt::new(true));
    type_search(&mut state, &lines, ctrl_key('x'));
    assert_eq!(state.prompt.as_ref().unwrap().text, "");
}

#[test]
fn jump_without_search_says_so() {
    let lines = graph();
    let mut state = State::new();
    jump(&mut state, &lines, false);
    assert_eq!(state.message.as_deref(), Some("No previous search"));
    assert_eq!(state.top, 0);
}

#[test]
fn jump_without_match_says_so() {
    let lines = graph();
    let mut state = State::new();
    state.top = 2;
    state.search = Some(Search::new("zz".to_string(), false));
    jump(&mut state, &lines, false);
    assert_eq!(state.message.as_deref(), Some("Pattern not found: zz"));
    assert_eq!(state.top, 2);
    // The next key clears the message
    state.on_key(&lines, chr('j'), &screen());
    assert!(state.message.is_none());
}

#[test]
fn fit_to_screen_keeps_view_in_graph() {
    let mut state = State::new();
    state.top = 10;
    state.left = usize::MAX;
    state.fit_to_screen(10, 30, &screen());
    assert_eq!((state.top, state.left), (6, 10));
    state.fit_to_screen(3, 5, &screen());
    assert_eq!((state.top, state.left), (0, 0));
}

#[test]
fn empty_pattern_searches_nothing_at_any_line() {
    let lines = graph();
    let mut state = State::new();
    state.top = usize::MAX;
    state.search = Some(Search::new("cc".to_string(), false));
    state.prompt = Some(Prompt::new(true));
    type_search(&mut state, &lines, key(KeyCode::Enter));
    assert!(state.search.is_none() && state.prompt.is_none());
    assert_eq!(state.top, usize::MAX);
    assert!(state.message.is_none());
}
