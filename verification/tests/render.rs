use git_graph::render::{compose_lines, max_line_width, push_decimal, row_text, status_line};
use git_graph::search::Search;
use git_graph::viewer::{Prompt, Screen, State};

#[test]
fn decimal_numbers() {
    let mut s = String::new();
    push_decimal(&mut s, 0);
    s.push(' ');
    push_decimal(&mut s, 7);
    s.push(' ');
    push_decimal(&mut s, 1234);
    s.push(' ');
    push_decimal(&mut s, usize::MAX);
    assert_eq!(s, format!("0 7 1234 {}", usize::MAX));
}

#[test]
fn lines_are_composed() {
    let graph = vec!["*".to_string(), "|".to_string(), "o".to_string()];
    let text = vec!["first".to_string(), "second".to_string()];
    let lines = compose_lines(&graph, &text);
    assert_eq!(lines, vec![" *  first".to_string(), " |  second".to_string()]);
}

#[test]
fn widest_line_width() {
    let lines = vec!["\x1b[31mab\x1b[0m".to_string(), "a世b".to_string(), "x".to_string()];
    assert_eq!(max_line_width(&lines), 4);
    assert_eq!(max_line_width(&[]), 0);
}

#[test]
fn rows_show_visible_part() {
    let lines = vec!["abcd".to_string(), "xbcx".to_string()];
    let mut state = State::new();
    state.left = 1;
    let screen = Screen { width: 2, page: 3 };
    assert_eq!(row_text(&lines, &state, &screen, 0).as_deref(), Some("bc\x1b[0m"));
    assert_eq!(row_text(&lines, &state, &screen, 2), None);
    state.search = Some(Search::new("cx".to_string(), false));
    assert_eq!(
        row_text(&lines, &state, &screen, 1).as_deref(),
        Some("b\x1b[7mc\x1b[27m\x1b[0m")
    );
}

#[test]
fn status_shows_range_and_help() {
    let mut state = State::new();
    state.top = 2;
    let screen = Screen { width: 20, page: 5 };
    let status = status_line(10, &state, &screen);
    assert_eq!(status.text, " 3-7/10  hjkl scroll");
    assert_eq!(status.cursor, None);
    state.top = 8;
    state.message = Some("No previous search".to_string());
    let status = status_line(10, &state, &Screen { width: 30, page: 5 });
    assert_eq!(status.text, " 9-10/10  No previous search  ");
}

#[test]
fn status_shows_prompt() {
    let mut state = State::new();
    let mut prompt = Prompt::new(true);
    prompt.text.push_str("ab");
    state.prompt = Some(prompt);
    let status = status_line(10, &state, &Screen { width: 6, page: 5 });
    assert_eq!(status.text, "?ab   ");
    assert_eq!(status.cursor, Some(3));
    let status = status_line(10, &state, &Screen { width: 2, page: 5 });
    assert_eq!(status.text, "?a");
    assert_eq!(status.cursor, Some(1));
}
