use git_graph::ansi::{skip_escape, visible_chars, visible_width};
use git_graph::search::normalize;
use git_graph::text::str_chars;
use git_graph::width::char_width;
use git_graph::window::{is_match, pad, set_highlight, slice};

#[test]
fn characters_have_widths() {
    assert_eq!(char_width('a'), 1);
    assert_eq!(char_width('世'), 2);
    assert_eq!(char_width('\x1b'), 0);
    assert_eq!(char_width('\u{301}'), 0);
}

#[test]
fn strings_to_characters() {
    assert_eq!(str_chars("a世\x1b"), vec!['a', '世', '\x1b']);
    assert_eq!(str_chars(""), vec![]);
}

#[test]
fn escapes_are_skipped() {
    let chars: Vec<char> = "\x1b[31mx".chars().collect();
    assert_eq!(skip_escape(&chars, 1), 5);
    // Not a CSI sequence: a single character
    let chars: Vec<char> = "\x1b(x".chars().collect();
    assert_eq!(skip_escape(&chars, 1), 2);
    // An unterminated CSI sequence runs to the end
    let chars: Vec<char> = "\x1b[12".chars().collect();
    assert_eq!(skip_escape(&chars, 1), 4);
    // A lone ESC at the end
    let chars: Vec<char> = "a\x1b".chars().collect();
    assert_eq!(skip_escape(&chars, 2), 2);
}

#[test]
fn visible_characters_and_columns() {
    assert_eq!(
        visible_chars("\x1b[1ma世\x1b[0mb"),
        vec![('a', 0), ('世', 1), ('b', 3)]
    );
    assert_eq!(visible_width("\x1b[12"), 0);
    assert_eq!(visible_width(""), 0);
}

#[test]
fn normalize_lowers_case_only_when_asked() {
    assert_eq!(normalize(&['A', 'b', 'Ä'], true), vec!['a', 'b', 'ä']);
    assert_eq!(normalize(&['A', 'b'], false), vec!['A', 'b']);
    // Only the first character of a longer lower case mapping is kept
    assert_eq!(normalize(&['\u{130}'], true), vec!['i']);
}

#[test]
fn matches_and_highlight_switches() {
    assert!(is_match(&[(1, 3), (5, 6)], 2));
    assert!(is_match(&[(1, 3), (5, 6)], 5));
    assert!(!is_match(&[(1, 3), (5, 6)], 3));
    let mut out = String::new();
    let mut highlighted = false;
    set_highlight(&mut out, &mut highlighted, true);
    set_highlight(&mut out, &mut highlighted, true);
    assert_eq!(out, "\x1b[7m");
    set_highlight(&mut out, &mut highlighted, false);
    assert_eq!(out, "\x1b[7m\x1b[27m");
    assert!(!highlighted);
}

#[test]
fn padded_plain_text_is_exactly_wide() {
    for text in ["", "ab", "a世b", "世世世", "abcdefgh"] {
        for width in 0..7 {
            assert_eq!(visible_width(&pad(text, width)), width);
        }
    }
}

#[test]
fn slice_shows_window_of_visible_text() {
    let line = "\x1b[31ma世\x1b[0mbc\x1b[1md";
    assert_eq!(visible_width(line), 6);
    let cut = slice(line, 2, 3, &[(0, 6)]);
    let visible: String = visible_chars(&cut).iter().map(|(c, _)| *c).collect();
    assert_eq!(visible, " bc");
    assert_eq!(slice(line, 2, 0, &[]), "\x1b[31m \x1b[0m");
}
