use git_graph::ansi::visible_width;
use git_graph::search::{find_line, find_matches, Search};
use git_graph::window::{pad, slice};

const NONE: [(usize, usize); 0] = [];

#[test]
fn slice_plain_text() {
    assert_eq!(slice("abcdef", 0, 3, &NONE), "abc");
    assert_eq!(slice("abcdef", 2, 3, &NONE), "cde");
    assert_eq!(slice("abcdef", 4, 10, &NONE), "ef");
    assert_eq!(slice("abcdef", 10, 3, &NONE), "");
}

#[test]
fn slice_keeps_colors() {
    let line = "\x1b[31mabc\x1b[0mdef";
    assert_eq!(slice(line, 2, 3, &NONE), "\x1b[31mc\x1b[0mde");
    assert_eq!(slice(line, 0, 2, &NONE), "\x1b[31mab");
}

#[test]
fn slice_splits_wide_chars() {
    // '世' is two columns wide
    assert_eq!(slice("a世b", 0, 3, &NONE), "a世");
    assert_eq!(slice("a世b", 2, 2, &NONE), " b");
    assert_eq!(slice("a世b", 0, 2, &NONE), "a ");
}

#[test]
fn slice_highlights_matches() {
    assert_eq!(slice("abcd", 0, 4, &[(1, 3)]), "a\x1b[7mbc\x1b[27md");
    // Highlighting is restored after a color that may have reset it
    assert_eq!(
        slice("ab\x1b[0mcd", 0, 4, &[(0, 4)]),
        "\x1b[7mab\x1b[0m\x1b[7mcd\x1b[27m"
    );
    // Only the visible part of a match is highlighted
    assert_eq!(slice("abcd", 2, 2, &[(1, 3)]), "\x1b[7mc\x1b[27md");
}

#[test]
fn width_ignores_colors() {
    assert_eq!(visible_width("\x1b[31mabc\x1b[0m"), 3);
    assert_eq!(visible_width("a世b"), 4);
}

#[test]
fn pad_to_width() {
    assert_eq!(pad("abc", 5), "abc  ");
    assert_eq!(pad("abcdef", 3), "abc");
    assert_eq!(pad("a世", 2), "a ");
}

#[test]
fn find_matches_in_line() {
    let search = Search::new("ab".to_string(), false);
    assert_eq!(find_matches("xabyab", &search), vec![(1, 3), (4, 6)]);
    assert_eq!(find_matches("xyz", &search), vec![]);
    // Columns are those of the visible text, colors are skipped
    assert_eq!(find_matches("\x1b[31mx\x1b[0mab", &search), vec![(1, 3)]);
    // Columns account for the width of characters
    assert_eq!(find_matches("世ab", &search), vec![(2, 4)]);
}

#[test]
fn find_matches_smart_case() {
    // A lower case pattern matches any case ...
    let search = Search::new("commit".to_string(), false);
    assert_eq!(find_matches("Commit", &search), vec![(0, 6)]);
    // ... an upper case character makes the search case-sensitive
    let search = Search::new("Commit".to_string(), false);
    assert_eq!(find_matches("commit", &search), vec![]);
    assert_eq!(find_matches("Commit", &search), vec![(0, 6)]);
}

#[test]
fn find_line_wraps_around() {
    let lines: Vec<String> = ["aa", "bb", "cc", "bb"]
        .iter()
        .map(|line| line.to_string())
        .collect();
    let search = Search::new("bb".to_string(), false);

    assert_eq!(find_line(&lines, &search, 0, false), Some(1));
    assert_eq!(find_line(&lines, &search, 1, false), Some(3));
    // Searching past the last match continues at the first one
    assert_eq!(find_line(&lines, &search, 3, false), Some(1));
    assert_eq!(find_line(&lines, &search, 3, true), Some(1));
    assert_eq!(find_line(&lines, &search, 0, true), Some(3));

    let search = Search::new("zz".to_string(), false);
    assert_eq!(find_line(&lines, &search, 0, false), None);
}
