//! Search patterns, their matches in a line, and the next line that matches.
use crate::ansi::{lemma_text_width_push, visible_chars, visible_text};
use crate::width::{char_width, fits_columns, text_width};
use crate::window::lemma_text_width_prefix;
use vstd::prelude::*;

verus! {

/// What `char::is_uppercase` returns for `c`.
pub uninterp spec fn std_is_uppercase(c: char) -> bool;

/// What the first item of `char::to_lowercase` is for `c`.
pub uninterp spec fn std_lowercase_first(c: char) -> Option<char>;

/// Calls `char::is_uppercase`: whether `c` has the Unicode property
/// `Uppercase`. Which characters have it is left unsaid.
#[verifier::external_body]
fn char_is_uppercase(c: char) -> (r: bool)
    ensures
        r == std_is_uppercase(c),
{
    c.is_uppercase()
}

/// Calls `char::to_lowercase` and takes the first item of the iterator it
/// returns. The documentation says that the iterator yields the lower case
/// mapping as one or more characters, so there is a first one; which
/// character it is, is left unsaid.
#[verifier::external_body]
fn lowercase_head(c: char) -> (r: Option<char>)
    ensures
        r == std_lowercase_first(c),
        r is Some,
{
    c.to_lowercase().next()
}

/// The character that stands for `c` in a case-insensitive search.
pub open spec fn lower(c: char) -> char {
    match std_lowercase_first(c) {
        Some(l) => l,
        None => c,
    }
}

/// Characters as they are compared: lower case for a case-insensitive search.
pub open spec fn normalized(t: Seq<char>, ignore_case: bool) -> Seq<char> {
    if ignore_case {
        t.map_values(|c: char| lower(c))
    } else {
        t
    }
}

/// Whether `t` holds an upper case character.
pub open spec fn has_uppercase(t: Seq<char>) -> bool {
    exists|k: int| 0 <= k < t.len() && #[trigger] std_is_uppercase(t[k])
}

/// Search pattern, prepared for matching.
pub struct Search {
    /// The pattern as typed by the user.
    pub text: String,
    /// The pattern as it is matched, i.e. lower case for a case-insensitive search.
    pub pattern: Vec<char>,
    pub ignore_case: bool,
    pub backward: bool,
}

impl Search {
    /// Whether this is the search that `Search::new` makes of `text` and `backward`:
    /// case-insensitive exactly when `text` holds no upper case character.
    pub open spec fn is_search_for(&self, text: Seq<char>, backward: bool) -> bool {
        &&& self.text@ == text
        &&& self.ignore_case == !has_uppercase(text)
        &&& self.pattern@ == normalized(text, self.ignore_case)
        &&& self.backward == backward
    }

    pub fn new(text: String, backward: bool) -> (r: Self)
        ensures
            r.is_search_for(text@, backward),
            forall|k: int|
                0 <= k < text@.len() && #[trigger] std_is_uppercase(text@[k]) ==> !r.ignore_case,
            (forall|k: int| 0 <= k < text@.len() ==> !#[trigger] std_is_uppercase(text@[k]))
                ==> r.ignore_case,
            !r.ignore_case ==> r.pattern@ == text@,
            r.pattern@.len() == text@.len(),
            r.ignore_case ==> forall|k: int|
                0 <= k < text@.len() ==> std_lowercase_first(#[trigger] text@[k]) == Some(
                    r.pattern@[k],
                ),
    {
        // "Smart case", as in vim: only search case-sensitively if the user
        // bothered to type an upper case character.
        let chars = crate::text::str_chars(text.as_str());
        let mut any_upper = false;
        let mut k: usize = 0;
        while k < chars.len()
            invariant
                k <= chars@.len(),
                chars@ == text@,
                any_upper == exists|j: int| 0 <= j < k && #[trigger] std_is_uppercase(chars@[j]),
            decreases chars@.len() - k,
        {
            if char_is_uppercase(chars[k]) {
                any_upper = true;
            }
            k = k + 1;
        }
        let ignore_case = !any_upper;
        let pattern = normalize(chars.as_slice(), ignore_case);
        assert(any_upper == has_uppercase(text@));
        Search { text, pattern, ignore_case, backward }
    }
}

/// Lower-case characters for a case-insensitive search.
///
/// Only the first character of a lower case mapping is used, to keep one
/// character per character, and thus the mapping to terminal columns.
pub fn normalize(chars: &[char], ignore_case: bool) -> (r: Vec<char>)
    ensures
        r@ == normalized(chars@, ignore_case),
        ignore_case ==> forall|j: int|
            0 <= j < chars@.len() ==> std_lowercase_first(#[trigger] chars@[j]) == Some(r@[j]),
{
    let mut result: Vec<char> = Vec::new();
    let mut k: usize = 0;
    while k < chars.len()
        invariant
            k <= chars@.len(),
            result@.len() == k,
            forall|j: int|
                0 <= j < k ==> #[trigger] result@[j] == (if ignore_case {
                    lower(chars@[j])
                } else {
                    chars@[j]
                }),
            ignore_case ==> forall|j: int|
                0 <= j < k ==> std_lowercase_first(#[trigger] chars@[j]) == Some(result@[j]),
        decreases chars@.len() - k,
    {
        let chr = chars[k];
        if ignore_case {
            let l = match lowercase_head(chr) {
                Some(l) => l,
                None => chr,
            };
            result.push(l);
        } else {
            result.push(chr);
        }
        k = k + 1;
    }
    assert(result@ =~= normalized(chars@, ignore_case));
    result
}

/// Start positions of the matches of `pattern` in `chars`, looking from
/// position `index` on: each match is taken where it is first found, and the
/// search goes on after its end.
pub open spec fn greedy_matches(chars: Seq<char>, pattern: Seq<char>, index: int) -> Seq<int>
    decreases chars.len() - index,
{
    if pattern.len() == 0 || index < 0 || index + pattern.len() > chars.len() {
        Seq::empty()
    } else if chars.subrange(index, index + pattern.len()) == pattern {
        seq![index] + greedy_matches(chars, pattern, index + pattern.len())
    } else {
        greedy_matches(chars, pattern, index + 1)
    }
}

/// Positions, among the visible characters of `line`, at which the matches of a
/// search with `pattern` start.
pub open spec fn match_starts(line: Seq<char>, pattern: Seq<char>, ignore_case: bool) -> Seq<int> {
    greedy_matches(normalized(visible_text(line), ignore_case), pattern, 0)
}

/// Whether `line` holds a match of a search with `pattern`.
pub open spec fn line_matches(line: Seq<char>, pattern: Seq<char>, ignore_case: bool) -> bool {
    match_starts(line, pattern, ignore_case).len() > 0
}

/// Column ranges of the matches of a search with `pattern` in `line`: from
/// the first column of a match's first character to the column after its
/// last character.
pub open spec fn match_ranges(line: Seq<char>, pattern: Seq<char>, ignore_case: bool) -> Seq<(usize, usize)> {
    let text = visible_text(line);
    match_starts(line, pattern, ignore_case).map_values(
        |m: int|
            (
                text_width(text.take(m)) as usize,
                text_width(text.take(m + pattern.len())) as usize,
            ),
    )
}

/// Whether `chars` holds `pattern` at position `index`.
fn matches_at(chars: &[char], pattern: &[char], index: usize) -> (r: bool)
    requires
        index + pattern@.len() <= chars@.len(),
    ensures
        r == (chars@.subrange(index as int, index + pattern@.len()) == pattern@),
{
    let n = chars.len();
    let mut k: usize = 0;
    while k < pattern.len()
        invariant
            n == chars@.len(),
            index + pattern@.len() <= chars@.len(),
            k <= pattern@.len(),
            forall|j: int| 0 <= j < k ==> chars@[index + j] == #[trigger] pattern@[j],
        decreases pattern@.len() - k,
    {
        if chars[index + k] != pattern[k] {
            assert(chars@.subrange(index as int, index + pattern@.len())[k as int] != pattern@[k as int]);
            return false;
        }
        k = k + 1;
    }
    assert(chars@.subrange(index as int, index + pattern@.len()) =~= pattern@);
    true
}

/// Column ranges of all matches of `search` in an ANSI-colored line.
pub fn find_matches(line: &str, search: &Search) -> (r: Vec<(usize, usize)>)
    requires
        fits_columns(line@),
    ensures
        ({
            let starts = match_starts(line@, search.pattern@, search.ignore_case);
            let text = visible_text(line@);
            &&& r@.len() == starts.len()
            &&& forall|k: int|
                #![trigger r@[k]]
                0 <= k < r@.len() ==> r@[k].0 == text_width(text.take(starts[k]))
                    && r@[k].1 == text_width(text.take(starts[k] + search.pattern@.len()))
        }),
        r@ == match_ranges(line@, search.pattern@, search.ignore_case),
{
    let length = search.pattern.len();
    if length == 0 {
        return Vec::new();
    }
    let visible = visible_chars(line);
    let ghost text = visible_text(line@);
    let mut plain: Vec<char> = Vec::new();
    let mut k: usize = 0;
    while k < visible.len()
        invariant
            k <= visible@.len(),
            plain@ == text.take(k as int),
            visible@.len() == text.len(),
            forall|j: int| #![trigger visible@[j]] 0 <= j < visible@.len() ==> visible@[j].0 == text[j],
            forall|j: int|
                #![trigger visible@[j]]
                0 <= j < visible@.len() ==> visible@[j].1 == text_width(text.take(j)),
        decreases visible@.len() - k,
    {
        plain.push(visible[k].0);
        assert(plain@ =~= text.take(k + 1));
        k = k + 1;
    }
    assert(plain@ =~= text);
    let chars = normalize(plain.as_slice(), search.ignore_case);
    let ghost pattern = search.pattern@;
    let ghost all = greedy_matches(chars@, pattern, 0);
    let mut result: Vec<(usize, usize)> = Vec::new();
    let mut index: usize = 0;
    while index + length <= chars.len()
        invariant
            length == pattern.len() > 0,
            pattern == search.pattern@,
            chars@.len() == text.len(),
            visible@.len() == text.len(),
            text.len() <= line@.len(),
            fits_columns(line@),
            text_width(text) <= 3 * line@.len(),
            forall|j: int| #![trigger visible@[j]] 0 <= j < visible@.len() ==> visible@[j].0 == text[j],
            forall|j: int|
                #![trigger visible@[j]]
                0 <= j < visible@.len() ==> visible@[j].1 == text_width(text.take(j)),
            all == greedy_matches(chars@, pattern, 0),
            index <= chars@.len(),
            index == 0 || length <= chars@.len(),
            result@.len() <= all.len(),
            all == all.take(result@.len() as int) + greedy_matches(chars@, pattern, index as int),
            forall|j: int|
                #![trigger result@[j]]
                0 <= j < result@.len() ==> result@[j].0 == text_width(text.take(all[j]))
                    && result@[j].1 == text_width(text.take(all[j] + length)),
        decreases chars@.len() - index,
    {
        if matches_at(chars.as_slice(), search.pattern.as_slice(), index) {
            let (last, column) = visible[index + length - 1];
            proof {
                assert(text.take(index + length) =~= text.take(index + length - 1).push(last));
                lemma_text_width_push(text.take(index + length - 1), last);
                lemma_text_width_prefix(text, index + length);
            }
            let end = column + char_width(last);
            let ghost old_len = result@.len();
            let first = visible[index].1;
            assert(first == text_width(text.take(index as int)));
            result.push((first, end));
            proof {
                assert(greedy_matches(chars@, pattern, index as int) == seq![index as int]
                    + greedy_matches(chars@, pattern, index + length));
                assert(all[old_len as int] == index);
                assert(all.take(old_len + 1int) =~= all.take(old_len as int).push(index as int));
                assert(all == all.take(result@.len() as int) + greedy_matches(
                    chars@,
                    pattern,
                    index + length,
                ));
            }
            index = index + length;
        } else {
            index = index + 1;
        }
    }
    proof {
        assert(all.take(result@.len() as int) =~= all);
        assert(all == match_starts(line@, search.pattern@, search.ignore_case));
        assert(result@ =~= match_ranges(line@, search.pattern@, search.ignore_case));
    }
    result
}

/// The texts of `lines`.
pub open spec fn texts(lines: Seq<String>) -> Seq<Seq<char>> {
    lines.map_values(|l: String| l@)
}

/// The line `offset` lines after line `from` (before it, `backward`), the
/// search wrapping around at the end (or start) of the `count` lines.
pub open spec fn wrapped_line(from: int, count: int, offset: int, backward: bool) -> int {
    if backward {
        (from + count - offset) % count
    } else {
        (from + offset) % count
    }
}

/// The first line, trying those `offset`, `offset + 1`, ... up to `lines.len()`
/// lines after `from` (before it, `backward`), that matches a search with `pattern`.
pub open spec fn next_match(
    lines: Seq<Seq<char>>,
    pattern: Seq<char>,
    ignore_case: bool,
    from: int,
    backward: bool,
    offset: int,
) -> Option<int>
    decreases lines.len() + 1 - offset,
{
    if offset <= 0 || offset > lines.len() {
        None
    } else {
        let line = wrapped_line(from, lines.len() as int, offset, backward);
        if line_matches(lines[line], pattern, ignore_case) {
            Some(line)
        } else {
            next_match(lines, pattern, ignore_case, from, backward, offset + 1)
        }
    }
}

/// Find the next line matching `search`, starting after line `from`.
///
/// The search wraps around at the end (or start) of the graph.
pub fn find_line(lines: &[String], search: &Search, from: usize, backward: bool) -> (r: Option<usize>)
    requires
        forall|i: int| 0 <= i < lines@.len() ==> fits_columns(#[trigger] lines@[i]@),
        from + lines@.len() <= usize::MAX,
    ensures
        ({
            let found = next_match(texts(lines@), search.pattern@, search.ignore_case, from as int, backward, 1);
            match r {
                Some(l) => found == Some(l as int),
                None => found is None,
            }
        }),
{
    let count = lines.len();
    let ghost all = texts(lines@);
    let ghost pattern = search.pattern@;
    let mut k: usize = 0;
    while k < count
        invariant
            count == lines@.len(),
            all == texts(lines@),
            pattern == search.pattern@,
            forall|i: int| 0 <= i < lines@.len() ==> fits_columns(#[trigger] lines@[i]@),
            from + count <= usize::MAX,
            k <= count,
            next_match(all, pattern, search.ignore_case, from as int, backward, 1) == next_match(
                all,
                pattern,
                search.ignore_case,
                from as int,
                backward,
                k + 1,
            ),
        decreases count - k,
    {
        let offset = k + 1;
        let line = if backward {
            (from + count - offset) % count
        } else {
            (from + offset) % count
        };
        let matches = find_matches(lines[line].as_str(), search);
        assert(all[line as int] == lines@[line as int]@);
        if matches.len() > 0 {
            return Some(line);
        }
        k = k + 1;
    }
    None
}

/// Whether `pattern` occurs in `chars` at some position from `i` on.
pub open spec fn occurs_from(chars: Seq<char>, pattern: Seq<char>, i: int) -> bool {
    exists|j: int|
        i <= j && j + pattern.len() <= chars.len() && #[trigger] chars.subrange(j, j + pattern.len())
            == pattern
}

/// The matches taken from position `i` on are found exactly when the pattern
/// occurs from there on.
pub proof fn lemma_greedy_found_iff_occurs(chars: Seq<char>, pattern: Seq<char>, i: int)
    requires
        pattern.len() > 0,
        0 <= i,
    ensures
        greedy_matches(chars, pattern, i).len() > 0 <==> occurs_from(chars, pattern, i),
    decreases chars.len() - i,
{
    if i + pattern.len() > chars.len() {
    } else if chars.subrange(i, i + pattern.len()) == pattern {
        assert(chars.subrange(i, i + pattern.len()) == pattern);
    } else {
        lemma_greedy_found_iff_occurs(chars, pattern, i + 1);
        if occurs_from(chars, pattern, i) {
            let j = choose|j: int|
                i <= j && j + pattern.len() <= chars.len() && #[trigger] chars.subrange(
                    j,
                    j + pattern.len(),
                ) == pattern;
            assert(j != i);
            assert(occurs_from(chars, pattern, i + 1));
        }
        if occurs_from(chars, pattern, i + 1) {
            let j = choose|j: int|
                i + 1 <= j && j + pattern.len() <= chars.len() && #[trigger] chars.subrange(
                    j,
                    j + pattern.len(),
                ) == pattern;
            assert(occurs_from(chars, pattern, i));
        }
    }
}

/// A line holds a match of a search exactly when the search's pattern occurs
/// in the line's visible text, as compared (lower case for a
/// case-insensitive search).
pub proof fn lemma_line_matches_iff_occurs(line: Seq<char>, pattern: Seq<char>, ignore_case: bool)
    requires
        pattern.len() > 0,
    ensures
        line_matches(line, pattern, ignore_case) <==> occurs_from(
            normalized(visible_text(line), ignore_case),
            pattern,
            0,
        ),
{
    lemma_greedy_found_iff_occurs(normalized(visible_text(line), ignore_case), pattern, 0);
}

/// The matches taken from position `i` on are occurrences of the pattern, in
/// increasing order, none overlapping the next.
pub proof fn lemma_greedy_matches_disjoint(chars: Seq<char>, pattern: Seq<char>, i: int)
    requires
        0 <= i,
    ensures
        forall|k: int|
            0 <= k < greedy_matches(chars, pattern, i).len() ==> {
                let m = #[trigger] greedy_matches(chars, pattern, i)[k];
                &&& i <= m
                &&& m + pattern.len() <= chars.len()
                &&& chars.subrange(m, m + pattern.len()) == pattern
            },
        forall|k: int, l: int|
            0 <= k < l < greedy_matches(chars, pattern, i).len() ==> #[trigger] greedy_matches(
                chars,
                pattern,
                i,
            )[k] + pattern.len() <= #[trigger] greedy_matches(chars, pattern, i)[l],
    decreases chars.len() - i,
{
    if pattern.len() == 0 || i + pattern.len() > chars.len() {
    } else if chars.subrange(i, i + pattern.len()) == pattern {
        lemma_greedy_matches_disjoint(chars, pattern, i + pattern.len());
        let rest = greedy_matches(chars, pattern, i + pattern.len());
        assert(greedy_matches(chars, pattern, i) == seq![i] + rest);
        assert forall|k: int, l: int|
            0 <= k < l < greedy_matches(chars, pattern, i).len() implies #[trigger] greedy_matches(
            chars,
            pattern,
            i,
        )[k] + pattern.len() <= #[trigger] greedy_matches(chars, pattern, i)[l] by {
            if k == 0 {
                assert(greedy_matches(chars, pattern, i)[l] == rest[l - 1]);
            } else {
                assert(greedy_matches(chars, pattern, i)[l] == rest[l - 1]);
                assert(greedy_matches(chars, pattern, i)[k] == rest[k - 1]);
            }
        }
        assert forall|k: int| 0 <= k < greedy_matches(chars, pattern, i).len() implies {
            let m = #[trigger] greedy_matches(chars, pattern, i)[k];
            &&& i <= m
            &&& m + pattern.len() <= chars.len()
            &&& chars.subrange(m, m + pattern.len()) == pattern
        } by {
            if k > 0 {
                assert(greedy_matches(chars, pattern, i)[k] == rest[k - 1]);
            }
        }
    } else {
        lemma_greedy_matches_disjoint(chars, pattern, i + 1);
        assert(greedy_matches(chars, pattern, i) == greedy_matches(chars, pattern, i + 1));
    }
}

/// What `next_match` gives from `offset` on: the first line in wrap-around
/// order that matches, or none when none of them does.
pub proof fn lemma_next_match_from(
    lines: Seq<Seq<char>>,
    pattern: Seq<char>,
    ignore_case: bool,
    from: int,
    backward: bool,
    offset: int,
)
    requires
        1 <= offset,
    ensures
        match next_match(lines, pattern, ignore_case, from, backward, offset) {
            Some(l) => exists|o: int|
                offset <= o <= lines.len() && l == wrapped_line(from, lines.len() as int, o, backward)
                    && line_matches(lines[l], pattern, ignore_case) && forall|p: int|
                    offset <= p < o ==> !line_matches(
                        lines[#[trigger] wrapped_line(from, lines.len() as int, p, backward)],
                        pattern,
                        ignore_case,
                    ),
            None => forall|o: int|
                offset <= o <= lines.len() ==> !line_matches(
                    lines[#[trigger] wrapped_line(from, lines.len() as int, o, backward)],
                    pattern,
                    ignore_case,
                ),
        },
    decreases lines.len() + 1 - offset,
{
    if offset > lines.len() {
    } else {
        lemma_next_match_from(lines, pattern, ignore_case, from, backward, offset + 1);
        let line = wrapped_line(from, lines.len() as int, offset, backward);
        if line_matches(lines[line], pattern, ignore_case) {
            assert(offset <= offset <= lines.len() && line == wrapped_line(
                from,
                lines.len() as int,
                offset,
                backward,
            ));
        } else {
            match next_match(lines, pattern, ignore_case, from, backward, offset + 1) {
                Some(l) => {
                    let o = choose|o: int|
                        offset + 1 <= o <= lines.len() && l == wrapped_line(
                            from,
                            lines.len() as int,
                            o,
                            backward,
                        ) && line_matches(lines[l], pattern, ignore_case) && forall|p: int|
                            offset + 1 <= p < o ==> !line_matches(
                                lines[#[trigger] wrapped_line(
                                    from,
                                    lines.len() as int,
                                    p,
                                    backward,
                                )],
                                pattern,
                                ignore_case,
                            );
                    assert forall|p: int| offset <= p < o implies !line_matches(
                        lines[#[trigger] wrapped_line(from, lines.len() as int, p, backward)],
                        pattern,
                        ignore_case,
                    ) by {
                        if p == offset {
                        }
                    }
                },
                None => {},
            }
        }
    }
}

/// `find_line` gives the first line, in wrap-around order after line `from`,
/// that holds a match, and gives none only when no line holds one; the
/// lines it tries are all lines of the graph, line `from` last.
pub proof fn lemma_find_line_first_in_order(
    lines: Seq<Seq<char>>,
    pattern: Seq<char>,
    ignore_case: bool,
    from: int,
    backward: bool,
)
    requires
        0 <= from,
    ensures
        match next_match(lines, pattern, ignore_case, from, backward, 1) {
            Some(l) => exists|o: int|
                1 <= o <= lines.len() && l == wrapped_line(from, lines.len() as int, o, backward)
                    && line_matches(lines[l], pattern, ignore_case) && forall|p: int|
                    1 <= p < o ==> !line_matches(
                        lines[#[trigger] wrapped_line(from, lines.len() as int, p, backward)],
                        pattern,
                        ignore_case,
                    ),
            None => forall|o: int|
                1 <= o <= lines.len() ==> !line_matches(
                    lines[#[trigger] wrapped_line(from, lines.len() as int, o, backward)],
                    pattern,
                    ignore_case,
                ),
        },
        forall|o: int|
            1 <= o <= lines.len() ==> 0 <= #[trigger] wrapped_line(
                from,
                lines.len() as int,
                o,
                backward,
            ) < lines.len(),
        lines.len() > 0 ==> wrapped_line(from, lines.len() as int, lines.len() as int, backward)
            == from % (lines.len() as int),
        forall|o: int|
            #[trigger] wrapped_line(from, lines.len() as int, o, backward) == (if backward {
                (from + lines.len() - o) % (lines.len() as int)
            } else {
                (from + o) % (lines.len() as int)
            }),
{
    lemma_next_match_from(lines, pattern, ignore_case, from, backward, 1);
    let n = lines.len() as int;
    assert forall|o: int| 1 <= o <= n implies 0 <= #[trigger] wrapped_line(from, n, o, backward)
        < n by {
        vstd::arithmetic::div_mod::lemma_mod_bound(from + o, n);
        vstd::arithmetic::div_mod::lemma_mod_bound(from + n - o, n);
    }
    if n > 0 {
        vstd::arithmetic::div_mod::lemma_mod_multiples_vanish(1, from, n);
        assert(n * 1 + from == from + n);
    }
}

/// A longer prefix of a text is at least as wide.
proof fn lemma_prefix_width_monotone(t: Seq<char>, a: int, b: int)
    requires
        0 <= a <= b <= t.len(),
    ensures
        text_width(t.take(a)) <= text_width(t.take(b)),
{
    lemma_text_width_prefix(t.take(b), a);
    assert(t.take(b).take(a) =~= t.take(a));
}

/// The column ranges of the matches in a line come in order and do not
/// overlap: each ends at or before the start of the next one.
pub proof fn lemma_match_columns_ordered(line: Seq<char>, pattern: Seq<char>, ignore_case: bool)
    ensures
        ({
            let starts = match_starts(line, pattern, ignore_case);
            let text = visible_text(line);
            &&& forall|k: int|
                0 <= k < starts.len() ==> text_width(text.take(#[trigger] starts[k])) <= text_width(
                    text.take(starts[k] + pattern.len()),
                )
            &&& forall|k: int, l: int|
                0 <= k < l < starts.len() ==> text_width(
                    text.take(#[trigger] starts[k] + pattern.len()),
                ) <= text_width(text.take(#[trigger] starts[l]))
        }),
{
    let text = visible_text(line);
    let chars = normalized(text, ignore_case);
    let starts = match_starts(line, pattern, ignore_case);
    assert(chars.len() == text.len());
    lemma_greedy_matches_disjoint(chars, pattern, 0);
    assert forall|k: int| 0 <= k < starts.len() implies text_width(text.take(#[trigger] starts[k]))
        <= text_width(text.take(starts[k] + pattern.len())) by {
        lemma_prefix_width_monotone(text, starts[k], starts[k] + pattern.len());
    }
    assert forall|k: int, l: int| 0 <= k < l < starts.len() implies text_width(
        text.take(#[trigger] starts[k] + pattern.len()),
    ) <= text_width(text.take(#[trigger] starts[l])) by {
        assert(starts[l] + pattern.len() <= chars.len());
        lemma_prefix_width_monotone(text, starts[k] + pattern.len(), starts[l]);
    }
}

/// Whether `pattern`, not empty, occurs in `chars` at position `j`.
pub open spec fn occurs_at(chars: Seq<char>, pattern: Seq<char>, j: int) -> bool {
    &&& pattern.len() > 0
    &&& 0 <= j
    &&& j + pattern.len() <= chars.len()
    &&& chars.subrange(j, j + pattern.len()) == pattern
}

/// Whether `pattern` occurs nowhere in `chars` at a position from `a` up to
/// but not including `b`.
pub open spec fn occurs_nowhere(chars: Seq<char>, pattern: Seq<char>, a: int, b: int) -> bool {
    forall|j: int| a <= j < b ==> !#[trigger] occurs_at(chars, pattern, j)
}

/// The matches taken from position `i` on are exactly the leftmost
/// non-overlapping occurrences: each is an occurrence, none of them is passed
/// over between the end of one match (or `i`) and the start of the next,
/// and none follows the last match.
proof fn lemma_greedy_leftmost(chars: Seq<char>, pattern: Seq<char>, i: int)
    requires
        pattern.len() > 0,
        0 <= i,
    ensures
        ({
            let g = greedy_matches(chars, pattern, i);
            &&& forall|k: int| 0 <= k < g.len() ==> occurs_at(chars, pattern, #[trigger] g[k])
            &&& g.len() > 0 ==> i <= g[0] && occurs_nowhere(chars, pattern, i, g[0])
            &&& forall|k: int|
                0 < k < g.len() ==> g[k - 1] + pattern.len() <= #[trigger] g[k] && occurs_nowhere(
                    chars,
                    pattern,
                    g[k - 1] + pattern.len(),
                    g[k],
                )
            &&& g.len() == 0 ==> occurs_nowhere(chars, pattern, i, chars.len() as int)
            &&& g.len() > 0 ==> occurs_nowhere(
                chars,
                pattern,
                g[g.len() - 1] + pattern.len(),
                chars.len() as int,
            )
        }),
    decreases chars.len() - i,
{
    let n = pattern.len() as int;
    let g = greedy_matches(chars, pattern, i);
    if i + n > chars.len() {
        assert forall|j: int| i <= j < chars.len() implies !#[trigger] occurs_at(chars, pattern, j) by {
        }
    } else if chars.subrange(i, i + n) == pattern {
        lemma_greedy_leftmost(chars, pattern, i + n);
        let rest = greedy_matches(chars, pattern, i + n);
        assert(g == seq![i] + rest);
        assert(occurs_at(chars, pattern, i));
        assert forall|k: int| 0 <= k < g.len() implies occurs_at(chars, pattern, #[trigger] g[k]) by {
            if k > 0 {
                assert(g[k] == rest[k - 1]);
            }
        }
        assert forall|k: int| 0 < k < g.len() implies g[k - 1] + n <= #[trigger] g[k]
            && occurs_nowhere(chars, pattern, g[k - 1] + n, g[k]) by {
            assert(g[k] == rest[k - 1]);
            if k > 1 {
                assert(g[k - 1] == rest[k - 2]);
            }
        }
        if rest.len() > 0 {
            assert(g[g.len() - 1] == rest[rest.len() - 1]);
        }
    } else {
        lemma_greedy_leftmost(chars, pattern, i + 1);
        assert(g == greedy_matches(chars, pattern, i + 1));
        assert(!occurs_at(chars, pattern, i));
    }
}

/// The matches that a search finds in a line are the leftmost
/// non-overlapping occurrences of its pattern in the line's visible text, as
/// compared: each is an occurrence, no occurrence that starts at or after the
/// end of one match (or the start of the line) and before the next one is
/// left out, and no occurrence follows the last match. So where the pattern
/// occurs right after a match, that is a match too.
pub proof fn lemma_matches_are_leftmost(line: Seq<char>, pattern: Seq<char>, ignore_case: bool)
    requires
        pattern.len() > 0,
    ensures
        ({
            let chars = normalized(visible_text(line), ignore_case);
            let starts = match_starts(line, pattern, ignore_case);
            &&& forall|k: int|
                0 <= k < starts.len() ==> occurs_at(chars, pattern, #[trigger] starts[k])
            &&& starts.len() > 0 ==> occurs_nowhere(chars, pattern, 0, starts[0])
            &&& forall|k: int|
                0 < k < starts.len() ==> starts[k - 1] + pattern.len() <= #[trigger] starts[k]
                    && occurs_nowhere(chars, pattern, starts[k - 1] + pattern.len(), starts[k])
            &&& starts.len() == 0 ==> occurs_nowhere(chars, pattern, 0, chars.len() as int)
            &&& starts.len() > 0 ==> occurs_nowhere(
                chars,
                pattern,
                starts[starts.len() - 1] + pattern.len(),
                chars.len() as int,
            )
            &&& forall|k: int|
                0 <= k < starts.len() && occurs_at(chars, pattern, starts[k] + pattern.len())
                    ==> k + 1 < starts.len() && #[trigger] starts[k] + pattern.len() == starts[k + 1]
        }),
{
    let chars = normalized(visible_text(line), ignore_case);
    let starts = match_starts(line, pattern, ignore_case);
    let n = pattern.len() as int;
    lemma_greedy_leftmost(chars, pattern, 0);
    assert forall|k: int|
        0 <= k < starts.len() && occurs_at(chars, pattern, starts[k] + n) implies k + 1
        < starts.len() && #[trigger] starts[k] + n == starts[k + 1] by {
        if k + 1 == starts.len() {
            assert(!occurs_at(chars, pattern, starts[k] + n));
        } else {
            assert(starts[k] + n <= starts[k + 1]);
            if starts[k] + n < starts[k + 1] {
                assert(!occurs_at(chars, pattern, starts[k] + n));
            }
        }
    }
}

/// Each column range of a match starts at the column where the match's first
/// visible character starts, spans exactly the columns of the matched
/// characters, and lies within the line's visible width.
pub proof fn lemma_match_ranges_cover_matched_text(
    line: Seq<char>,
    pattern: Seq<char>,
    ignore_case: bool,
)
    requires
        text_width(visible_text(line)) <= usize::MAX,
    ensures
        match_ranges(line, pattern, ignore_case).len() == match_starts(
            line,
            pattern,
            ignore_case,
        ).len(),
        forall|k: int|
            #![trigger match_ranges(line, pattern, ignore_case)[k]]
            0 <= k < match_ranges(line, pattern, ignore_case).len() ==> match_ranges(
                line,
                pattern,
                ignore_case,
            )[k].0 as int == text_width(
                visible_text(line).take(match_starts(line, pattern, ignore_case)[k]),
            ),
        forall|k: int|
            #![trigger match_ranges(line, pattern, ignore_case)[k]]
            0 <= k < match_ranges(line, pattern, ignore_case).len() ==> match_ranges(
                line,
                pattern,
                ignore_case,
            )[k].1 as int == match_ranges(line, pattern, ignore_case)[k].0 as int + text_width(
                visible_text(line).subrange(
                    match_starts(line, pattern, ignore_case)[k],
                    match_starts(line, pattern, ignore_case)[k] + pattern.len(),
                ),
            ) && match_ranges(line, pattern, ignore_case)[k].1 as int <= text_width(
                visible_text(line),
            ),
{
    let text = visible_text(line);
    let chars = normalized(text, ignore_case);
    let starts = match_starts(line, pattern, ignore_case);
    let ranges = match_ranges(line, pattern, ignore_case);
    assert(chars.len() == text.len());
    lemma_greedy_matches_disjoint(chars, pattern, 0);
    assert(ranges.len() == starts.len());
    assert forall|k: int| #![trigger ranges[k]] 0 <= k < ranges.len() implies {
        &&& ranges[k].0 as int == text_width(text.take(starts[k]))
        &&& ranges[k].1 as int == ranges[k].0 as int + text_width(
            text.subrange(starts[k], starts[k] + pattern.len()),
        )
        &&& ranges[k].1 as int <= text_width(text)
    } by {
        let m = starts[k];
        let e = m + pattern.len();
        assert(0 <= m && e <= chars.len());
        assert(ranges[k] == (text_width(text.take(m)) as usize, text_width(text.take(e)) as usize));
        lemma_text_width_prefix(text, m);
        lemma_text_width_prefix(text, e);
        assert(text.take(e) =~= text.take(m) + text.subrange(m, e));
        crate::window::lemma_text_width_concat(text.take(m), text.subrange(m, e));
    }
}

} // verus!
