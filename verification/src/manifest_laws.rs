//! What holds of the manifests: comments and strings do not get in each other's way, an entry that
//! is written down is read back, and a keybinds block is whole.
use vstd::prelude::*;
use vstd::string::*;

use crate::manifest::{
    block_end, comment_at, comment_start, depth, entries_of, in_string, keybinds_line, keybinds_of,
    line_end, line_entries, nonempty, quoted_from, quoted_of, uncommented_of,
};
use crate::text::{
    chomp, find, first_word, is_space, lemma_find, lemma_find_unique, lines_from, lines_of,
    skip_space, word_end,
};
use crate::text_laws::{lemma_find_shift, lemma_first_line, lemma_skip_all, lemma_word_all};

verus! {

// ── comments ────────────────────────────────────────────────────────────────────────────────────

proof fn lemma_comment_start(s: Seq<char>, from: int)
    requires
        0 <= from <= s.len(),
    ensures
        from <= comment_start(s, from) <= s.len(),
        comment_start(s, from) < s.len() ==> comment_at(s, comment_start(s, from)),
        forall|j: int| from <= j < comment_start(s, from) ==> !#[trigger] comment_at(s, j),
    decreases s.len() - from,
{
    if from < s.len() && !comment_at(s, from) {
        lemma_comment_start(s, from + 1);
    }
}

proof fn lemma_comment_start_unique(s: Seq<char>, from: int, at: int)
    requires
        0 <= from <= at <= s.len(),
        at < s.len() ==> comment_at(s, at),
        forall|j: int| from <= j < at ==> !#[trigger] comment_at(s, j),
    ensures
        comment_start(s, from) == at,
    decreases at - from,
{
    if from < at {
        assert(!comment_at(s, from));
        lemma_comment_start_unique(s, from + 1, at);
    }
}

/// Whether a position is inside a string depends only on what comes before it.
proof fn lemma_in_string_same(s: Seq<char>, t: Seq<char>, from: int, i: int)
    requires
        forall|j: int| from <= j < i ==> s[j] == t[j],
    ensures
        in_string(s, from, i) == in_string(t, from, i),
    decreases i - from,
{
    if i > from {
        lemma_in_string_same(s, t, from, i - 1);
    }
}

/// A line is cut at the first two slashes that stand outside of a string, and nowhere else: two
/// slashes inside a string stay.
pub proof fn law_comments_start_outside_strings(line: Seq<char>)
    ensures
        uncommented_of(line).len() <= line.len(),
        uncommented_of(line) == line.take(uncommented_of(line).len() as int),
        uncommented_of(line).len() < line.len() ==> comment_at(
            line,
            uncommented_of(line).len() as int,
        ),
        forall|j: int|
            0 <= j < uncommented_of(line).len() ==> !#[trigger] comment_at(line, j),
{
    lemma_comment_start(line, 0);
}

/// A line that has lost its comment has none left to lose.
pub proof fn law_uncommenting_twice_is_uncommenting_once(line: Seq<char>)
    ensures
        uncommented_of(uncommented_of(line)) == uncommented_of(line),
{
    let code = uncommented_of(line);
    lemma_comment_start(line, 0);
    assert forall|j: int| 0 <= j < code.len() implies !#[trigger] comment_at(code, j) by {
        assert(!comment_at(line, j));
        lemma_in_string_same(code, line, 0, j);
    }
    lemma_comment_start_unique(code, 0, code.len() as int);
    assert(code.take(code.len() as int) =~= code);
}

/// What stands in a comment names no plugin: a comment behind a line whose strings are closed
/// changes nothing, be there code before it or only blanks.
pub proof fn law_comments_name_no_plugins(code: Seq<char>, comment: Seq<char>)
    requires
        !in_string(code, 0, code.len() as int),
        code.len() > 0 ==> code.last() != '/',
    ensures
        line_entries(code + seq!['/', '/'] + comment) == line_entries(code),
{
    let line = code + seq!['/', '/'] + comment;
    let n = code.len() as int;
    assert forall|j: int| 0 <= j < n implies comment_at(line, j) == comment_at(code, j) by {
        lemma_in_string_same(line, code, 0, j);
        if j == n - 1 {
            assert(line[j] == code[j]);
        }
    }
    lemma_in_string_same(line, code, 0, n);
    assert(comment_at(line, n));
    lemma_comment_start(code, 0);
    lemma_comment_start_unique(line, 0, comment_start(code, 0));
    assert(uncommented_of(line) =~= uncommented_of(code));
}

// ── quoted strings ──────────────────────────────────────────────────────────────────────────────

/// The number of quotes in `s` from position `from` on.
pub open spec fn quotes_from(s: Seq<char>, from: int) -> nat
    decreases s.len() - from,
{
    if from >= s.len() {
        0
    } else {
        quotes_from(s, from + 1) + if s[from] == '"' {
            1nat
        } else {
            0nat
        }
    }
}

proof fn lemma_quotes_skip(s: Seq<char>, from: int, to: int)
    requires
        from <= to <= s.len(),
        forall|j: int| from <= j < to ==> s[j] != '"',
    ensures
        quotes_from(s, from) == quotes_from(s, to),
    decreases to - from,
{
    if from < to {
        lemma_quotes_skip(s, from + 1, to);
    }
}

proof fn lemma_quoted_from(s: Seq<char>, from: int)
    requires
        0 <= from,
    ensures
        quoted_from(s, from).len() == quotes_from(s, from) / 2,
        forall|i: int|
            0 <= i < quoted_from(s, from).len() ==> !(#[trigger] quoted_from(s, from)[i]).contains(
                '"',
            ),
    decreases s.len() - from,
{
    if from < s.len() {
        let a = find(s, '"', from);
        lemma_find(s, '"', from);
        lemma_quotes_skip(s, from, a);
        if a < s.len() {
            let b = find(s, '"', a + 1);
            lemma_find(s, '"', a + 1);
            lemma_quotes_skip(s, a + 1, b);
            if b < s.len() {
                lemma_quoted_from(s, b + 1);
                let first = s.subrange(a + 1, b);
                let rest = quoted_from(s, b + 1);
                assert forall|i: int| 0 <= i < quoted_from(s, from).len() implies !(
                #[trigger] quoted_from(s, from)[i]).contains('"') by {
                    if i == 0 {
                        if first.contains('"') {
                            let k = choose|k: int| 0 <= k < first.len() && first[k] == '"';
                            assert(s[a + 1 + k] == '"');
                        }
                    } else {
                        assert(quoted_from(s, from)[i] == rest[i - 1]);
                    }
                }
            }
        }
    }
}

/// Two quotes make a string: a line has half as many strings as quotes, and no string holds one.
pub proof fn law_two_quotes_make_a_string(line: Seq<char>)
    ensures
        quoted_of(line).len() == quotes_from(line, 0) / 2,
        forall|i: int|
            0 <= i < quoted_of(line).len() ==> !(#[trigger] quoted_of(line)[i]).contains('"'),
{
    lemma_quoted_from(line, 0);
}

/// How many quotes a text holds.
pub open spec fn quote_count(s: Seq<char>) -> nat {
    s.filter(|c: char| c == '"').len()
}

/// A position is inside a string if an odd number of quotes stands before it.
pub proof fn law_strings_stand_between_quotes(s: Seq<char>, from: int, i: int)
    requires
        0 <= from <= i <= s.len(),
    ensures
        in_string(s, from, i) <==> quote_count(s.subrange(from, i)) % 2 == 1,
    decreases i - from,
{
    reveal(Seq::filter);
    let t = s.subrange(from, i);
    if i > from {
        law_strings_stand_between_quotes(s, from, i - 1);
        assert(t.drop_last() =~= s.subrange(from, i - 1));
        assert(t.last() == s[i - 1]);
    }
}

/// A line loses its comment and nothing else: it is cut at the first two slashes that have an even
/// number of quotes before them, and left whole if there are none.
pub proof fn law_a_line_is_cut_at_its_comment(line: Seq<char>)
    ensures
        ({
            let n = uncommented_of(line).len() as int;
            &&& n <= line.len()
            &&& uncommented_of(line) == line.take(n)
            &&& n < line.len() ==> n + 1 < line.len() && line[n] == '/' && line[n + 1] == '/'
                && quote_count(line.take(n)) % 2 == 0
            &&& forall|j: int|
                0 <= j < n && j + 1 < line.len() && line[j] == '/' && line[j + 1] == '/'
                    ==> quote_count(#[trigger] line.take(j)) % 2 == 1
        }),
{
    let n = uncommented_of(line).len() as int;
    lemma_comment_start(line, 0);
    assert(line.subrange(0, n) =~= line.take(n));
    law_strings_stand_between_quotes(line, 0, n);
    assert forall|j: int|
        0 <= j < n && j + 1 < line.len() && line[j] == '/' && line[j + 1]
            == '/' implies quote_count(#[trigger] line.take(j)) % 2 == 1 by {
        assert(!comment_at(line, j));
        assert(line.subrange(0, j) =~= line.take(j));
        law_strings_stand_between_quotes(line, 0, j);
    }
}

proof fn lemma_quoted_shift(s: Seq<char>, d: int, from: int)
    requires
        0 <= d <= s.len(),
        0 <= from <= s.len() - d,
    ensures
        quoted_from(s, d + from) == quoted_from(s.skip(d), from),
    decreases s.len() - d - from,
{
    let t = s.skip(d);
    if from < t.len() {
        lemma_find_shift(s, '"', d, from);
        lemma_find(t, '"', from);
        let a = find(t, '"', from);
        if a < t.len() {
            lemma_find_shift(s, '"', d, a + 1);
            lemma_find(t, '"', a + 1);
            let b = find(t, '"', a + 1);
            if b < t.len() {
                lemma_quoted_shift(s, d, b + 1);
                assert(s.subrange(d + a + 1, d + b) =~= t.subrange(a + 1, b));
            }
        }
    }
}

/// The strings of a line are what stands between its first quote and its second, its third and its
/// fourth, and so on; a quote that is never closed opens none.
pub proof fn law_the_quoted_strings(before: Seq<char>, q: Seq<char>, rest: Seq<char>)
    requires
        !before.contains('"'),
        !q.contains('"'),
    ensures
        quoted_of(before) == Seq::<Seq<char>>::empty(),
        quoted_of(before + seq!['"'] + q) == Seq::<Seq<char>>::empty(),
        quoted_of(before + seq!['"'] + q + seq!['"'] + rest) == seq![q] + quoted_of(rest),
{
    let a = before.len() as int;
    let b = a + 1 + q.len();
    lemma_find_unique(before, '"', 0, a);
    let open = before + seq!['"'] + q;
    assert forall|j: int| 0 <= j < a implies open[j] != '"' by {
        assert(open[j] == before[j]);
    }
    assert forall|j: int| a + 1 <= j < b implies open[j] != '"' by {
        assert(open[j] == q[j - a - 1]);
    }
    lemma_find_unique(open, '"', 0, a);
    lemma_find_unique(open, '"', a + 1, b);
    let s = open + seq!['"'] + rest;
    assert forall|j: int| 0 <= j < b implies s[j] == open[j] by {}
    lemma_find_unique(s, '"', 0, a);
    lemma_find_unique(s, '"', a + 1, b);
    assert(s.subrange(a + 1, b) =~= q);
    lemma_quoted_shift(s, b + 1, 0);
    assert(s.skip(b + 1) =~= rest);
}

// ── the user's manifest ─────────────────────────────────────────────────────────────────────────

/// Whether a text is an entry: it is not empty.
pub open spec fn is_entry() -> spec_fn(Seq<char>) -> bool {
    |q: Seq<char>| q.len() > 0
}

proof fn lemma_nonempty(qs: Seq<Seq<char>>)
    ensures
        nonempty(qs) == qs.filter(is_entry()),
    decreases qs.len(),
{
    reveal(Seq::filter);
    if qs.len() > 0 {
        lemma_nonempty(qs.drop_last());
    } else {
        assert(nonempty(qs) =~= qs.filter(is_entry()));
    }
}

/// Every line of the user's manifest counts, wherever it stands: its entries are its quoted strings
/// outside of comments but for the empty ones, and those of some lines are those of the first of
/// them, then those of the others.
pub proof fn law_every_line_lists_its_entries(
    before: Seq<Seq<char>>,
    line: Seq<char>,
    after: Seq<Seq<char>>,
)
    ensures
        entries_of(Seq::empty()) == Seq::<Seq<char>>::empty(),
        entries_of(seq![line]) == quoted_of(uncommented_of(line)).filter(is_entry()),
        entries_of(before + seq![line] + after) == entries_of(before) + entries_of(seq![line])
            + entries_of(after),
    decreases after.len(),
{
    let one = seq![line];
    let all = before + one + after;
    lemma_nonempty(quoted_of(uncommented_of(line)));
    assert(one.drop_last() =~= Seq::empty());
    assert(entries_of(Seq::empty()) =~= Seq::<Seq<char>>::empty());
    assert(entries_of(one) =~= line_entries(line));
    if after.len() == 0 {
        assert(all.drop_last() =~= before);
        assert(all.last() == line);
        assert(entries_of(all) =~= entries_of(before) + entries_of(one) + entries_of(after));
    } else {
        law_every_line_lists_its_entries(before, line, after.drop_last());
        assert(all.drop_last() =~= before + one + after.drop_last());
        assert(all.last() == after.last());
        assert(entries_of(all) =~= entries_of(before) + entries_of(one) + entries_of(after));
    }
}

/// The line that lists an entry in the user's manifest.
pub open spec fn entry_line(entry: Seq<char>) -> Seq<char> {
    "    \""@ + entry + "\""@
}

/// A user's manifest that lists the entries, one to a line.
pub open spec fn manifest_lines(entries: Seq<Seq<char>>) -> Seq<char>
    decreases entries.len(),
{
    if entries.len() == 0 {
        Seq::empty()
    } else {
        entry_line(entries[0]) + seq!['\n'] + manifest_lines(entries.drop_first())
    }
}

/// Whether a text can be listed as an entry.
pub open spec fn can_be_listed(entry: Seq<char>) -> bool {
    entry.len() > 0 && !entry.contains('"') && !entry.contains('\n')
}

proof fn lemma_entry_line(entry: Seq<char>)
    requires
        can_be_listed(entry),
    ensures
        line_entries(entry_line(entry)) == seq![entry],
        !entry_line(entry).contains('\n'),
        chomp(entry_line(entry)) == entry_line(entry),
{
    reveal_strlit("    \"");
    reveal_strlit("\"");
    let line = entry_line(entry);
    let n = entry.len() as int;
    assert(line.len() == n + 6);
    assert(line[0] == ' ' && line[1] == ' ' && line[2] == ' ' && line[3] == ' ');
    assert(line[4] == '"' && line[n + 5] == '"');
    assert forall|j: int| 5 <= j < n + 5 implies line[j] == entry[j - 5] && line[j] != '"'
        && line[j] != '\n' by {}
    // All of the entry is inside the string, so no comment starts anywhere.
    assert forall|j: int| 0 <= j < line.len() implies !#[trigger] comment_at(line, j) by {
        if 5 <= j < n + 5 {
            lemma_inside(line, j);
        }
    }
    lemma_comment_start_unique(line, 0, line.len() as int);
    assert(line.take(line.len() as int) =~= line);
    lemma_find_unique(line, '"', 0, 4);
    lemma_find_unique(line, '"', 5, n + 5);
    assert(line.subrange(5, n + 5) =~= entry);
    assert(quoted_from(line, n + 6) =~= Seq::empty());
    assert(quoted_of(line) =~= seq![entry]);
    assert(seq![entry].drop_last() =~= Seq::empty());
    assert(nonempty(Seq::empty()) =~= Seq::empty());
    assert(nonempty(seq![entry]) =~= seq![entry]);
    assert(line.last() == '"');
}

/// From just after an entry's opening quote up to the next quote, a line is inside a string.
proof fn lemma_inside(line: Seq<char>, j: int)
    requires
        5 <= j <= line.len(),
        line[0] == ' ',
        line[1] == ' ',
        line[2] == ' ',
        line[3] == ' ',
        line[4] == '"',
        forall|k: int| 5 <= k < j ==> line[k] != '"',
    ensures
        in_string(line, 0, j),
    decreases j,
{
    if j == 5 {
        reveal_with_fuel(in_string, 6);
    } else {
        lemma_inside(line, j - 1);
    }
}

proof fn lemma_entries_front(lines: Seq<Seq<char>>)
    requires
        lines.len() > 0,
    ensures
        entries_of(lines) == line_entries(lines[0]) + entries_of(lines.drop_first()),
    decreases lines.len(),
{
    if lines.len() == 1 {
        assert(lines.drop_last() =~= Seq::empty());
        assert(lines.drop_first() =~= Seq::empty());
        assert(entries_of(lines) =~= line_entries(lines[0]) + entries_of(lines.drop_first()));
    } else {
        lemma_entries_front(lines.drop_last());
        assert(lines.drop_last().drop_first() =~= lines.drop_first().drop_last());
        assert(entries_of(lines) =~= line_entries(lines[0]) + entries_of(lines.drop_first()));
    }
}

/// The manifest names what is listed in it: entries that are written one to a line, in quotes, are
/// read back in the same order. An entry may hold two slashes: it is in a string.
pub proof fn law_listed_entries_are_read_back(entries: Seq<Seq<char>>)
    requires
        forall|i: int| 0 <= i < entries.len() ==> can_be_listed(#[trigger] entries[i]),
    ensures
        entries_of(lines_of(manifest_lines(entries))) == entries,
    decreases entries.len(),
{
    if entries.len() == 0 {
        assert(lines_of(manifest_lines(entries)) =~= Seq::empty());
        assert(entries_of(lines_of(manifest_lines(entries))) =~= entries);
    } else {
        let rest = entries.drop_first();
        assert forall|i: int| 0 <= i < rest.len() implies can_be_listed(#[trigger] rest[i]) by {
            assert(rest[i] == entries[i + 1]);
        }
        law_listed_entries_are_read_back(rest);
        let line = entry_line(entries[0]);
        lemma_entry_line(entries[0]);
        lemma_first_line(line, manifest_lines(rest));
        let lines = lines_of(manifest_lines(entries));
        lemma_entries_front(lines);
        assert(lines.drop_first() =~= lines_of(manifest_lines(rest)));
        assert(seq![entries[0]] + rest =~= entries);
    }
}

proof fn lemma_lines_hold_no_line_feed(s: Seq<char>, from: int)
    requires
        0 <= from,
    ensures
        forall|i: int|
            0 <= i < lines_from(s, from).len() ==> !(#[trigger] lines_from(s, from)[i]).contains(
                '\n',
            ),
    decreases s.len() - from,
{
    if from < s.len() {
        let e = find(s, '\n', from);
        lemma_find(s, '\n', from);
        if e < s.len() {
            lemma_lines_hold_no_line_feed(s, e + 1);
            let rest = lines_from(s, e + 1);
            assert forall|i: int| 0 <= i < lines_from(s, from).len() implies !(
            #[trigger] lines_from(s, from)[i]).contains('\n') by {
                if i > 0 {
                    assert(lines_from(s, from)[i] == rest[i - 1]);
                }
            }
        }
    }
}

proof fn lemma_quoted_parts(s: Seq<char>, from: int, c: char)
    requires
        0 <= from,
        !s.contains(c),
    ensures
        forall|i: int|
            0 <= i < quoted_from(s, from).len() ==> !(#[trigger] quoted_from(s, from)[i]).contains(
                c,
            ),
    decreases s.len() - from,
{
    if from < s.len() {
        let a = find(s, '"', from);
        lemma_find(s, '"', from);
        if a < s.len() {
            let b = find(s, '"', a + 1);
            lemma_find(s, '"', a + 1);
            if b < s.len() {
                lemma_quoted_parts(s, b + 1, c);
                let rest = quoted_from(s, b + 1);
                assert forall|i: int| 0 <= i < quoted_from(s, from).len() implies !(
                #[trigger] quoted_from(s, from)[i]).contains(c) by {
                    if i > 0 {
                        assert(quoted_from(s, from)[i] == rest[i - 1]);
                    } else {
                        let q = s.subrange(a + 1, b);
                        assert forall|k: int| 0 <= k < q.len() implies q[k] != c by {
                            assert(q[k] == s[a + 1 + k]);
                        }
                    }
                }
            }
        }
    }
}

proof fn lemma_nonempty_from(qs: Seq<Seq<char>>, i: int) -> (k: int)
    requires
        0 <= i < nonempty(qs).len(),
    ensures
        0 <= k < qs.len(),
        nonempty(qs)[i] == qs[k],
        nonempty(qs)[i].len() > 0,
    decreases qs.len(),
{
    let before = nonempty(qs.drop_last());
    if i < before.len() {
        lemma_nonempty_from(qs.drop_last(), i)
    } else {
        qs.len() - 1
    }
}

proof fn lemma_entries_fit(lines: Seq<Seq<char>>, i: int)
    requires
        forall|j: int| 0 <= j < lines.len() ==> !(#[trigger] lines[j]).contains('\n'),
        0 <= i < entries_of(lines).len(),
    ensures
        can_be_listed(entries_of(lines)[i]),
    decreases lines.len(),
{
    let before = entries_of(lines.drop_last());
    let line = lines.last();
    assert(line == lines[lines.len() - 1]);
    if i < before.len() {
        assert forall|j: int| 0 <= j < lines.drop_last().len() implies !(
        #[trigger] lines.drop_last()[j]).contains('\n') by {
            assert(lines.drop_last()[j] == lines[j]);
        }
        lemma_entries_fit(lines.drop_last(), i);
    } else {
        let code = uncommented_of(line);
        lemma_comment_start(line, 0);
        assert forall|j: int| 0 <= j < code.len() implies code[j] != '\n' by {
            assert(code[j] == line[j]);
        }
        lemma_quoted_parts(code, 0, '\n');
        lemma_quoted_from(code, 0);
        let k = lemma_nonempty_from(quoted_of(code), i - before.len());
        assert(entries_of(lines)[i] == quoted_of(code)[k]);
    }
}

/// Whatever a manifest holds, its entries could have been listed one to a line: none is empty,
/// goes over a line's end, or holds a quote.
pub proof fn law_entries_can_be_listed(text: Seq<char>, i: int)
    requires
        0 <= i < entries_of(lines_of(text)).len(),
    ensures
        can_be_listed(entries_of(lines_of(text))[i]),
{
    lemma_lines_hold_no_line_feed(text, 0);
    lemma_entries_fit(lines_of(text), i);
}

// ── keybinds ────────────────────────────────────────────────────────────────────────────────────

proof fn lemma_block_end(s: Seq<char>, open: int, i: int)
    requires
        0 <= open <= i <= s.len(),
    ensures
        match block_end(s, open, i) {
            Some(close) => i <= close < s.len() && depth(s, open, close + 1) == 0 && forall|j: int|
                i <= j < close ==> #[trigger] depth(s, open, j + 1) != 0,
            None => forall|j: int| i <= j < s.len() ==> #[trigger] depth(s, open, j + 1) != 0,
        },
    decreases s.len() - i,
{
    if i < s.len() && depth(s, open, i + 1) != 0 {
        lemma_block_end(s, open, i + 1);
        match block_end(s, open, i) {
            Some(close) => {
                assert forall|j: int| i <= j < close implies #[trigger] depth(s, open, j + 1)
                    != 0 by {}
            },
            None => {
                assert forall|j: int| i <= j < s.len() implies #[trigger] depth(s, open, j + 1)
                    != 0 by {}
            },
        }
    }
}

proof fn lemma_keybinds_line(s: Seq<char>, at: int)
    requires
        0 <= at,
    ensures
        keybinds_line(s, at) matches Some(found) ==> at <= found < s.len(),
    decreases s.len() - at,
{
    if at < s.len() {
        lemma_find(s, '\n', at);
        lemma_keybinds_line(s, line_end(s, at));
    }
}

/// The depth is positive from just after the opening brace up to the closing one.
proof fn lemma_depth_positive(s: Seq<char>, open: int, i: int)
    requires
        0 <= open < i <= s.len(),
        s[open] == '{',
        forall|j: int| open <= j < i ==> #[trigger] depth(s, open, j + 1) != 0,
    ensures
        depth(s, open, i) > 0,
    decreases i - open,
{
    if i == open + 1 {
        reveal_with_fuel(depth, 2);
        reveal_with_fuel(in_string, 1);
    } else {
        lemma_depth_positive(s, open, i - 1);
        assert(depth(s, open, (i - 1) + 1) != 0);
    }
}

/// The shape of a keybinds block: it starts at a brace, and ends at the first brace that closes
/// it. In between the block stays open, and the closing brace is not in a string.
pub proof fn law_a_keybinds_block_is_whole(text: Seq<char>)
    ensures
        keybinds_of(text) matches Some(block) ==> exists|open: int, close: int|
            {
                &&& 0 <= open < close < text.len()
                &&& block == "keybinds "@ + #[trigger] text.subrange(open, close + 1)
                &&& text[open] == '{'
                &&& text[close] == '}'
                &&& !in_string(text, open, close)
                &&& depth(text, open, close + 1) == 0
                &&& forall|i: int| open < i <= close ==> #[trigger] depth(text, open, i) > 0
            },
{
    match keybinds_line(text, 0) {
        Some(at) => {
            lemma_keybinds_line(text, 0);
            lemma_find(text, '{', at);
            let open = find(text, '{', at);
            if open < text.len() {
                lemma_block_end(text, open, open);
                match block_end(text, open, open) {
                    Some(close) => {
                        assert(depth(text, open, open + 1) == 1) by {
                            reveal_with_fuel(depth, 2);
                            reveal_with_fuel(in_string, 1);
                        }
                        assert forall|i: int| open < i <= close implies #[trigger] depth(
                            text,
                            open,
                            i,
                        ) > 0 by {
                            assert forall|j: int| open <= j < i implies #[trigger] depth(
                                text,
                                open,
                                j + 1,
                            ) != 0 by {}
                            lemma_depth_positive(text, open, i);
                        }
                        assert(depth(text, open, close) > 0);
                        assert(keybinds_of(text) == Some(
                            "keybinds "@ + text.subrange(open, close + 1),
                        ));
                    },
                    None => {},
                }
            }
        },
        None => {},
    }
}

/// Whether two texts differ at most inside of strings that are counted from `open`, and have
/// their quotes in the same places.
pub open spec fn same_but_for_strings(s: Seq<char>, t: Seq<char>, open: int) -> bool {
    &&& s.len() == t.len()
    &&& forall|i: int|
        open <= i < s.len() ==> (#[trigger] s[i] == t[i] || (s[i] != '"' && t[i] != '"'
            && in_string(s, open, i)))
}

proof fn lemma_same_depth(s: Seq<char>, t: Seq<char>, open: int, i: int)
    requires
        0 <= open <= i <= s.len(),
        same_but_for_strings(s, t, open),
    ensures
        in_string(s, open, i) == in_string(t, open, i),
        depth(s, open, i) == depth(t, open, i),
    decreases i - open,
{
    if i > open {
        lemma_same_depth(s, t, open, i - 1);
        assert(s[i - 1] == t[i - 1] || (s[i - 1] != '"' && t[i - 1] != '"' && in_string(
            s,
            open,
            i - 1,
        )));
    }
}

proof fn lemma_same_block_end(s: Seq<char>, t: Seq<char>, open: int, i: int)
    requires
        0 <= open <= i <= s.len(),
        same_but_for_strings(s, t, open),
    ensures
        block_end(s, open, i) == block_end(t, open, i),
    decreases s.len() - i,
{
    if i < s.len() {
        lemma_same_depth(s, t, open, i + 1);
        lemma_same_block_end(s, t, open, i + 1);
    }
}

/// What stands in a string cannot derail the matching of braces: a block ends at the same place
/// whatever its strings hold, be it braces, as in `{{wasm}}`, or not.
pub proof fn law_strings_cannot_derail_a_block(s: Seq<char>, t: Seq<char>, open: int)
    requires
        0 <= open <= s.len(),
        same_but_for_strings(s, t, open),
    ensures
        block_end(s, open, open) == block_end(t, open, open),
{
    lemma_same_block_end(s, t, open, open);
}

proof fn lemma_block_end_unique(s: Seq<char>, open: int, i: int, at: int)
    requires
        i <= at < s.len(),
        depth(s, open, at + 1) == 0,
        forall|j: int| i <= j < at ==> #[trigger] depth(s, open, j + 1) != 0,
    ensures
        block_end(s, open, i) == Some(at),
    decreases at - i,
{
    if i < at {
        assert(depth(s, open, i + 1) != 0);
        assert forall|j: int| i + 1 <= j < at implies #[trigger] depth(s, open, j + 1) != 0 by {}
        lemma_block_end_unique(s, open, i + 1, at);
    }
}

/// The depth depends only on what stands between the opening brace and the position.
proof fn lemma_depth_moves(s: Seq<char>, a: int, t: Seq<char>, b: int, n: int)
    requires
        0 <= n,
        forall|j: int| 0 <= j < n ==> #[trigger] s[a + j] == t[b + j],
    ensures
        in_string(s, a, a + n) == in_string(t, b, b + n),
        depth(s, a, a + n) == depth(t, b, b + n),
    decreases n,
{
    if n > 0 {
        lemma_depth_moves(s, a, t, b, n - 1);
        assert(s[a + (n - 1)] == t[b + (n - 1)]);
    }
}

/// A block ends at the same place in two texts that hold it.
proof fn lemma_block_end_moves(s: Seq<char>, a: int, t: Seq<char>, b: int, n: int)
    requires
        0 <= a,
        0 <= b,
        0 <= n,
        a + n < s.len(),
        b + n < t.len(),
        block_end(s, a, a) == Some(a + n),
        forall|j: int| 0 <= j <= n ==> #[trigger] s[a + j] == t[b + j],
    ensures
        block_end(t, b, b) == Some(b + n),
{
    lemma_block_end(s, a, a);
    assert(depth(t, b, b + n + 1) == 0) by {
        lemma_depth_moves(s, a, t, b, n + 1);
        assert(depth(s, a, a + n + 1) == 0);
    }
    assert forall|j: int| b <= j < b + n implies #[trigger] depth(t, b, j + 1) != 0 by {
        lemma_depth_moves(s, a, t, b, j - b + 1);
        assert(depth(s, a, (a + (j - b)) + 1) != 0);
    }
    lemma_block_end_unique(t, b, b, b + n);
}

proof fn lemma_skip_space_same(s: Seq<char>, t: Seq<char>, from: int)
    requires
        0 <= from,
        skip_space(s, from) < s.len(),
        skip_space(s, from) < t.len(),
        forall|j: int| from <= j <= skip_space(s, from) ==> s[j] == t[j],
    ensures
        from <= skip_space(s, from),
        skip_space(t, from) == skip_space(s, from),
        forall|j: int| from <= j < skip_space(s, from) ==> is_space(s[j]),
    decreases s.len() - from,
{
    if from < s.len() && is_space(s[from]) {
        lemma_skip_space_from(s, from + 1);
        lemma_skip_space_same(s, t, from + 1);
        assert(s[from] == t[from]);
    }
}

proof fn lemma_skip_space_from(s: Seq<char>, from: int)
    requires
        from <= s.len(),
    ensures
        from <= skip_space(s, from) <= s.len(),
        forall|j: int| from <= j < skip_space(s, from) ==> is_space(s[j]),
    decreases s.len() - from,
{
    if from < s.len() && is_space(s[from]) {
        lemma_skip_space_from(s, from + 1);
    }
}

proof fn lemma_word_end_from(s: Seq<char>, from: int)
    requires
        from <= s.len(),
    ensures
        from <= word_end(s, from) <= s.len(),
        word_end(s, from) < s.len() ==> is_space(s[word_end(s, from)]),
        forall|j: int| from <= j < word_end(s, from) ==> !is_space(s[j]),
    decreases s.len() - from,
{
    if from < s.len() && !is_space(s[from]) {
        lemma_word_end_from(s, from + 1);
    }
}

proof fn lemma_word_end_same(s: Seq<char>, t: Seq<char>, from: int)
    requires
        0 <= from <= s.len(),
        word_end(s, from) < s.len(),
        word_end(s, from) < t.len(),
        forall|j: int| from <= j <= word_end(s, from) ==> s[j] == t[j],
    ensures
        word_end(t, from) == word_end(s, from),
    decreases s.len() - from,
{
    lemma_word_end_from(s, from);
    if from < s.len() && !is_space(s[from]) {
        lemma_word_end_from(s, from + 1);
        lemma_word_end_same(s, t, from + 1);
        assert(s[from] == t[from]);
    }
}

/// Two texts that are the same up to the end of the first word, and just after it, have the same
/// first word.
proof fn lemma_first_word_same(s: Seq<char>, t: Seq<char>)
    requires
        skip_space(s, 0) < s.len(),
        word_end(s, skip_space(s, 0)) < s.len(),
        word_end(s, skip_space(s, 0)) < t.len(),
        forall|j: int| 0 <= j <= word_end(s, skip_space(s, 0)) ==> s[j] == t[j],
    ensures
        first_word(t) == first_word(s),
{
    let a = skip_space(s, 0);
    lemma_skip_space_from(s, 0);
    lemma_word_end_from(s, a);
    lemma_skip_space_same(s, t, 0);
    lemma_word_end_same(s, t, a);
    assert(t.subrange(a, word_end(s, a)) =~= s.subrange(a, word_end(s, a)));
}

/// A line that opens a keybinds block still does so if something is put behind it.
proof fn lemma_longer_line(line: Seq<char>, longer: Seq<char>, open: int)
    requires
        line.len() <= longer.len(),
        forall|j: int| 0 <= j < line.len() ==> line[j] == longer[j],
        first_word(uncommented_of(line)) == Some("keybinds"@),
        0 <= open < line.len() - 1,
        line[open] == '{',
    ensures
        first_word(uncommented_of(longer)) == Some("keybinds"@),
{
    let n = line.len() as int;
    let c = comment_start(line, 0);
    let d = comment_start(longer, 0);
    lemma_comment_start(line, 0);
    lemma_comment_start(longer, 0);
    assert forall|j: int| 0 <= j < n - 1 implies comment_at(line, j) == comment_at(longer, j) by {
        lemma_in_string_same(line, longer, 0, j);
    }
    if c < n {
        assert(comment_at(line, c));
        assert forall|j: int| 0 <= j < c implies !#[trigger] comment_at(longer, j) by {
            assert(!comment_at(line, j));
        }
        lemma_comment_start_unique(longer, 0, c);
        assert(uncommented_of(longer) =~= uncommented_of(line));
    } else {
        assert(uncommented_of(line) =~= line);
        if d < n - 1 {
            assert(comment_at(longer, d));
            assert(!comment_at(line, d));
        }
        reveal_strlit("keybinds");
        let a = skip_space(line, 0);
        let w = word_end(line, a);
        lemma_skip_space_from(line, 0);
        lemma_word_end_from(line, a);
        assert(line.subrange(a, w) == "keybinds"@);
        lemma_skip_space_same(line, line, 0);
        assert(!is_space('{'));
        assert(open >= a);
        if open < w {
            assert(line.subrange(a, w)[open - a] == '{');
            assert("keybinds"@ =~= seq!['k', 'e', 'y', 'b', 'i', 'n', 'd', 's']);
            assert(forall|k: int| 0 <= k < 8 ==> "keybinds"@[k] != '{');
        }
        assert(w < n - 1);
        lemma_first_word_same(line, uncommented_of(longer));
    }
}

/// The line that opens a keybinds block is found again if something is put behind the text.
proof fn lemma_keybinds_line_longer(text: Seq<char>, more: Seq<char>, from: int, at: int)
    requires
        0 <= from,
        keybinds_line(text, from) == Some(at),
        find(text, '{', at) < text.len() - 1,
    ensures
        keybinds_line(text + more, from) == Some(at),
    decreases text.len() - from,
{
    let t = text + more;
    lemma_keybinds_line(text, from);
    lemma_find(text, '\n', from);
    lemma_find(t, '\n', from);
    lemma_find(text, '{', at);
    let e = find(text, '\n', from);
    let line = text.subrange(from, line_end(text, from));
    if e < text.len() {
        lemma_find_unique(t, '\n', from, e);
        assert(t.subrange(from, line_end(t, from)) =~= line);
        if first_word(uncommented_of(line)) != Some("keybinds"@) {
            lemma_keybinds_line_longer(text, more, line_end(text, from), at);
        }
    } else {
        assert(keybinds_line(text, text.len() as int) is None);
        let longer = t.subrange(from, line_end(t, from));
        if find(t, '\n', from) < text.len() {
            assert(text[find(t, '\n', from)] == '\n');
        }
        lemma_longer_line(line, longer, find(text, '{', at) - at);
    }
}

/// A keybinds block does not change if something is put behind the manifest.
pub proof fn law_text_behind_a_block_does_not_matter(text: Seq<char>, more: Seq<char>)
    requires
        keybinds_of(text) is Some,
    ensures
        keybinds_of(text + more) == keybinds_of(text),
{
    let t = text + more;
    let at = keybinds_line(text, 0)->0;
    lemma_keybinds_line(text, 0);
    lemma_find(text, '{', at);
    let open = find(text, '{', at);
    lemma_block_end(text, open, open);
    let close = block_end(text, open, open)->0;
    assert(depth(text, open, open + 1) == 1) by {
        reveal_with_fuel(depth, 2);
        reveal_with_fuel(in_string, 1);
    }
    assert(close > open);
    lemma_keybinds_line_longer(text, more, 0, at);
    assert forall|j: int| at <= j < open implies t[j] != '{' by {
        assert(t[j] == text[j]);
    }
    lemma_find_unique(t, '{', at, open);
    lemma_block_end_moves(text, open, t, open, close - open);
    assert(t.subrange(open, close + 1) =~= text.subrange(open, close + 1));
}

/// A keybinds block is its own keybinds block.
pub proof fn law_a_block_is_its_own_block(text: Seq<char>)
    requires
        keybinds_of(text) is Some,
    ensures
        keybinds_of(keybinds_of(text)->0) == keybinds_of(text),
{
    let at = keybinds_line(text, 0)->0;
    lemma_keybinds_line(text, 0);
    lemma_find(text, '{', at);
    let open = find(text, '{', at);
    lemma_block_end(text, open, open);
    let close = block_end(text, open, open)->0;
    assert(depth(text, open, open + 1) == 1) by {
        reveal_with_fuel(depth, 2);
        reveal_with_fuel(in_string, 1);
    }
    let block = keybinds_of(text)->0;
    reveal_strlit("keybinds ");
    reveal_strlit("keybinds");
    let word = "keybinds "@;
    assert(word.len() == 9 && word[8] == ' ');
    assert(forall|j: int| 0 <= j < 9 ==> block[j] == word[j]);
    assert(block[9] == '{');
    // Its first line opens the block.
    lemma_find(block, '\n', 0);
    let end = line_end(block, 0);
    assert(end >= 10) by {
        let e = find(block, '\n', 0);
        if e < 10 {
            assert(block[e] == '\n');
        }
    }
    let line = block.subrange(0, end);
    lemma_comment_start(line, 0);
    let code = uncommented_of(line);
    assert(comment_start(line, 0) >= 9) by {
        let c = comment_start(line, 0);
        if c < 9 {
            assert(line[c] == word[c]);
        }
    }
    assert(skip_space(word, 0) == 0);
    assert(word_end(word, 0) == 8) by {
        reveal_with_fuel(word_end, 10);
    }
    assert(word.subrange(0, 8) =~= "keybinds"@);
    lemma_first_word_same(word, code);
    // And the block is all of it.
    lemma_find_unique(block, '{', 0, 9);
    assert forall|j: int| 0 <= j <= close - open implies #[trigger] text[open + j] == block[9
        + j] by {}
    lemma_block_end_moves(text, open, block, 9, close - open);
    assert(word + block.subrange(9, 9 + (close - open) + 1) =~= block);
}

proof fn lemma_line_feed(line: Seq<char>)
    requires
        !line.contains('\n'),
    ensures
        first_word(uncommented_of(line + seq!['\n'])) == first_word(uncommented_of(line)),
{
    let n = line.len() as int;
    let t = line + seq!['\n'];
    let c = comment_start(line, 0);
    lemma_comment_start(line, 0);
    assert forall|j: int| 0 <= j < n implies #[trigger] comment_at(t, j) == comment_at(line, j) by {
        lemma_in_string_same(line, t, 0, j);
    }
    if c < n {
        assert(comment_at(line, c));
        assert(comment_at(t, c));
        lemma_comment_start_unique(t, 0, c);
        assert(uncommented_of(t) =~= uncommented_of(line));
    } else {
        lemma_comment_start_unique(t, 0, n + 1);
        assert(uncommented_of(t) =~= t);
        assert(uncommented_of(line) =~= line);
        let a = skip_space(line, 0);
        lemma_skip_space_from(line, 0);
        assert(is_space(t[n]));
        assert forall|j: int| 0 <= j < a implies is_space(t[j]) by {
            assert(t[j] == line[j]);
        }
        lemma_skip_all(t, 0, a);
        if a < n {
            let w = word_end(line, a);
            lemma_skip_space_same(line, t, 0);
            lemma_word_end_from(line, a);
            assert forall|j: int| a <= j < w implies !is_space(t[j]) by {
                assert(t[j] == line[j]);
            }
            lemma_word_all(t, a, w);
            assert(t.subrange(a, w) =~= line.subrange(a, w));
        } else {
            lemma_skip_all(t, n, n + 1);
        }
    }
}

proof fn lemma_keybinds_line_shift(s: Seq<char>, d: int, at: int)
    requires
        0 <= d <= s.len(),
        0 <= at <= s.len() - d,
    ensures
        keybinds_line(s, d + at) == match keybinds_line(s.skip(d), at) {
            Some(found) => Some(d + found),
            None => None,
        },
    decreases s.len() - d - at,
{
    let t = s.skip(d);
    if at < t.len() {
        lemma_find_shift(s, '\n', d, at);
        lemma_find(t, '\n', at);
        let e = line_end(t, at);
        assert(s.subrange(d + at, d + e) =~= t.subrange(at, e));
        lemma_keybinds_line_shift(s, d, e);
    }
}

proof fn lemma_block_end_shift(s: Seq<char>, d: int, open: int, i: int)
    requires
        0 <= d <= s.len(),
        0 <= open <= i <= s.len() - d,
    ensures
        block_end(s, d + open, d + i) == match block_end(s.skip(d), open, i) {
            Some(close) => Some(d + close),
            None => None,
        },
    decreases s.len() - d - i,
{
    let t = s.skip(d);
    if i < t.len() {
        lemma_depth_moves(s, d + open, t, open, i + 1 - open);
        lemma_block_end_shift(s, d, open, i + 1);
    }
}

/// The keybinds node is looked for line by line: a line whose first word is another one opens no
/// block, so the block is that of what follows the line.
pub proof fn law_other_lines_open_no_block(line: Seq<char>, rest: Seq<char>)
    requires
        !line.contains('\n'),
        first_word(uncommented_of(line)) != Some("keybinds"@),
    ensures
        keybinds_of(Seq::empty()) is None,
        keybinds_of(line) is None,
        keybinds_of(line + seq!['\n'] + rest) == keybinds_of(rest),
{
    let n = line.len() as int;
    lemma_find_unique(line, '\n', 0, n);
    assert(line.subrange(0, n) =~= line);
    assert(keybinds_line(line, n) is None);
    let s = line + seq!['\n'] + rest;
    assert forall|j: int| 0 <= j < n implies s[j] != '\n' by {
        assert(s[j] == line[j]);
    }
    lemma_find_unique(s, '\n', 0, n);
    assert(s.subrange(0, n + 1) =~= line + seq!['\n']);
    lemma_line_feed(line);
    let d = n + 1;
    assert(s.skip(d) =~= rest);
    lemma_keybinds_line_shift(s, d, 0);
    lemma_keybinds_line(rest, 0);
    match keybinds_line(rest, 0) {
        Some(at) => {
            lemma_find_shift(s, '{', d, at);
            lemma_find(rest, '{', at);
            let open = find(rest, '{', at);
            if open < rest.len() {
                lemma_block_end_shift(s, d, open, open);
                lemma_block_end(rest, open, open);
                match block_end(rest, open, open) {
                    Some(close) => {
                        assert(s.subrange(d + open, d + close + 1) =~= rest.subrange(
                            open,
                            close + 1,
                        ));
                    },
                    None => {},
                }
            }
        },
        None => {},
    }
}

/// What is left open after some text, if `n` braces are open before it and it starts inside a
/// string or not: how many braces, and whether a string. `None` if the last brace is closed on the
/// way. Braces in strings do not count.
pub open spec fn left_open(s: Seq<char>, n: int, quoted: bool) -> Option<(int, bool)>
    decreases s.len(),
{
    if s.len() == 0 {
        Some((n, quoted))
    } else if s[0] == '"' {
        left_open(s.skip(1), n, !quoted)
    } else if s[0] == '{' && !quoted {
        left_open(s.skip(1), n + 1, quoted)
    } else if s[0] == '}' && !quoted {
        if n == 1 {
            None
        } else {
            left_open(s.skip(1), n - 1, quoted)
        }
    } else {
        left_open(s.skip(1), n, quoted)
    }
}

proof fn lemma_left_open(s: Seq<char>, open: int, i: int, e: int)
    requires
        0 <= open < i <= e <= s.len(),
        depth(s, open, i) > 0,
        left_open(s.subrange(i, e), depth(s, open, i), in_string(s, open, i)) is Some,
    ensures
        left_open(s.subrange(i, e), depth(s, open, i), in_string(s, open, i)) == Some(
            (depth(s, open, e), in_string(s, open, e)),
        ),
        forall|j: int| i <= j < e ==> #[trigger] depth(s, open, j + 1) > 0,
    decreases e - i,
{
    let t = s.subrange(i, e);
    if i < e {
        assert(t[0] == s[i]);
        assert(t.skip(1) =~= s.subrange(i + 1, e));
        assert(depth(s, open, i + 1) > 0);
        lemma_left_open(s, open, i + 1, e);
        assert forall|j: int| i <= j < e implies #[trigger] depth(s, open, j + 1) > 0 by {}
    }
}

proof fn lemma_first_line_opens(text: Seq<char>, line: Seq<char>, tail: Seq<char>)
    requires
        !line.contains('\n'),
        first_word(uncommented_of(line)) == Some("keybinds"@),
        text == line || text == line + seq!['\n'] + tail,
    ensures
        keybinds_line(text, 0) == Some(0int),
{
    let n = line.len() as int;
    lemma_comment_start(line, 0);
    assert(n > 0);
    assert forall|j: int| 0 <= j < n implies text[j] != '\n' by {
        assert(text[j] == line[j]);
    }
    lemma_find_unique(text, '\n', 0, n);
    lemma_line_feed(line);
    if text == line {
        assert(text.subrange(0, n) =~= line);
    } else {
        assert(text.subrange(0, n + 1) =~= line + seq!['\n']);
    }
}

/// The first line whose first word is `keybinds` opens the block: it goes from the first brace to
/// the brace that closes it, both included, and what stands in strings does not count.
pub proof fn law_a_block_goes_to_its_closing_brace(
    line: Seq<char>,
    tail: Seq<char>,
    text: Seq<char>,
    before: Seq<char>,
    body: Seq<char>,
    rest: Seq<char>,
)
    requires
        !line.contains('\n'),
        first_word(uncommented_of(line)) == Some("keybinds"@),
        text == line || text == line + seq!['\n'] + tail,
        text == before + seq!['{'] + body + seq!['}'] + rest,
        !before.contains('{'),
        left_open(body, 1, false) == Some((1int, false)),
    ensures
        keybinds_of(text) == Some("keybinds "@ + (seq!['{'] + body + seq!['}'])),
{
    let open = before.len() as int;
    let e = open + 1 + body.len();
    lemma_first_line_opens(text, line, tail);
    assert forall|j: int| 0 <= j < open implies text[j] != '{' by {
        assert(text[j] == before[j]);
    }
    lemma_find_unique(text, '{', 0, open);
    assert(text[open] == '{' && text[e] == '}');
    lemma_just_open(text, open);
    assert(text.subrange(open + 1, e) =~= body);
    lemma_left_open(text, open, open + 1, e);
    assert(depth(text, open, e + 1) == 0);
    assert forall|j: int| open <= j < e implies #[trigger] depth(text, open, j + 1) != 0 by {}
    lemma_block_end_unique(text, open, open, e);
    assert(text.subrange(open, e + 1) =~= seq!['{'] + body + seq!['}']);
}

proof fn lemma_just_open(s: Seq<char>, open: int)
    requires
        0 <= open < s.len(),
        s[open] == '{',
    ensures
        depth(s, open, open + 1) == 1,
        !in_string(s, open, open + 1),
{
    reveal_with_fuel(depth, 2);
    reveal_with_fuel(in_string, 2);
}

/// A node that has no brace, or whose brace is never closed, has no block; a later node is not
/// looked for.
pub proof fn law_a_block_that_is_never_closed_is_none(
    line: Seq<char>,
    tail: Seq<char>,
    text: Seq<char>,
    before: Seq<char>,
    body: Seq<char>,
)
    requires
        !line.contains('\n'),
        first_word(uncommented_of(line)) == Some("keybinds"@),
        text == line || text == line + seq!['\n'] + tail,
        !before.contains('{'),
        text == before || text == before + seq!['{'] + body && left_open(body, 1, false) is Some,
    ensures
        keybinds_of(text) is None,
{
    let open = before.len() as int;
    lemma_first_line_opens(text, line, tail);
    assert forall|j: int| 0 <= j < open implies text[j] != '{' by {
        assert(text[j] == before[j]);
    }
    lemma_find_unique(text, '{', 0, open);
    if text != before {
        let e = text.len() as int;
        assert(text[open] == '{');
        lemma_just_open(text, open);
        assert(text.subrange(open + 1, e) =~= body);
        lemma_left_open(text, open, open + 1, e);
        lemma_block_end(text, open, open);
        match block_end(text, open, open) {
            Some(close) => {
                assert(depth(text, open, close + 1) == 0);
                if close > open {
                    assert(depth(text, open, close + 1) > 0);
                }
            },
            None => {},
        }
    }
}

} // verus!
