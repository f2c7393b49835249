//! The two manifests: the user's list of plugins, and the `zpm.kdl` that a plugin ships. Both are
//! read line by line; no general KDL parser is needed.
use vstd::prelude::*;
use vstd::string::*;

use crate::text::{
    chars_of, find, find_from, first_word, lemma_find, lines, lines_of, opt_text, same, texts,
    word,
};

verus! {

// ── strings and comments ────────────────────────────────────────────────────────────────────────

/// Whether position `i` stands inside a string, if the text is outside of one at `from`: an odd
/// number of quotes lies between.
pub open spec fn in_string(s: Seq<char>, from: int, i: int) -> bool
    decreases i - from,
{
    if i <= from {
        false
    } else {
        in_string(s, from, i - 1) != (s[i - 1] == '"')
    }
}

/// The quoted strings of `s` from position `from` on. A quote that is never closed opens none.
pub open spec fn quoted_from(s: Seq<char>, from: int) -> Seq<Seq<char>>
    decreases s.len() - from,
{
    if from >= s.len() {
        Seq::empty()
    } else {
        let a = find(s, '"', from);
        proof {
            lemma_find(s, '"', from);
        }
        if a >= s.len() {
            Seq::empty()
        } else {
            let b = find(s, '"', a + 1);
            proof {
                lemma_find(s, '"', a + 1);
            }
            if b >= s.len() {
                Seq::empty()
            } else {
                seq![s.subrange(a + 1, b)] + quoted_from(s, b + 1)
            }
        }
    }
}

/// The quoted strings of a line.
pub open spec fn quoted_of(s: Seq<char>) -> Seq<Seq<char>> {
    quoted_from(s, 0)
}

/// The quoted strings of one line: `bind "Ctrl h" …` gives `Ctrl h`, …. There are no escapes.
pub fn quoted(line: &str) -> (r: Vec<String>)
    ensures
        texts(r@) == quoted_of(line@),
{
    let cs = chars_of(line);
    let mut out: Vec<String> = Vec::new();
    let mut from: usize = 0;
    assert(texts(out@) + quoted_from(line@, 0) =~= quoted_from(line@, 0));
    while from < cs.len()
        invariant
            cs@ == line@,
            from <= cs@.len(),
            texts(out@) + quoted_from(line@, from as int) == quoted_of(line@),
        decreases cs@.len() - from,
    {
        let ghost before = texts(out@);
        let a: usize = find_from(&cs, '"', from);
        if a >= cs.len() {
            assert(texts(out@) =~= before + quoted_from(line@, from as int));
            return out;
        }
        let b: usize = find_from(&cs, '"', a + 1);
        if b >= cs.len() {
            assert(texts(out@) =~= before + quoted_from(line@, from as int));
            return out;
        }
        out.push(line.substring_char(a + 1, b).to_owned());
        assert(texts(out@) =~= before.push(line@.subrange(a + 1, b as int)));
        assert(texts(out@) + quoted_from(line@, b + 1) =~= before + quoted_from(
            line@,
            from as int,
        ));
        from = b + 1;
    }
    assert(texts(out@) + quoted_from(line@, from as int) =~= texts(out@));
    out
}

/// Whether a comment starts at position `i`: two slashes outside of a string.
pub open spec fn comment_at(s: Seq<char>, i: int) -> bool {
    &&& 0 <= i
    &&& i + 1 < s.len()
    &&& s[i] == '/'
    &&& s[i + 1] == '/'
    &&& !in_string(s, 0, i)
}

/// Where the first comment at or after `from` starts, or the length of the line.
pub open spec fn comment_start(s: Seq<char>, from: int) -> int
    decreases s.len() - from,
{
    if from >= s.len() {
        s.len() as int
    } else if comment_at(s, from) {
        from
    } else {
        comment_start(s, from + 1)
    }
}

/// A line without its comment.
pub open spec fn uncommented_of(s: Seq<char>) -> Seq<char> {
    s.take(comment_start(s, 0))
}

/// A line stripped of its `//` comment; a `//` inside a string stays.
pub fn uncommented<'a>(line: &'a str) -> (r: &'a str)
    ensures
        r@ == uncommented_of(line@),
{
    let cs = chars_of(line);
    let mut in_str = false;
    let mut i: usize = 0;
    while i < cs.len()
        invariant
            cs@ == line@,
            i <= cs@.len(),
            in_str == in_string(line@, 0, i as int),
            comment_start(line@, 0) == comment_start(line@, i as int),
        decreases cs@.len() - i,
    {
        if cs[i] == '"' {
            in_str = !in_str;
        } else if cs[i] == '/' && !in_str && i + 1 < cs.len() && cs[i + 1] == '/' {
            assert(line@.subrange(0, i as int) =~= line@.take(i as int));
            return line.substring_char(0, i);
        }
        i = i + 1;
    }
    assert(line@.subrange(0, i as int) =~= line@.take(i as int));
    line.substring_char(0, i)
}

// ── the user's manifest ─────────────────────────────────────────────────────────────────────────

/// The texts of `qs` that are not empty, in order.
pub open spec fn nonempty(qs: Seq<Seq<char>>) -> Seq<Seq<char>>
    decreases qs.len(),
{
    if qs.len() == 0 {
        Seq::empty()
    } else if qs.last().len() == 0 {
        nonempty(qs.drop_last())
    } else {
        nonempty(qs.drop_last()).push(qs.last())
    }
}

/// The plugin entries that one line names.
pub open spec fn line_entries(line: Seq<char>) -> Seq<Seq<char>> {
    nonempty(quoted_of(uncommented_of(line)))
}

/// The plugin entries that the lines name, in order.
pub open spec fn entries_of(lines: Seq<Seq<char>>) -> Seq<Seq<char>>
    decreases lines.len(),
{
    if lines.len() == 0 {
        Seq::empty()
    } else {
        entries_of(lines.drop_last()) + line_entries(lines.last())
    }
}

/// The user manifest's plugin entries: every quoted string, unless it is empty or in a comment.
pub fn parse_user_manifest(text: &str) -> (r: Vec<String>)
    ensures
        texts(r@) == entries_of(lines_of(text@)),
{
    let ls = lines(text);
    let ghost all = texts(ls@);
    let mut entries: Vec<String> = Vec::new();
    let mut i: usize = 0;
    assert(texts(entries@) =~= Seq::empty());
    while i < ls.len()
        invariant
            all == texts(ls@),
            i <= ls@.len(),
            texts(entries@) == entries_of(all.take(i as int)),
        decreases ls@.len() - i,
    {
        let qs = quoted(uncommented(ls[i].as_str()));
        let ghost found = texts(qs@);
        let ghost before = texts(entries@);
        let mut k: usize = 0;
        assert(texts(entries@) =~= before + nonempty(found.take(0)));
        while k < qs.len()
            invariant
                found == texts(qs@),
                k <= qs@.len(),
                texts(entries@) == before + nonempty(found.take(k as int)),
            decreases qs@.len() - k,
        {
            assert(found.take(k + 1).drop_last() =~= found.take(k as int));
            assert(found.take(k + 1).last() == qs@[k as int]@);
            let ghost so_far = texts(entries@);
            if !qs[k].as_str().is_empty() {
                entries.push(qs[k].clone());
                assert(texts(entries@) =~= so_far.push(qs@[k as int]@));
            }
            assert(texts(entries@) =~= before + nonempty(found.take(k + 1)));
            k = k + 1;
        }
        assert(found.take(k as int) =~= found);
        assert(all.take(i + 1).drop_last() =~= all.take(i as int));
        assert(all.take(i + 1).last() == ls@[i as int]@);
        i = i + 1;
    }
    assert(all.take(i as int) =~= all);
    entries
}

// ── the keybinds block of a plugin's manifest ───────────────────────────────────────────────────

/// Where the line that starts at `at` ends, its line feed included.
pub open spec fn line_end(s: Seq<char>, at: int) -> int {
    let e = find(s, '\n', at);
    if e < s.len() {
        e + 1
    } else {
        s.len() as int
    }
}

/// The start of the first line, among those from `at` on, whose first word is `keybinds`.
pub open spec fn keybinds_line(s: Seq<char>, at: int) -> Option<int>
    decreases s.len() - at,
{
    if at >= s.len() {
        None
    } else {
        proof {
            lemma_find(s, '\n', at);
        }
        if first_word(uncommented_of(s.subrange(at, line_end(s, at)))) == Some("keybinds"@) {
            Some(at)
        } else {
            keybinds_line(s, line_end(s, at))
        }
    }
}

/// How many braces are open just before position `i`, counted from `open` and outside of strings.
pub open spec fn depth(s: Seq<char>, open: int, i: int) -> int
    decreases i - open,
{
    if i <= open {
        0
    } else {
        depth(s, open, i - 1) + if in_string(s, open, i - 1) {
            0int
        } else if s[i - 1] == '{' {
            1int
        } else if s[i - 1] == '}' {
            -1int
        } else {
            0int
        }
    }
}

/// The first position at or after `i` that closes the brace at `open`.
pub open spec fn block_end(s: Seq<char>, open: int, i: int) -> Option<int>
    decreases s.len() - i,
{
    if i >= s.len() {
        None
    } else if depth(s, open, i + 1) == 0 {
        Some(i)
    } else {
        block_end(s, open, i + 1)
    }
}

/// The `keybinds` node of a plugin's manifest: the word and its block, braces included.
pub open spec fn keybinds_of(s: Seq<char>) -> Option<Seq<char>> {
    match keybinds_line(s, 0) {
        Some(at) => {
            let open = find(s, '{', at);
            if open >= s.len() {
                None
            } else {
                match block_end(s, open, open) {
                    Some(close) => Some("keybinds "@ + s.subrange(open, close + 1)),
                    None => None,
                }
            }
        },
        None => None,
    }
}

fn keybinds_start(text: &str, cs: &Vec<char>) -> (r: Option<usize>)
    requires
        cs@ == text@,
    ensures
        match r {
            Some(at) => keybinds_line(text@, 0) == Some(at as int) && at < cs@.len(),
            None => keybinds_line(text@, 0) is None,
        },
{
    let mut at: usize = 0;
    while at < cs.len()
        invariant
            cs@ == text@,
            at <= cs@.len(),
            keybinds_line(text@, 0) == keybinds_line(text@, at as int),
        decreases cs@.len() - at,
    {
        let mut end: usize = find_from(cs, '\n', at);
        if end < cs.len() {
            end = end + 1;
        }
        if let Some(w) = word(uncommented(text.substring_char(at, end))) {
            if same(w, "keybinds") {
                return Some(at);
            }
        }
        at = end;
    }
    None
}

/// The `keybinds { … }` block of a plugin manifest, braces included: the node, found as the first
/// line whose first word is `keybinds` (a plain text search would land on the word in a comment),
/// then taken by brace matching that skips strings, so a `{{wasm}}` in one cannot derail it.
pub fn keybinds_block(text: &str) -> (r: Option<String>)
    ensures
        opt_text(r) == keybinds_of(text@),
{
    let cs = chars_of(text);
    let at: usize = match keybinds_start(text, &cs) {
        Some(at) => at,
        None => {
            return None;
        },
    };
    let open: usize = find_from(&cs, '{', at);
    if open >= cs.len() {
        return None;
    }
    let mut braces: usize = 0;
    let mut in_str = false;
    let mut i: usize = open;
    while i < cs.len()
        invariant
            cs@ == text@,
            open <= i <= cs@.len(),
            open < cs@.len(),
            cs@[open as int] == '{',
            keybinds_line(text@, 0) is Some,
            open == find(text@, '{', keybinds_line(text@, 0)->0),
            in_str == in_string(text@, open as int, i as int),
            braces == depth(text@, open as int, i as int),
            braces <= i,
            i > open ==> braces > 0,
            block_end(text@, open as int, open as int) == block_end(
                text@,
                open as int,
                i as int,
            ),
        decreases cs@.len() - i,
    {
        if cs[i] == '"' {
            in_str = !in_str;
        } else if cs[i] == '{' && !in_str {
            braces = braces + 1;
        } else if cs[i] == '}' && !in_str {
            braces = braces - 1;
            if braces == 0 {
                let mut out = "keybinds ".to_owned();
                out.append(text.substring_char(open, i + 1));
                return Some(out);
            }
        }
        i = i + 1;
    }
    None
}

} // verus!
