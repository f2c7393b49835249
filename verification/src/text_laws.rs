//! What holds of the operations on texts: splitting and joining undo each other, replacing leaves
//! nothing of what it replaces, and numbers can be told apart.
use vstd::prelude::*;
use vstd::string::*;

use crate::text::{
    after_last, chomp, contains, decimal, digit, find, find_text, first_word, is_space, joined,
    last_piece, lemma_find, lemma_find_text, lemma_find_text_unique, lemma_find_unique, lines_from,
    lines_of, occurs_at, replaced, skip_space, split_at_text, split_from, split_pair, trim_end_at,
    trimmed, without_prefix, word_end,
};

verus! {

// ── joining ─────────────────────────────────────────────────────────────────────────────────────

/// Joining from the front.
pub proof fn lemma_joined_front(parts: Seq<Seq<char>>, sep: Seq<char>)
    requires
        parts.len() > 1,
    ensures
        joined(parts, sep) == parts[0] + sep + joined(parts.drop_first(), sep),
    decreases parts.len(),
{
    let rest = parts.drop_first();
    if parts.len() == 2 {
        assert(joined(parts.drop_last(), sep) == parts[0]);
        assert(joined(rest, sep) == parts[1]);
    } else {
        lemma_joined_front(parts.drop_last(), sep);
        assert(parts.drop_last().drop_first() =~= rest.drop_last());
        assert(joined(parts, sep) =~= parts[0] + sep + joined(rest, sep));
    }
}

// ── splitting ───────────────────────────────────────────────────────────────────────────────────

proof fn lemma_occurs_shift(s: Seq<char>, p: Seq<char>, d: int, i: int)
    requires
        0 <= d <= s.len(),
        0 <= i,
    ensures
        occurs_at(s, p, d + i) == occurs_at(s.skip(d), p, i),
{
    if d + i + p.len() <= s.len() {
        assert(s.subrange(d + i, d + i + p.len()) =~= s.skip(d).subrange(i, i + p.len()));
    }
}

proof fn lemma_find_text_shift(s: Seq<char>, p: Seq<char>, d: int, from: int)
    requires
        0 <= d <= s.len(),
        0 <= from,
    ensures
        find_text(s, p, d + from) == match find_text(s.skip(d), p, from) {
            Some(m) => Some(d + m),
            None => None,
        },
    decreases s.len() - d - from + 1,
{
    lemma_occurs_shift(s, p, d, from);
    if d + from + p.len() <= s.len() && !occurs_at(s, p, d + from) {
        lemma_find_text_shift(s, p, d, from + 1);
    }
}

proof fn lemma_split_shift(s: Seq<char>, p: Seq<char>, d: int, from: int)
    requires
        0 <= d <= s.len(),
        0 <= from <= s.len() - d,
    ensures
        split_from(s, p, d + from) == split_from(s.skip(d), p, from),
    decreases s.len() - d - from,
{
    let t = s.skip(d);
    lemma_find_text_shift(s, p, d, from);
    lemma_find_text(t, p, from);
    assert(s.skip(d + from) =~= t.skip(from));
    match find_text(t, p, from) {
        Some(m) => {
            if p.len() > 0 {
                lemma_split_shift(s, p, d, m + p.len());
                assert(s.subrange(d + from, d + m) =~= t.subrange(from, m));
            }
        },
        None => {},
    }
}

/// No proper beginning of `p` is also an end of it, so two occurrences of `p` never overlap.
pub open spec fn unbordered(p: Seq<char>) -> bool {
    forall|k: int| 0 < k < p.len() ==> #[trigger] p.skip(k) != p.take(p.len() - k)
}

/// In a text that starts with a piece without `p` and goes on with `p`, the first `p` is the one
/// after the piece.
pub proof fn lemma_first_separator(piece: Seq<char>, p: Seq<char>, rest: Seq<char>)
    requires
        p.len() > 0,
        unbordered(p),
        !contains(piece, p),
    ensures
        find_text(piece + p + rest, p, 0) == Some(piece.len() as int),
{
    let s = piece + p + rest;
    let a = piece.len() as int;
    assert(s.subrange(a, a + p.len()) =~= p);
    assert(occurs_at(s, p, a));
    assert forall|j: int| 0 <= j < a implies !#[trigger] occurs_at(s, p, j) by {
        if occurs_at(s, p, j) {
            assert(s.subrange(j, j + p.len()) == p);
            if j + p.len() <= a {
                assert(piece.subrange(j, j + p.len()) =~= s.subrange(j, j + p.len()));
                assert(occurs_at(piece, p, j));
            } else {
                let k = a - j;
                assert forall|t: int| 0 <= t < p.len() - k implies p.skip(k)[t] == p.take(
                    p.len() - k,
                )[t] by {
                    assert(s[a + t] == p[t]);
                    assert(s.subrange(j, j + p.len())[k + t] == s[a + t]);
                }
                assert(p.skip(k) =~= p.take(p.len() - k));
            }
        }
    }
    lemma_find_text_unique(s, p, 0, a);
}

/// Splitting undoes joining: pieces that do not hold the separator come back as they were.
pub proof fn law_splitting_undoes_joining(pieces: Seq<Seq<char>>, p: Seq<char>)
    requires
        p.len() > 0,
        unbordered(p),
        pieces.len() > 0,
        forall|i: int| 0 <= i < pieces.len() ==> !contains(#[trigger] pieces[i], p),
    ensures
        split_at_text(joined(pieces, p), p) == pieces,
    decreases pieces.len(),
{
    let s = joined(pieces, p);
    if pieces.len() == 1 {
        lemma_find_text(s, p, 0);
        match find_text(s, p, 0) {
            Some(m) => {
                assert(occurs_at(pieces[0], p, m));
            },
            None => {},
        }
        assert(s.skip(0) =~= s);
        assert(split_at_text(s, p) =~= pieces);
    } else {
        let rest = pieces.drop_first();
        let tail = joined(rest, p);
        let a = pieces[0].len() as int;
        lemma_joined_front(pieces, p);
        lemma_first_separator(pieces[0], p, tail);
        assert forall|i: int| 0 <= i < rest.len() implies !contains(#[trigger] rest[i], p) by {
            assert(rest[i] == pieces[i + 1]);
        }
        law_splitting_undoes_joining(rest, p);
        lemma_split_shift(s, p, a + p.len(), 0);
        assert(s.skip(a + p.len()) =~= tail);
        assert(s.subrange(0, a) =~= pieces[0]);
        assert(split_at_text(s, p) =~= seq![pieces[0]] + rest);
        assert(seq![pieces[0]] + rest =~= pieces);
    }
}

proof fn lemma_split_nonempty(s: Seq<char>, p: Seq<char>, from: int)
    ensures
        split_from(s, p, from).len() > 0,
{
}

proof fn lemma_join_split_from(s: Seq<char>, p: Seq<char>, from: int)
    requires
        p.len() > 0,
        0 <= from <= s.len(),
    ensures
        joined(split_from(s, p, from), p) == s.skip(from),
    decreases s.len() - from,
{
    lemma_find_text(s, p, from);
    match find_text(s, p, from) {
        Some(m) => {
            let rest = split_from(s, p, m + p.len());
            let parts = split_from(s, p, from);
            lemma_split_nonempty(s, p, m + p.len());
            lemma_join_split_from(s, p, m + p.len());
            lemma_joined_front(parts, p);
            assert(parts.drop_first() =~= rest);
            assert(s.skip(from) =~= s.subrange(from, m) + s.subrange(m, m + p.len()) + s.skip(
                m + p.len(),
            ));
        },
        None => {},
    }
}

/// Joining undoes splitting: the pieces of a text, joined by what parted them, are the text.
pub proof fn law_joining_undoes_splitting(s: Seq<char>, p: Seq<char>)
    requires
        p.len() > 0,
    ensures
        joined(split_at_text(s, p), p) == s,
{
    lemma_join_split_from(s, p, 0);
    assert(s.skip(0) =~= s);
}

proof fn lemma_pieces_from(s: Seq<char>, p: Seq<char>, from: int, i: int)
    requires
        p.len() > 0,
        0 <= from <= s.len(),
        0 <= i < split_from(s, p, from).len(),
    ensures
        !contains(split_from(s, p, from)[i], p),
    decreases s.len() - from,
{
    lemma_find_text(s, p, from);
    let piece = split_from(s, p, from)[i];
    match find_text(s, p, from) {
        Some(m) => {
            if i > 0 {
                lemma_pieces_from(s, p, m + p.len(), i - 1);
                assert(piece == split_from(s, p, m + p.len())[i - 1]);
            } else if contains(piece, p) {
                let j = choose|j: int| occurs_at(piece, p, j);
                assert(s.subrange(from + j, from + j + p.len()) =~= piece.subrange(
                    j,
                    j + p.len(),
                ));
                assert(occurs_at(s, p, from + j));
            }
        },
        None => {
            if contains(piece, p) {
                let j = choose|j: int| occurs_at(piece, p, j);
                lemma_occurs_shift(s, p, from, j);
                assert(occurs_at(s, p, from + j));
            }
        },
    }
}

/// No piece holds what parted the pieces.
pub proof fn law_pieces_hold_no_separator(s: Seq<char>, p: Seq<char>, i: int)
    requires
        p.len() > 0,
        0 <= i < split_at_text(s, p).len(),
    ensures
        !contains(split_at_text(s, p)[i], p),
{
    lemma_pieces_from(s, p, 0, i);
}

// ── replacing ───────────────────────────────────────────────────────────────────────────────────

proof fn lemma_joined_holds_none(pieces: Seq<Seq<char>>, p: Seq<char>, r: Seq<char>, i: int)
    requires
        p.len() > 0,
        r.len() > 0,
        !r.contains(p[0]),
        !p.contains(r[0]),
        forall|k: int| 0 <= k < pieces.len() ==> !contains(#[trigger] pieces[k], p),
    ensures
        !occurs_at(joined(pieces, r), p, i),
    decreases pieces.len(),
{
    let s = joined(pieces, r);
    if occurs_at(s, p, i) {
        assert(s.subrange(i, i + p.len()) == p);
        if pieces.len() == 1 {
            assert(occurs_at(pieces[0], p, i));
        } else if pieces.len() > 1 {
            let rest = pieces.drop_first();
            let tail = joined(rest, r);
            let a = pieces[0].len() as int;
            lemma_joined_front(pieces, r);
            if i + p.len() <= a {
                assert(pieces[0].subrange(i, i + p.len()) =~= s.subrange(i, i + p.len()));
                assert(occurs_at(pieces[0], p, i));
            } else if i < a {
                assert(s[a] == r[0]);
                assert(s.subrange(i, i + p.len())[a - i] == r[0]);
                assert(p[a - i] == r[0]);
            } else if i < a + r.len() {
                assert(s.subrange(i, i + p.len())[0] == s[i]);
                assert(s[i] == r[i - a]);
                assert(r[i - a] == p[0]);
            } else {
                assert forall|k: int| 0 <= k < rest.len() implies !contains(
                    #[trigger] rest[k],
                    p,
                ) by {
                    assert(rest[k] == pieces[k + 1]);
                }
                lemma_joined_holds_none(rest, p, r, i - a - r.len());
                lemma_occurs_shift(s, p, a + r.len(), i - a - r.len());
                assert(s.skip(a + r.len()) =~= tail);
            }
        }
    }
}

/// Replacing leaves nothing of what it replaces, unless the replacement brings some of it in.
pub proof fn law_replacing_leaves_none(s: Seq<char>, p: Seq<char>, r: Seq<char>)
    requires
        p.len() > 0,
        r.len() > 0,
        !r.contains(p[0]),
        !p.contains(r[0]),
    ensures
        !contains(replaced(s, p, r), p),
{
    let pieces = split_at_text(s, p);
    assert forall|k: int| 0 <= k < pieces.len() implies !contains(#[trigger] pieces[k], p) by {
        law_pieces_hold_no_separator(s, p, k);
    }
    assert forall|i: int| !occurs_at(replaced(s, p, r), p, i) by {
        lemma_joined_holds_none(pieces, p, r, i);
    }
}

// ── lines ───────────────────────────────────────────────────────────────────────────────────────

/// Where a character is found in the rest of a text.
pub proof fn lemma_find_shift(s: Seq<char>, c: char, d: int, from: int)
    requires
        0 <= d <= s.len(),
        0 <= from <= s.len() - d,
    ensures
        find(s, c, d + from) == d + find(s.skip(d), c, from),
{
    lemma_find(s.skip(d), c, from);
    let at = find(s.skip(d), c, from);
    assert forall|j: int| d + from <= j < d + at implies s[j] != c by {
        assert(s.skip(d)[j - d] == s[j]);
    }
    lemma_find_unique(s, c, d + from, d + at);
}

proof fn lemma_lines_shift(s: Seq<char>, d: int, from: int)
    requires
        0 <= d <= s.len(),
        0 <= from <= s.len() - d,
    ensures
        lines_from(s, d + from) == lines_from(s.skip(d), from),
    decreases s.len() - d - from,
{
    let t = s.skip(d);
    if from < t.len() {
        lemma_find_shift(s, '\n', d, from);
        lemma_find(t, '\n', from);
        let e = find(t, '\n', from);
        assert(s.skip(d + from) =~= t.skip(from));
        if e < t.len() {
            lemma_lines_shift(s, d, e + 1);
            assert(s.subrange(d + from, d + e) =~= t.subrange(from, e));
        }
    }
}

/// The lines of a text that starts with a line.
pub proof fn lemma_first_line(line: Seq<char>, rest: Seq<char>)
    requires
        !line.contains('\n'),
    ensures
        lines_of(line + seq!['\n'] + rest) == seq![chomp(line)] + lines_of(rest),
{
    let s = line + seq!['\n'] + rest;
    let e = line.len() as int;
    assert forall|j: int| 0 <= j < e implies s[j] != '\n' by {
        assert(s[j] == line[j]);
    }
    lemma_find_unique(s, '\n', 0, e);
    assert(s.subrange(0, e) =~= line);
    lemma_lines_shift(s, e + 1, 0);
    assert(s.skip(e + 1) =~= rest);
}

/// A text of a part without `c`, a `c`, and another part is split into the two.
pub proof fn lemma_split_pair(a: Seq<char>, c: char, b: Seq<char>)
    requires
        !a.contains(c),
    ensures
        split_pair(a + seq![c] + b, c) == Some((a, b)),
{
    let s = a + seq![c] + b;
    let i = a.len() as int;
    assert forall|j: int| 0 <= j < i implies s[j] != c by {
        assert(s[j] == a[j]);
    }
    lemma_find_unique(s, c, 0, i);
    assert(s.take(i) =~= a);
    assert(s.skip(i + 1) =~= b);
}

// ── numbers ─────────────────────────────────────────────────────────────────────────────────────

proof fn lemma_digits(a: nat, b: nat)
    requires
        a < 10,
        b < 10,
    ensures
        digit(a).len() == 1,
        digit(a) == digit(b) ==> a == b,
{
    reveal_strlit("0");
    reveal_strlit("1");
    reveal_strlit("2");
    reveal_strlit("3");
    reveal_strlit("4");
    reveal_strlit("5");
    reveal_strlit("6");
    reveal_strlit("7");
    reveal_strlit("8");
    reveal_strlit("9");
    assert("0"@[0] == '0' && "1"@[0] == '1' && "2"@[0] == '2' && "3"@[0] == '3');
    assert("4"@[0] == '4' && "5"@[0] == '5' && "6"@[0] == '6' && "7"@[0] == '7');
    assert("8"@[0] == '8' && "9"@[0] == '9');
}

proof fn lemma_decimal_len(n: nat)
    ensures
        decimal(n).len() >= 1,
        n >= 10 ==> decimal(n).len() >= 2,
    decreases n,
{
    lemma_digits(n % 10, 0);
    if n >= 10 {
        lemma_decimal_len(n / 10);
    }
}

/// Two numbers that are written alike are the same number.
pub proof fn law_numbers_can_be_told_apart(a: nat, b: nat)
    ensures
        decimal(a) == decimal(b) ==> a == b,
    decreases a,
{
    lemma_digits(a % 10, b % 10);
    lemma_digits(b % 10, a % 10);
    lemma_decimal_len(a);
    lemma_decimal_len(b);
    if decimal(a) == decimal(b) && a >= 10 && b >= 10 {
        let x = decimal(a / 10);
        let y = decimal(b / 10);
        assert(decimal(a).drop_last() =~= x);
        assert(decimal(b).drop_last() =~= y);
        assert(digit(a % 10) =~= seq![decimal(a).last()]);
        assert(digit(b % 10) =~= seq![decimal(b).last()]);
        law_numbers_can_be_told_apart(a / 10, b / 10);
    }
}

/// A number can be read back from its digits: it is written in decimal, with the digits `0` to `9`
/// only, and without leading zeros.
pub proof fn law_numbers_are_decimal(n: nat)
    ensures
        number_in(decimal(n)) == n,
        decimal(n).len() > 0,
        forall|i: int| 0 <= i < decimal(n).len() ==> '0' <= #[trigger] decimal(n)[i] <= '9',
        n > 0 ==> decimal(n)[0] != '0',
    decreases n,
{
    lemma_digit_value(n % 10);
    let s = decimal(n);
    if n >= 10 {
        law_numbers_are_decimal(n / 10);
        assert(s.drop_last() =~= decimal(n / 10));
        assert(s.last() == digit(n % 10)[0]);
        assert forall|i: int| 0 <= i < s.len() implies '0' <= #[trigger] s[i] <= '9' by {
            if i < s.len() - 1 {
                assert(s[i] == decimal(n / 10)[i]);
            }
        }
        assert(s[0] == decimal(n / 10)[0]);
    } else {
        assert(s.drop_last() =~= Seq::empty());
        assert(number_in(Seq::<char>::empty()) == 0);
    }
}

/// The number that a text of decimal digits stands for.
pub open spec fn number_in(s: Seq<char>) -> int
    decreases s.len(),
{
    if s.len() == 0 {
        0
    } else {
        number_in(s.drop_last()) * 10 + (s.last() as int - '0' as int)
    }
}

proof fn lemma_digit_value(d: nat)
    requires
        d < 10,
    ensures
        digit(d).len() == 1,
        digit(d)[0] as int == '0' as int + d,
{
    reveal_strlit("0");
    reveal_strlit("1");
    reveal_strlit("2");
    reveal_strlit("3");
    reveal_strlit("4");
    reveal_strlit("5");
    reveal_strlit("6");
    reveal_strlit("7");
    reveal_strlit("8");
    reveal_strlit("9");
}

// ── what the operations give ────────────────────────────────────────────────────────────────────

/// White space is the tabs, line ends and blanks that Unicode counts as such, and nothing else.
pub proof fn law_white_space(c: char)
    ensures
        is_space(c) <==> {
            ||| c == '\t' || c == '\n' || c == '\u{b}' || c == '\u{c}' || c == '\r' || c == ' '
            ||| c == '\u{85}' || c == '\u{a0}' || c == '\u{1680}'
            ||| '\u{2000}' <= c <= '\u{200a}'
            ||| c == '\u{2028}' || c == '\u{2029}' || c == '\u{202f}' || c == '\u{205f}'
            ||| c == '\u{3000}'
        },
{
}

/// The last piece of a text is what stands behind the last separator, and all of it if there is
/// none.
pub proof fn law_the_last_piece(front: Seq<char>, c: char, piece: Seq<char>)
    requires
        !piece.contains(c),
    ensures
        last_piece(piece, c) == piece,
        last_piece(front + seq![c] + piece, c) == piece,
{
    let s = front + seq![c] + piece;
    let n = front.len() + 1;
    assert forall|j: int| n <= j < s.len() implies s[j] != c by {
        assert(s[j] == piece[j - n]);
    }
    lemma_after_last_none(s, c, n as int, s.len() as int);
    assert(s[n - 1] == c);
    assert(after_last(s, c, n as int) == n);
    assert(s.skip(n as int) =~= piece);
    assert forall|j: int| 0 <= j < piece.len() implies piece[j] != c by {}
    lemma_after_last_none(piece, c, 0, piece.len() as int);
    assert(piece.skip(0) =~= piece);
}

proof fn lemma_after_last_none(s: Seq<char>, c: char, from: int, to: int)
    requires
        0 <= from <= to <= s.len(),
        forall|j: int| from <= j < to ==> s[j] != c,
    ensures
        after_last(s, c, to) == after_last(s, c, from),
    decreases to - from,
{
    if from < to {
        lemma_after_last_none(s, c, from, to - 1);
    }
}

/// A text is split at the first separator; without one it is not split.
pub proof fn law_a_text_is_split_at_the_first_separator(a: Seq<char>, c: char, b: Seq<char>)
    requires
        !a.contains(c),
    ensures
        split_pair(a + seq![c] + b, c) == Some((a, b)),
        split_pair(a, c) is None,
{
    lemma_split_pair(a, c, b);
    lemma_find_unique(a, c, 0, a.len() as int);
}

/// Whether a text is white space only.
pub open spec fn all_space(s: Seq<char>) -> bool {
    forall|i: int| 0 <= i < s.len() ==> is_space(#[trigger] s[i])
}

/// Trimming takes off the white space at both ends, and nothing else.
pub proof fn law_trimming(before: Seq<char>, s: Seq<char>, after: Seq<char>)
    requires
        all_space(before),
        all_space(after),
        s.len() > 0 ==> !is_space(s[0]) && !is_space(s.last()),
    ensures
        trimmed(before + s + after) == s,
{
    let t = before + s + after;
    let a = before.len() as int;
    let b = a + s.len();
    assert forall|j: int| 0 <= j < a implies is_space(t[j]) by {
        assert(t[j] == before[j]);
    }
    assert forall|j: int| b <= j < t.len() implies is_space(t[j]) by {
        assert(t[j] == after[j - b]);
    }
    lemma_skip_all(t, 0, a);
    lemma_trim_all(t, b, t.len() as int);
    if s.len() > 0 {
        assert(t[a] == s[0]);
        assert(t[b - 1] == s.last());
        assert(t.subrange(a, b) =~= s);
    } else {
        lemma_skip_all(t, a, t.len() as int);
        assert(s =~= Seq::empty());
        lemma_trim_at_most(t, t.len() as int);
    }
}

/// White space is skipped all at once.
pub proof fn lemma_skip_all(s: Seq<char>, from: int, to: int)
    requires
        0 <= from <= to <= s.len(),
        forall|j: int| from <= j < to ==> is_space(s[j]),
    ensures
        skip_space(s, from) == skip_space(s, to),
    decreases to - from,
{
    if from < to {
        lemma_skip_all(s, from + 1, to);
    }
}

proof fn lemma_trim_all(s: Seq<char>, from: int, to: int)
    requires
        0 <= from <= to <= s.len(),
        forall|j: int| from <= j < to ==> is_space(s[j]),
    ensures
        trim_end_at(s, to) == trim_end_at(s, from),
    decreases to - from,
{
    if from < to {
        lemma_trim_all(s, from, to - 1);
    }
}

proof fn lemma_trim_at_most(s: Seq<char>, to: int)
    requires
        0 <= to <= s.len(),
    ensures
        trim_end_at(s, to) <= to,
    decreases to,
{
    if to > 0 && is_space(s[to - 1]) {
        lemma_trim_at_most(s, to - 1);
    }
}

/// The first word is the first run of characters that are not white space. White space alone has
/// no word.
pub proof fn law_the_first_word(blanks: Seq<char>, w: Seq<char>, rest: Seq<char>)
    requires
        all_space(blanks),
        w.len() > 0,
        forall|i: int| 0 <= i < w.len() ==> !is_space(#[trigger] w[i]),
        rest.len() > 0 ==> is_space(rest[0]),
    ensures
        first_word(blanks + w + rest) == Some(w),
        first_word(blanks) is None,
{
    let s = blanks + w + rest;
    let a = blanks.len() as int;
    let b = a + w.len();
    assert forall|j: int| 0 <= j < a implies is_space(s[j]) by {
        assert(s[j] == blanks[j]);
    }
    lemma_skip_all(s, 0, a);
    assert(s[a] == w[0]);
    assert forall|j: int| a <= j < b implies !is_space(s[j]) by {
        assert(s[j] == w[j - a]);
    }
    lemma_word_all(s, a, b);
    if rest.len() > 0 {
        assert(s[b] == rest[0]);
    }
    assert(s.subrange(a, b) =~= w);
    lemma_skip_all(blanks, 0, a);
}

/// A word goes on over characters that are not white space.
pub proof fn lemma_word_all(s: Seq<char>, from: int, to: int)
    requires
        0 <= from <= to <= s.len(),
        forall|j: int| from <= j < to ==> !is_space(s[j]),
    ensures
        word_end(s, from) == word_end(s, to),
    decreases to - from,
{
    if from < to {
        lemma_word_all(s, from + 1, to);
    }
}

/// The lines of a text are what stands before, between and behind its line feeds. A carriage
/// return just before a line feed is no part of the line; nothing behind the last line feed is no
/// line.
pub proof fn law_the_lines(line: Seq<char>, rest: Seq<char>)
    requires
        !line.contains('\n'),
    ensures
        lines_of(Seq::empty()) == Seq::<Seq<char>>::empty(),
        line.len() > 0 ==> lines_of(line) == seq![line],
        lines_of(line + seq!['\r', '\n'] + rest) == seq![line] + lines_of(rest),
        line.len() == 0 || line.last() != '\r' ==> lines_of(line + seq!['\n'] + rest) == seq![line]
            + lines_of(rest),
{
    assert(lines_of(Seq::empty()) =~= Seq::<Seq<char>>::empty());
    lemma_find_unique(line, '\n', 0, line.len() as int);
    assert(line.skip(0) =~= line);
    lemma_first_line(line, rest);
    let longer = line + seq!['\r'];
    assert forall|j: int| 0 <= j < longer.len() implies longer[j] != '\n' by {
        if j < line.len() {
            assert(longer[j] == line[j]);
        }
    }
    lemma_first_line(longer, rest);
    assert(longer.drop_last() =~= line);
    assert(longer + seq!['\n'] + rest =~= line + seq!['\r', '\n'] + rest);
}

/// A text holds another where it consists of something, the other, and something else.
pub proof fn law_holding_a_text(a: Seq<char>, p: Seq<char>, b: Seq<char>)
    ensures
        occurs_at(a + p + b, p, a.len() as int),
        contains(a + p + b, p),
        forall|s: Seq<char>, i: int|
            #[trigger] occurs_at(s, p, i) ==> s == s.take(i) + p + s.skip(i + p.len()),
        forall|s: Seq<char>| #[trigger]
            contains(s, p) ==> exists|x: Seq<char>, y: Seq<char>| s == #[trigger] (x + p + y),
{
    let t = a + p + b;
    assert(t.subrange(a.len() as int, (a.len() + p.len()) as int) =~= p);
    assert(occurs_at(t, p, a.len() as int));
    assert forall|s: Seq<char>, i: int| #[trigger] occurs_at(s, p, i) implies s == s.take(i) + p
        + s.skip(i + p.len()) by {
        assert(s =~= s.take(i) + s.subrange(i, i + p.len()) + s.skip(i + p.len()));
    }
    assert forall|s: Seq<char>| #[trigger] contains(s, p) implies exists|
        x: Seq<char>,
        y: Seq<char>,
    | s == #[trigger] (x + p + y) by {
        let i = choose|i: int| occurs_at(s, p, i);
        assert(s =~= s.take(i) + s.subrange(i, i + p.len()) + s.skip(i + p.len()));
        assert(s == s.take(i) + p + s.skip(i + p.len()));
    }
}

/// What follows a prefix is the rest of the text; a text without the prefix has no such rest.
pub proof fn law_taking_off_a_prefix(s: Seq<char>, p: Seq<char>, rest: Seq<char>)
    ensures
        without_prefix(p + rest, p) == Some(rest),
        without_prefix(s, p) matches Some(r) ==> s == p + r,
{
    let t = p + rest;
    assert(t.subrange(0, p.len() as int) =~= p);
    assert(t.skip(p.len() as int) =~= rest);
    if occurs_at(s, p, 0) {
        assert(s =~= s.subrange(0, p.len() as int) + s.skip(p.len() as int));
    }
}

/// Joining puts the separator between each two parts, and nowhere else.
pub proof fn law_joining(a: Seq<Seq<char>>, b: Seq<Seq<char>>, sep: Seq<char>)
    ensures
        joined(Seq::empty(), sep) == Seq::<char>::empty(),
        a.len() == 1 ==> joined(a, sep) == a[0],
        a.len() > 0 && b.len() > 0 ==> joined(a + b, sep) == joined(a, sep) + sep + joined(b, sep),
    decreases b.len(),
{
    if a.len() > 0 && b.len() > 0 {
        assert((a + b).drop_last() =~= a + b.drop_last());
        assert((a + b).last() == b.last());
        if b.len() == 1 {
            assert(a + b.drop_last() =~= a);
        } else {
            law_joining(a, b.drop_last(), sep);
            assert(joined(a + b, sep) =~= joined(a, sep) + sep + joined(b, sep));
        }
    }
}

/// A text is parted from the left: its first piece ends where the separator stands first, and the
/// other pieces are those of what follows. Without a separator it is one piece.
pub proof fn law_splitting_goes_from_left_to_right(s: Seq<char>, p: Seq<char>, at: int)
    requires
        p.len() > 0,
        occurs_at(s, p, at),
        forall|j: int| 0 <= j < at ==> !#[trigger] occurs_at(s, p, j),
    ensures
        split_at_text(s, p) == seq![s.take(at)] + split_at_text(s.skip(at + p.len()), p),
{
    lemma_find_text_unique(s, p, 0, at);
    lemma_split_shift(s, p, at + p.len(), 0);
    assert(s.subrange(0, at) =~= s.take(at));
}

/// A text that does not hold the separator is one piece, and replacing leaves it as it is.
pub proof fn law_without_a_separator_nothing_is_parted(s: Seq<char>, p: Seq<char>, r: Seq<char>)
    requires
        p.len() > 0,
        !contains(s, p),
    ensures
        split_at_text(s, p) == seq![s],
        replaced(s, p, r) == s,
{
    lemma_find_text(s, p, 0);
    match find_text(s, p, 0) {
        Some(m) => {
            assert(occurs_at(s, p, m));
        },
        None => {},
    }
    assert(s.skip(0) =~= s);
}

/// Replacing goes from left to right: the first occurrence gives way to the replacement, and the
/// same is done to what follows it.
pub proof fn law_replacing_goes_from_left_to_right(
    s: Seq<char>,
    p: Seq<char>,
    r: Seq<char>,
    at: int,
)
    requires
        p.len() > 0,
        occurs_at(s, p, at),
        forall|j: int| 0 <= j < at ==> !#[trigger] occurs_at(s, p, j),
    ensures
        replaced(s, p, r) == s.take(at) + r + replaced(s.skip(at + p.len()), p, r),
{
    law_splitting_goes_from_left_to_right(s, p, at);
    let rest = split_at_text(s.skip(at + p.len()), p);
    lemma_split_nonempty(s.skip(at + p.len()), p, 0);
    law_joining(seq![s.take(at)], rest, r);
}

} // verus!
