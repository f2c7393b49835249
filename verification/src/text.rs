//! Plain text operations over sequences of characters: searching, splitting, trimming, joining
//! and replacing, each with its meaning stated over `Seq<char>`.
use vstd::prelude::*;
use vstd::string::*;

verus! {

/// The views of a sequence of strings.
pub open spec fn texts(v: Seq<String>) -> Seq<Seq<char>> {
    v.map_values(|s: String| s@)
}

/// The view of an optional string.
pub open spec fn opt_text(o: Option<String>) -> Option<Seq<char>> {
    match o {
        Some(s) => Some(s@),
        None => None,
    }
}

/// The view of an optional string slice.
pub open spec fn opt_slice(o: Option<&str>) -> Option<Seq<char>> {
    match o {
        Some(s) => Some(s@),
        None => None,
    }
}

// ── characters ──────────────────────────────────────────────────────────────────────────────────

/// The characters of Unicode's `White_Space` property.
pub open spec fn is_space(c: char) -> bool {
    let u = c as u32;
    ||| 0x9 <= u <= 0xd
    ||| u == 0x20
    ||| u == 0x85
    ||| u == 0xa0
    ||| u == 0x1680
    ||| 0x2000 <= u <= 0x200a
    ||| u == 0x2028
    ||| u == 0x2029
    ||| u == 0x202f
    ||| u == 0x205f
    ||| u == 0x3000
}

/// Whether `c` is white space.
pub fn is_white(c: char) -> (r: bool)
    ensures
        r == is_space(c),
{
    let u: u32 = c as u32;
    (0x9 <= u && u <= 0xd) || u == 0x20 || u == 0x85 || u == 0xa0 || u == 0x1680
        || (0x2000 <= u && u <= 0x200a) || u == 0x2028 || u == 0x2029 || u == 0x202f
        || u == 0x205f || u == 0x3000
}

/// The characters of `s`, in order.
pub(crate) fn chars_of(s: &str) -> (r: Vec<char>)
    ensures
        r@ == s@,
{
    let mut r: Vec<char> = Vec::new();
    for c in it: s.chars()
        invariant
            it.seq() == s@,
            r@ == s@.take(it.index() as int),
    {
        r.push(c);
        assert(s@.take(it.index() + 1) =~= s@.take(it.index() as int).push(c));
    }
    assert(s@.take(s@.len() as int) =~= s@);
    r
}

/// Whether two texts are the same.
pub fn same(a: &str, b: &str) -> (r: bool)
    ensures
        r == (a@ == b@),
{
    a.to_owned() == b.to_owned()
}

// ── searching for a character ───────────────────────────────────────────────────────────────────

/// The first position at or after `from` that holds `c`, or the length of `s` if there is none.
pub open spec fn find(s: Seq<char>, c: char, from: int) -> int
    decreases s.len() - from,
{
    if from >= s.len() {
        s.len() as int
    } else if s[from] == c {
        from
    } else {
        find(s, c, from + 1)
    }
}

pub proof fn lemma_find(s: Seq<char>, c: char, from: int)
    requires
        from <= s.len(),
    ensures
        from <= find(s, c, from) <= s.len(),
        find(s, c, from) < s.len() ==> s[find(s, c, from)] == c,
        forall|j: int| from <= j < find(s, c, from) ==> s[j] != c,
    decreases s.len() - from,
{
    if from < s.len() && s[from] != c {
        lemma_find(s, c, from + 1);
    }
}

/// `find` is the only position with these properties.
pub proof fn lemma_find_unique(s: Seq<char>, c: char, from: int, at: int)
    requires
        from <= at <= s.len(),
        at < s.len() ==> s[at] == c,
        forall|j: int| from <= j < at ==> s[j] != c,
    ensures
        find(s, c, from) == at,
    decreases at - from,
{
    if from < at {
        lemma_find_unique(s, c, from + 1, at);
    }
}

pub(crate) fn find_from(cs: &Vec<char>, c: char, from: usize) -> (at: usize)
    requires
        from <= cs@.len(),
    ensures
        at == find(cs@, c, from as int),
        from <= at <= cs@.len(),
        at < cs@.len() ==> cs@[at as int] == c,
{
    let mut i: usize = from;
    while i < cs.len() && cs[i] != c
        invariant
            from <= i <= cs@.len(),
            find(cs@, c, from as int) == find(cs@, c, i as int),
        decreases cs@.len() - i,
    {
        i = i + 1;
    }
    i
}

/// The position just after the last `c` before `to`, or 0 if there is none.
pub open spec fn after_last(s: Seq<char>, c: char, to: int) -> int
    decreases to,
{
    if to <= 0 {
        0
    } else if s[to - 1] == c {
        to
    } else {
        after_last(s, c, to - 1)
    }
}

/// The last piece of a text that is split at `c`: what follows the last `c`, or all of it.
pub open spec fn last_piece(s: Seq<char>, c: char) -> Seq<char> {
    s.skip(after_last(s, c, s.len() as int))
}

/// What follows the last `c` in `s`; all of `s` if it holds none.
pub fn after_last_char<'a>(s: &'a str, c: char) -> (r: &'a str)
    ensures
        r@ == last_piece(s@, c),
{
    let cs = chars_of(s);
    let mut i: usize = cs.len();
    while i > 0 && cs[i - 1] != c
        invariant
            i <= cs@.len(),
            after_last(cs@, c, cs@.len() as int) == after_last(cs@, c, i as int),
        decreases i,
    {
        i = i - 1;
    }
    assert(s@.subrange(i as int, cs@.len() as int) =~= s@.skip(i as int));
    s.substring_char(i, cs.len())
}

/// The text before the first `c` and the text after it, or `None` if there is no `c`.
pub open spec fn split_pair(s: Seq<char>, c: char) -> Option<(Seq<char>, Seq<char>)> {
    let i = find(s, c, 0);
    if i < s.len() {
        Some((s.take(i), s.skip(i + 1)))
    } else {
        None
    }
}

/// Splits a text at the first `c`, which belongs to neither part.
pub fn split_once<'a>(s: &'a str, c: char) -> (r: Option<(&'a str, &'a str)>)
    ensures
        match r {
            Some((a, b)) => split_pair(s@, c) == Some((a@, b@)),
            None => split_pair(s@, c) is None,
        },
{
    let cs = chars_of(s);
    let i: usize = find_from(&cs, c, 0);
    if i < cs.len() {
        assert(s@.subrange(0, i as int) =~= s@.take(i as int));
        assert(s@.subrange(i + 1, cs@.len() as int) =~= s@.skip(i + 1));
        Some((s.substring_char(0, i), s.substring_char(i + 1, cs.len())))
    } else {
        None
    }
}

// ── white space ─────────────────────────────────────────────────────────────────────────────────

/// The first position at or after `from` that is not white space, or the length of `s`.
pub open spec fn skip_space(s: Seq<char>, from: int) -> int
    decreases s.len() - from,
{
    if from >= s.len() {
        s.len() as int
    } else if is_space(s[from]) {
        skip_space(s, from + 1)
    } else {
        from
    }
}

/// The first position at or after `from` that is white space, or the length of `s`.
pub open spec fn word_end(s: Seq<char>, from: int) -> int
    decreases s.len() - from,
{
    if from >= s.len() {
        s.len() as int
    } else if is_space(s[from]) {
        from
    } else {
        word_end(s, from + 1)
    }
}

/// The end of what is left of `s[..to]` once its trailing white space is dropped.
pub open spec fn trim_end_at(s: Seq<char>, to: int) -> int
    decreases to,
{
    if to <= 0 {
        0
    } else if is_space(s[to - 1]) {
        trim_end_at(s, to - 1)
    } else {
        to
    }
}

/// `s` without its leading and trailing white space.
pub open spec fn trimmed(s: Seq<char>) -> Seq<char> {
    let a = skip_space(s, 0);
    let b = trim_end_at(s, s.len() as int);
    if a < b {
        s.subrange(a, b)
    } else {
        Seq::empty()
    }
}

/// The first run of characters that are not white space, if there is one.
pub open spec fn first_word(s: Seq<char>) -> Option<Seq<char>> {
    let a = skip_space(s, 0);
    if a < s.len() {
        Some(s.subrange(a, word_end(s, a)))
    } else {
        None
    }
}

fn skip_space_from(cs: &Vec<char>, from: usize) -> (at: usize)
    requires
        from <= cs@.len(),
    ensures
        at == skip_space(cs@, from as int),
        from <= at <= cs@.len(),
{
    let mut i: usize = from;
    while i < cs.len() && is_white(cs[i])
        invariant
            from <= i <= cs@.len(),
            skip_space(cs@, from as int) == skip_space(cs@, i as int),
        decreases cs@.len() - i,
    {
        i = i + 1;
    }
    i
}

/// The first word of a text, if it has one.
pub fn word<'a>(s: &'a str) -> (r: Option<&'a str>)
    ensures
        opt_slice(r) == first_word(s@),
{
    let cs = chars_of(s);
    let a: usize = skip_space_from(&cs, 0);
    if a >= cs.len() {
        return None;
    }
    let mut b: usize = a;
    while b < cs.len() && !is_white(cs[b])
        invariant
            a <= b <= cs@.len(),
            word_end(cs@, a as int) == word_end(cs@, b as int),
        decreases cs@.len() - b,
    {
        b = b + 1;
    }
    Some(s.substring_char(a, b))
}

/// A text without its leading and trailing white space.
pub fn trim<'a>(s: &'a str) -> (r: &'a str)
    ensures
        r@ == trimmed(s@),
{
    let cs = chars_of(s);
    let a: usize = skip_space_from(&cs, 0);
    let mut b: usize = cs.len();
    while b > 0 && is_white(cs[b - 1])
        invariant
            b <= cs@.len(),
            trim_end_at(cs@, cs@.len() as int) == trim_end_at(cs@, b as int),
        decreases b,
    {
        b = b - 1;
    }
    if a < b {
        s.substring_char(a, b)
    } else {
        assert(s@.subrange(0, 0) =~= Seq::<char>::empty());
        s.substring_char(0, 0)
    }
}

// ── lines ───────────────────────────────────────────────────────────────────────────────────────

/// A line without the carriage return that stood before its line feed.
pub open spec fn chomp(s: Seq<char>) -> Seq<char> {
    if s.len() > 0 && s.last() == '\r' {
        s.drop_last()
    } else {
        s
    }
}

/// The lines of `s` from position `from` on. A line ends at a line feed, which is not part of it,
/// nor is a carriage return just before it; a text that ends in a line feed has no line after it.
pub open spec fn lines_from(s: Seq<char>, from: int) -> Seq<Seq<char>>
    decreases s.len() - from,
{
    if from >= s.len() {
        Seq::empty()
    } else {
        let e = find(s, '\n', from);
        proof {
            lemma_find(s, '\n', from);
        }
        if e >= s.len() {
            seq![s.skip(from)]
        } else {
            seq![chomp(s.subrange(from, e))] + lines_from(s, e + 1)
        }
    }
}

/// The lines of `s`.
pub open spec fn lines_of(s: Seq<char>) -> Seq<Seq<char>> {
    lines_from(s, 0)
}

/// The lines of a text, without their line ends.
pub fn lines(s: &str) -> (r: Vec<String>)
    ensures
        texts(r@) == lines_of(s@),
{
    let cs = chars_of(s);
    let mut out: Vec<String> = Vec::new();
    let mut from: usize = 0;
    assert(texts(out@) + lines_from(s@, 0) =~= lines_from(s@, 0));
    while from < cs.len()
        invariant
            cs@ == s@,
            from <= cs@.len(),
            texts(out@) + lines_from(s@, from as int) == lines_of(s@),
        decreases cs@.len() - from,
    {
        let e: usize = find_from(&cs, '\n', from);
        let ghost before = texts(out@);
        if e >= cs.len() {
            assert(s@.subrange(from as int, e as int) =~= s@.skip(from as int));
            out.push(s.substring_char(from, e).to_owned());
            assert(texts(out@) =~= before.push(s@.skip(from as int)));
            assert(texts(out@) + lines_from(s@, e as int) =~= before + lines_from(s@, from as int));
            from = e;
        } else {
            let mut end: usize = e;
            if end > from && cs[end - 1] == '\r' {
                end = end - 1;
            }
            assert(chomp(s@.subrange(from as int, e as int)) =~= s@.subrange(
                from as int,
                end as int,
            ));
            out.push(s.substring_char(from, end).to_owned());
            assert(texts(out@) =~= before.push(chomp(s@.subrange(from as int, e as int))));
            assert(texts(out@) + lines_from(s@, e + 1) =~= before + lines_from(s@, from as int));
            from = e + 1;
        }
    }
    assert(texts(out@) + lines_from(s@, from as int) =~= texts(out@));
    out
}

// ── searching for a text ────────────────────────────────────────────────────────────────────────

/// Whether `p` stands in `s` at position `i`.
pub open spec fn occurs_at(s: Seq<char>, p: Seq<char>, i: int) -> bool {
    &&& 0 <= i
    &&& i + p.len() <= s.len()
    &&& s.subrange(i, i + p.len()) == p
}

/// Whether `p` stands in `s` anywhere.
pub open spec fn contains(s: Seq<char>, p: Seq<char>) -> bool {
    exists|i: int| occurs_at(s, p, i)
}

/// The first position at or after `from` at which `p` stands in `s`.
pub open spec fn find_text(s: Seq<char>, p: Seq<char>, from: int) -> Option<int>
    decreases s.len() - from + 1,
{
    if from + p.len() > s.len() {
        None
    } else if occurs_at(s, p, from) {
        Some(from)
    } else {
        find_text(s, p, from + 1)
    }
}

pub proof fn lemma_find_text(s: Seq<char>, p: Seq<char>, from: int)
    ensures
        match find_text(s, p, from) {
            Some(m) => from <= m && occurs_at(s, p, m) && forall|j: int|
                from <= j < m ==> !#[trigger] occurs_at(s, p, j),
            None => forall|j: int| from <= j ==> !#[trigger] occurs_at(s, p, j),
        },
    decreases s.len() - from + 1,
{
    if from + p.len() > s.len() {
    } else if occurs_at(s, p, from) {
    } else {
        lemma_find_text(s, p, from + 1);
    }
}

/// `find_text` gives the only position with these properties.
pub proof fn lemma_find_text_unique(s: Seq<char>, p: Seq<char>, from: int, at: int)
    requires
        from <= at,
        occurs_at(s, p, at),
        forall|j: int| from <= j < at ==> !#[trigger] occurs_at(s, p, j),
    ensures
        find_text(s, p, from) == Some(at),
{
    lemma_find_text(s, p, from);
    match find_text(s, p, from) {
        Some(m) => {
            assert(occurs_at(s, p, m));
            if m < at {
                assert(!occurs_at(s, p, m));
            }
        },
        None => {
            assert(!occurs_at(s, p, at));
        },
    }
}

fn occurs(cs: &Vec<char>, ps: &Vec<char>, at: usize) -> (r: bool)
    requires
        at + ps@.len() <= cs@.len(),
    ensures
        r == occurs_at(cs@, ps@, at as int),
{
    let end: usize = cs.len();
    let mut k: usize = 0;
    while k < ps.len()
        invariant
            at + ps@.len() <= cs@.len(),
            cs@.len() == end,
            k <= ps@.len(),
            forall|j: int| 0 <= j < k ==> cs@[at + j] == ps@[j],
        decreases ps@.len() - k,
    {
        if cs[at + k] != ps[k] {
            assert(cs@.subrange(at as int, at + ps@.len())[k as int] != ps@[k as int]);
            return false;
        }
        k = k + 1;
    }
    assert(cs@.subrange(at as int, at + ps@.len()) =~= ps@);
    true
}

fn find_text_from(cs: &Vec<char>, ps: &Vec<char>, from: usize) -> (r: Option<usize>)
    requires
        from <= cs@.len(),
    ensures
        match r {
            Some(m) => find_text(cs@, ps@, from as int) == Some(m as int) && from <= m && m
                + ps@.len() <= cs@.len(),
            None => find_text(cs@, ps@, from as int) is None,
        },
{
    if ps.len() > cs.len() {
        return None;
    }
    let last: usize = cs.len() - ps.len();
    let mut i: usize = from;
    while i <= last
        invariant
            last + ps@.len() == cs@.len(),
            from <= i <= cs@.len() + 1,
            from <= cs@.len(),
            find_text(cs@, ps@, from as int) == find_text(cs@, ps@, i as int),
        decreases last + 1 - i,
    {
        if occurs(cs, ps, i) {
            return Some(i);
        }
        if i == last {
            assert(find_text(cs@, ps@, i + 1) is None);
            return None;
        }
        i = i + 1;
    }
    None
}

/// Whether `p` stands anywhere in `s`.
pub fn has_text(s: &str, p: &str) -> (r: bool)
    ensures
        r == contains(s@, p@),
{
    let cs = chars_of(s);
    let ps = chars_of(p);
    proof {
        lemma_find_text(s@, p@, 0);
    }
    match find_text_from(&cs, &ps, 0) {
        Some(_) => true,
        None => {
            assert forall|i: int| !occurs_at(s@, p@, i) by {}
            false
        },
    }
}

/// What follows the prefix `p` of `s`, or `None` if `s` does not start with `p`.
pub open spec fn without_prefix(s: Seq<char>, p: Seq<char>) -> Option<Seq<char>> {
    if occurs_at(s, p, 0) {
        Some(s.skip(p.len() as int))
    } else {
        None
    }
}

/// A text without the prefix `p`, or `None` if it does not start with `p`.
pub fn strip_prefix<'a>(s: &'a str, p: &str) -> (r: Option<&'a str>)
    ensures
        opt_slice(r) == without_prefix(s@, p@),
{
    let cs = chars_of(s);
    let ps = chars_of(p);
    if ps.len() <= cs.len() && occurs(&cs, &ps, 0) {
        assert(s@.subrange(ps@.len() as int, cs@.len() as int) =~= s@.skip(ps@.len() as int));
        Some(s.substring_char(ps.len(), cs.len()))
    } else {
        None
    }
}

// ── splitting, joining, replacing ───────────────────────────────────────────────────────────────

/// The pieces of `s` from position `from` on, parted at the occurrences of `p`, taken from the
/// left without overlap.
pub open spec fn split_from(s: Seq<char>, p: Seq<char>, from: int) -> Seq<Seq<char>>
    decreases s.len() - from,
{
    match find_text(s, p, from) {
        Some(m) if p.len() > 0 => {
            proof {
                lemma_find_text(s, p, from);
            }
            seq![s.subrange(from, m)] + split_from(s, p, m + p.len())
        },
        _ => seq![s.skip(from)],
    }
}

/// The pieces of `s`, parted at the occurrences of `p`.
pub open spec fn split_at_text(s: Seq<char>, p: Seq<char>) -> Seq<Seq<char>> {
    split_from(s, p, 0)
}

/// The pieces of a text, parted at the occurrences of `p`.
pub fn split(s: &str, p: &str) -> (r: Vec<String>)
    requires
        p@.len() > 0,
    ensures
        texts(r@) == split_at_text(s@, p@),
        r@.len() > 0,
{
    let cs = chars_of(s);
    let ps = chars_of(p);
    let end: usize = cs.len();
    let mut out: Vec<String> = Vec::new();
    let mut from: usize = 0;
    assert(texts(out@) + split_from(s@, p@, 0) =~= split_from(s@, p@, 0));
    loop
        invariant
            cs@ == s@,
            ps@ == p@,
            p@.len() > 0,
            cs@.len() == end,
            from <= cs@.len(),
            texts(out@) + split_from(s@, p@, from as int) == split_at_text(s@, p@),
        decreases cs@.len() - from,
    {
        let ghost before = texts(out@);
        match find_text_from(&cs, &ps, from) {
            Some(m) => {
                out.push(s.substring_char(from, m).to_owned());
                assert(texts(out@) =~= before.push(s@.subrange(from as int, m as int)));
                assert(texts(out@) + split_from(s@, p@, m + p@.len()) =~= before + split_from(
                    s@,
                    p@,
                    from as int,
                ));
                from = m + ps.len();
            },
            None => {
                assert(s@.subrange(from as int, cs@.len() as int) =~= s@.skip(from as int));
                out.push(s.substring_char(from, cs.len()).to_owned());
                assert(texts(out@) =~= before + split_from(s@, p@, from as int));
                return out;
            },
        }
    }
}

/// The parts one after the other, with `sep` between each two.
pub open spec fn joined(parts: Seq<Seq<char>>, sep: Seq<char>) -> Seq<char>
    decreases parts.len(),
{
    if parts.len() == 0 {
        Seq::empty()
    } else if parts.len() == 1 {
        parts[0]
    } else {
        joined(parts.drop_last(), sep) + sep + parts.last()
    }
}

/// Joins the parts, with `sep` between each two.
pub fn join(parts: &Vec<String>, sep: &str) -> (r: String)
    ensures
        r@ == joined(texts(parts@), sep@),
{
    let mut out = String::new();
    let mut i: usize = 0;
    let ghost all = texts(parts@);
    while i < parts.len()
        invariant
            all == texts(parts@),
            i <= parts@.len(),
            out@ == joined(all.take(i as int), sep@),
        decreases parts@.len() - i,
    {
        assert(all.take(i + 1).drop_last() =~= all.take(i as int));
        assert(all.take(i + 1).last() == parts@[i as int]@);
        let ghost before = out@;
        if i > 0 {
            out.append(sep);
        }
        out.append(parts[i].as_str());
        if i == 0 {
            assert(before =~= Seq::<char>::empty());
            assert(out@ =~= parts@[0]@);
        }
        i = i + 1;
    }
    assert(all.take(i as int) =~= all);
    out
}

/// `s` with every occurrence of `p` replaced by `r`.
pub open spec fn replaced(s: Seq<char>, p: Seq<char>, r: Seq<char>) -> Seq<char> {
    joined(split_at_text(s, p), r)
}

/// A text with every occurrence of `p` replaced by `r`.
pub fn replace(s: &str, p: &str, r: &str) -> (out: String)
    requires
        p@.len() > 0,
    ensures
        out@ == replaced(s@, p@, r@),
{
    let pieces = split(s, p);
    join(&pieces, r)
}

// ── numbers ─────────────────────────────────────────────────────────────────────────────────────

/// The digit `d`.
pub open spec fn digit(d: nat) -> Seq<char> {
    if d == 0 {
        "0"@
    } else if d == 1 {
        "1"@
    } else if d == 2 {
        "2"@
    } else if d == 3 {
        "3"@
    } else if d == 4 {
        "4"@
    } else if d == 5 {
        "5"@
    } else if d == 6 {
        "6"@
    } else if d == 7 {
        "7"@
    } else if d == 8 {
        "8"@
    } else {
        "9"@
    }
}

/// `n` in decimal, without leading zeros.
pub open spec fn decimal(n: nat) -> Seq<char>
    decreases n,
{
    if n < 10 {
        digit(n)
    } else {
        decimal(n / 10) + digit(n % 10)
    }
}

fn digit_text(d: u16) -> (r: &'static str)
    requires
        d < 10,
    ensures
        r@ == digit(d as nat),
{
    if d == 0 {
        "0"
    } else if d == 1 {
        "1"
    } else if d == 2 {
        "2"
    } else if d == 3 {
        "3"
    } else if d == 4 {
        "4"
    } else if d == 5 {
        "5"
    } else if d == 6 {
        "6"
    } else if d == 7 {
        "7"
    } else if d == 8 {
        "8"
    } else {
        "9"
    }
}

/// Writes a number in decimal.
pub fn number(n: u16) -> (r: String)
    ensures
        r@ == decimal(n as nat),
    decreases n,
{
    if n < 10 {
        digit_text(n).to_owned()
    } else {
        let mut r = number(n / 10);
        r.append(digit_text(n % 10));
        r
    }
}

// ── bytes ───────────────────────────────────────────────────────────────────────────────────────

/// What `String::from_utf8_lossy` makes of a sequence of bytes.
pub uninterp spec fn lossy(bytes: Seq<u8>) -> Seq<char>;

/// Wraps `String::from_utf8_lossy`, which reads bytes as UTF-8 and puts U+FFFD where they are
/// not. The result is named `lossy` of the bytes; of bytes that are valid UTF-8 it is the text
/// that they encode. Where the replacement characters fall in other bytes is left unsaid.
#[verifier::external_body]
pub(crate) fn from_utf8_lossy(bytes: &Vec<u8>) -> (r: String)
    ensures
        r@ == lossy(bytes@),
        vstd::utf8::valid_utf8(bytes@) ==> r@ == vstd::utf8::decode_utf8(bytes@),
{
    String::from_utf8_lossy(bytes).into_owned()
}

} // verus!
