//! Text as sequences of characters: white space, trimming, prefixes, lines,
//! joining and searching. Every other module works on these.

use vstd::prelude::*;
use vstd::std_specs::iter::IteratorSpec;

verus! {

/// The characters that carry the Unicode property `White_Space`.
pub open spec fn is_space(c: char) -> bool {
    ||| ('\u{9}' <= c && c <= '\u{d}')
    ||| c == ' '
    ||| c == '\u{85}'
    ||| c == '\u{a0}'
    ||| c == '\u{1680}'
    ||| ('\u{2000}' <= c && c <= '\u{200a}')
    ||| c == '\u{2028}'
    ||| c == '\u{2029}'
    ||| c == '\u{202f}'
    ||| c == '\u{205f}'
    ||| c == '\u{3000}'
}

/// The first index at or after `i` that holds no white space, or the length.
pub open spec fn skip_spaces(s: Seq<char>, i: int) -> int
    decreases s.len() - i,
{
    if 0 <= i < s.len() && is_space(s[i]) {
        skip_spaces(s, i + 1)
    } else {
        i
    }
}

/// The end of `s[..n]` once its trailing white space is dropped.
pub open spec fn back_spaces(s: Seq<char>, n: int) -> int
    decreases n,
{
    if 0 < n <= s.len() && is_space(s[n - 1]) {
        back_spaces(s, n - 1)
    } else {
        n
    }
}

/// `s` without its leading white space.
pub open spec fn trimmed_start(s: Seq<char>) -> Seq<char> {
    s.subrange(skip_spaces(s, 0), s.len() as int)
}

/// `s` without its trailing white space.
pub open spec fn trimmed_end(s: Seq<char>) -> Seq<char> {
    s.subrange(0, back_spaces(s, s.len() as int))
}

/// `s` without leading and trailing white space.
pub open spec fn trimmed(s: Seq<char>) -> Seq<char> {
    trimmed_end(trimmed_start(s))
}

/// `s` is empty or white space only.
pub open spec fn is_blank(s: Seq<char>) -> bool {
    skip_spaces(s, 0) == s.len()
}

/// `s` with the prefix `p` removed, where it starts with `p`.
pub open spec fn without_prefix(s: Seq<char>, p: Seq<char>) -> Option<Seq<char>> {
    if p.is_prefix_of(s) {
        Some(s.subrange(p.len() as int, s.len() as int))
    } else {
        None
    }
}

/// `p` stands in `s` at index `i`.
pub open spec fn occurs_at(s: Seq<char>, p: Seq<char>, i: int) -> bool {
    0 <= i && i + p.len() <= s.len() && s.subrange(i, i + p.len()) =~= p
}

/// The first index at or after `from` where `p` stands in `s`.
pub open spec fn find_from(s: Seq<char>, p: Seq<char>, from: int) -> Option<int>
    decreases s.len() - from,
{
    if from < 0 || from + p.len() > s.len() {
        None
    } else if occurs_at(s, p, from) {
        Some(from)
    } else {
        find_from(s, p, from + 1)
    }
}

/// The first index at or after `i` that holds a line feed, or the length.
pub open spec fn next_newline(s: Seq<char>, i: int) -> int
    decreases s.len() - i,
{
    if 0 <= i < s.len() && s[i] != '\n' {
        next_newline(s, i + 1)
    } else {
        i
    }
}

/// `l` without one trailing carriage return.
pub open spec fn without_cr(l: Seq<char>) -> Seq<char> {
    if l.len() > 0 && l.last() == '\r' {
        l.drop_last()
    } else {
        l
    }
}

/// The lines of `s[i..]`.
pub open spec fn lines_from(s: Seq<char>, i: int) -> Seq<Seq<char>>
    decreases s.len() - i,
{
    let j = next_newline(s, i);
    if i < 0 || i >= s.len() || j < i {
        Seq::empty()
    } else if j >= s.len() {
        seq![s.subrange(i, s.len() as int)]
    } else {
        seq![without_cr(s.subrange(i, j))] + lines_from(s, j + 1)
    }
}

/// The lines of `s`: it is cut at each line feed, a carriage return just
/// before a line feed goes with it, and a line ending at the very end opens
/// no further line.
pub open spec fn lines_of(s: Seq<char>) -> Seq<Seq<char>> {
    lines_from(s, 0)
}

/// The first `n` of `parts` with `sep` between each two.
pub open spec fn joined_upto(parts: Seq<Seq<char>>, sep: Seq<char>, n: int) -> Seq<char>
    decreases n,
{
    if n <= 0 {
        Seq::empty()
    } else if n == 1 {
        parts[0]
    } else {
        joined_upto(parts, sep, n - 1) + sep + parts[n - 1]
    }
}

/// All of `parts` with `sep` between each two.
pub open spec fn joined(parts: Seq<Seq<char>>, sep: Seq<char>) -> Seq<char> {
    joined_upto(parts, sep, parts.len() as int)
}

/// The views of a vector of texts.
pub open spec fn texts(v: Seq<Vec<char>>) -> Seq<Seq<char>> {
    v.map_values(|t: Vec<char>| t@)
}

/// The view of an optional string.
pub open spec fn opt_text(o: Option<String>) -> Option<Seq<char>> {
    match o {
        Some(s) => Some(s@),
        None => None,
    }
}

pub proof fn lemma_skip_spaces_bounds(s: Seq<char>, i: int)
    requires
        0 <= i <= s.len(),
    ensures
        i <= skip_spaces(s, i) <= s.len(),
        forall|k: int| i <= k < skip_spaces(s, i) ==> is_space(#[trigger] s[k]),
        skip_spaces(s, i) < s.len() ==> !is_space(s[skip_spaces(s, i)]),
    decreases s.len() - i,
{
    if i < s.len() && is_space(s[i]) {
        lemma_skip_spaces_bounds(s, i + 1);
    }
}

pub proof fn lemma_back_spaces_bounds(s: Seq<char>, n: int)
    requires
        0 <= n <= s.len(),
    ensures
        0 <= back_spaces(s, n) <= n,
        forall|k: int| back_spaces(s, n) <= k < n ==> is_space(#[trigger] s[k]),
        back_spaces(s, n) > 0 ==> !is_space(s[back_spaces(s, n) - 1]),
    decreases n,
{
    if 0 < n && is_space(s[n - 1]) {
        lemma_back_spaces_bounds(s, n - 1);
    }
}

pub proof fn lemma_next_newline_bounds(s: Seq<char>, i: int)
    requires
        0 <= i <= s.len(),
    ensures
        i <= next_newline(s, i) <= s.len(),
        forall|k: int| i <= k < next_newline(s, i) ==> #[trigger] s[k] != '\n',
        next_newline(s, i) < s.len() ==> s[next_newline(s, i)] == '\n',
    decreases s.len() - i,
{
    if i < s.len() && s[i] != '\n' {
        lemma_next_newline_bounds(s, i + 1);
    }
}

/// Whether `c` is white space.
pub fn is_space_char(c: char) -> (r: bool)
    ensures
        r == is_space(c),
{
    ('\u{9}' <= c && c <= '\u{d}') || c == ' ' || c == '\u{85}' || c == '\u{a0}' || c
        == '\u{1680}' || ('\u{2000}' <= c && c <= '\u{200a}') || c == '\u{2028}' || c
        == '\u{2029}' || c == '\u{202f}' || c == '\u{205f}' || c == '\u{3000}'
}

/// The characters of a string.
pub fn chars_of(s: &str) -> (v: Vec<char>)
    ensures
        v@ == s@,
{
    let mut v: Vec<char> = Vec::new();
    for c in it: s.chars()
        invariant
            v@ == it.seq().take(it.index() as int),
            it.seq() == s@,
    {
        v.push(c);
    }
    v
}

/// Builds a `String` from its characters (`String::from_iter`): the string
/// holds exactly the characters given, in their order.
#[verifier::external_body]
pub(crate) fn string_of(chars: &Vec<char>) -> (s: String)
    ensures
        s@ == chars@,
{
    String::from_iter(chars.iter())
}

/// The characters `s[from..to]`.
pub fn slice(s: &Vec<char>, from: usize, to: usize) -> (r: Vec<char>)
    requires
        from <= to <= s@.len(),
    ensures
        r@ == s@.subrange(from as int, to as int),
{
    let mut r: Vec<char> = Vec::new();
    let mut i: usize = from;
    while i < to
        invariant
            from <= i <= to <= s@.len(),
            r@ == s@.subrange(from as int, i as int),
        decreases to - i,
    {
        r.push(s[i]);
        i += 1;
    }
    r
}

/// Whether two texts hold the same characters.
pub fn same_text(a: &Vec<char>, b: &Vec<char>) -> (r: bool)
    ensures
        r == (a@ == b@),
{
    if a.len() != b.len() {
        return false;
    }
    let mut i: usize = 0;
    while i < a.len()
        invariant
            a@.len() == b@.len(),
            i <= a@.len(),
            a@.subrange(0, i as int) == b@.subrange(0, i as int),
        decreases a@.len() - i,
    {
        if a[i] != b[i] {
            return false;
        }
        assert(a@.subrange(0, i + 1) == a@.subrange(0, i as int).push(a@[i as int]));
        assert(b@.subrange(0, i + 1) == b@.subrange(0, i as int).push(b@[i as int]));
        i += 1;
    }
    assert(a@ == a@.subrange(0, a@.len() as int));
    assert(b@ == b@.subrange(0, b@.len() as int));
    true
}

/// Whether `p` stands in `s` at index `i`.
pub fn matches_at(s: &Vec<char>, p: &Vec<char>, i: usize) -> (r: bool)
    ensures
        r == occurs_at(s@, p@, i as int),
{
    if p.len() > s.len() || i > s.len() - p.len() {
        return false;
    }
    let mut k: usize = 0;
    while k < p.len()
        invariant
            i + p@.len() <= s@.len() <= usize::MAX,
            k <= p@.len(),
            s@.subrange(i as int, i + k) == p@.subrange(0, k as int),
        decreases p@.len() - k,
    {
        if s[i + k] != p[k] {
            assert(s@.subrange(i as int, i + p@.len())[k as int] != p@[k as int]);
            return false;
        }
        assert(s@.subrange(i as int, i + k + 1) == s@.subrange(i as int, i + k).push(
            s@[i + k],
        ));
        assert(p@.subrange(0, k + 1) == p@.subrange(0, k as int).push(p@[k as int]));
        k += 1;
    }
    assert(p@ == p@.subrange(0, p@.len() as int));
    true
}

/// Whether `s` starts with `p`.
pub fn starts_with(s: &Vec<char>, p: &Vec<char>) -> (r: bool)
    ensures
        r == p@.is_prefix_of(s@),
{
    let r = matches_at(s, p, 0);
    assert(r == p@.is_prefix_of(s@)) by {
        if p@.len() <= s@.len() {
            assert(s@.subrange(0int, 0int + p@.len()) == s@.subrange(0, p@.len() as int));
        }
    }
    r
}

/// `s` without the prefix `p`, or `None` where `s` does not start with it.
pub fn strip_prefix(s: &Vec<char>, p: &Vec<char>) -> (r: Option<Vec<char>>)
    ensures
        r.is_some() == p@.is_prefix_of(s@),
        match r {
            Some(rest) => Some(rest@) == without_prefix(s@, p@),
            None => without_prefix(s@, p@).is_none(),
        },
{
    if starts_with(s, p) {
        Some(slice(s, p.len(), s.len()))
    } else {
        None
    }
}

/// The index of the first character at or after `from` that is no white space.
pub fn skip_spaces_from(s: &Vec<char>, from: usize) -> (r: usize)
    requires
        from <= s@.len(),
    ensures
        r == skip_spaces(s@, from as int),
        from <= r <= s@.len(),
{
    let mut i: usize = from;
    while i < s.len() && is_space_char(s[i])
        invariant
            from <= i <= s@.len(),
            skip_spaces(s@, from as int) == skip_spaces(s@, i as int),
        decreases s@.len() - i,
    {
        i += 1;
    }
    i
}

/// `s` without its leading white space.
pub fn trim_start(s: &Vec<char>) -> (r: Vec<char>)
    ensures
        r@ == trimmed_start(s@),
{
    let i = skip_spaces_from(s, 0);
    slice(s, i, s.len())
}

/// `s` without its trailing white space.
pub fn trim_end(s: &Vec<char>) -> (r: Vec<char>)
    ensures
        r@ == trimmed_end(s@),
{
    let mut n: usize = s.len();
    while n > 0 && is_space_char(s[n - 1])
        invariant
            n <= s@.len(),
            back_spaces(s@, s@.len() as int) == back_spaces(s@, n as int),
        decreases n,
    {
        n -= 1;
    }
    slice(s, 0, n)
}

/// `s` without leading and trailing white space.
pub fn trim(s: &Vec<char>) -> (r: Vec<char>)
    ensures
        r@ == trimmed(s@),
{
    let t = trim_start(s);
    trim_end(&t)
}

/// Whether `s` is empty or white space only.
pub fn blank(s: &Vec<char>) -> (r: bool)
    ensures
        r == is_blank(s@),
{
    skip_spaces_from(s, 0) == s.len()
}

/// The first index at or after `from` where `p` stands in `s`.
pub fn find(s: &Vec<char>, p: &Vec<char>, from: usize) -> (r: Option<usize>)
    ensures
        match r {
            Some(i) => find_from(s@, p@, from as int) == Some(i as int) && from <= i && i
                + p@.len() <= s@.len() && occurs_at(s@, p@, i as int),
            None => find_from(s@, p@, from as int).is_none(),
        },
{
    if p.len() > s.len() {
        return None;
    }
    let last: usize = s.len() - p.len();
    let mut i: usize = from;
    while i < last
        invariant
            last + p@.len() == s@.len(),
            from <= i,
            find_from(s@, p@, from as int) == find_from(s@, p@, i as int),
        decreases last - i,
    {
        if matches_at(s, p, i) {
            return Some(i);
        }
        i += 1;
    }
    if i == last && matches_at(s, p, i) {
        return Some(i);
    }
    assert(find_from(s@, p@, i + 1).is_none());
    None
}

/// The lines of `s`.
pub fn split_lines(s: &Vec<char>) -> (r: Vec<Vec<char>>)
    ensures
        texts(r@) == lines_of(s@),
{
    let mut r: Vec<Vec<char>> = Vec::new();
    let mut start: usize = 0;
    assert(texts(r@) =~= Seq::<Seq<char>>::empty());
    while start < s.len()
        invariant
            start <= s@.len(),
            lines_of(s@) == texts(r@) + lines_from(s@, start as int),
        decreases s@.len() - start,
    {
        let mut j: usize = start;
        while j < s.len() && s[j] != '\n'
            invariant
                start <= j <= s@.len(),
                next_newline(s@, start as int) == next_newline(s@, j as int),
            decreases s@.len() - j,
        {
            j += 1;
        }
        let ghost before = texts(r@);
        if j >= s.len() {
            let line = slice(s, start, s.len());
            r.push(line);
            assert(texts(r@) =~= before.push(line@));
            assert(lines_from(s@, s@.len() as int) =~= Seq::<Seq<char>>::empty());
            start = s.len();
        } else {
            let end: usize = if j > start && s[j - 1] == '\r' {
                j - 1
            } else {
                j
            };
            let line = slice(s, start, end);
            assert(line@ == without_cr(s@.subrange(start as int, j as int)));
            r.push(line);
            assert(texts(r@) =~= before.push(line@));
            start = j + 1;
        }
    }
    assert(lines_from(s@, start as int) =~= Seq::<Seq<char>>::empty());
    r
}

/// `parts` with `sep` between each two.
pub fn join(parts: &Vec<Vec<char>>, sep: &Vec<char>) -> (r: Vec<char>)
    ensures
        r@ == joined(texts(parts@), sep@),
{
    let mut r: Vec<char> = Vec::new();
    let mut i: usize = 0;
    while i < parts.len()
        invariant
            i <= parts@.len(),
            r@ == joined_upto(texts(parts@), sep@, i as int),
        decreases parts@.len() - i,
    {
        let ghost before = r@;
        if i > 0 {
            append(&mut r, sep);
        }
        append(&mut r, &parts[i]);
        assert(texts(parts@)[i as int] == parts@[i as int]@);
        assert(i == 0 ==> r@ =~= parts@[0]@);
        i += 1;
    }
    r
}

/// Puts the characters of `more` behind those of `out`.
pub fn append(out: &mut Vec<char>, more: &Vec<char>)
    ensures
        final(out)@ == old(out)@ + more@,
{
    let mut k: usize = 0;
    while k < more.len()
        invariant
            k <= more@.len(),
            out@ == old(out)@ + more@.subrange(0, k as int),
        decreases more@.len() - k,
    {
        out.push(more[k]);
        assert(more@.subrange(0, k + 1) == more@.subrange(0, k as int).push(more@[k as int]));
        k += 1;
    }
    assert(more@ == more@.subrange(0, more@.len() as int));
}


/// The decimal digit for `d`.
pub open spec fn digit_char(d: int) -> char {
    if d == 0 {
        '0'
    } else if d == 1 {
        '1'
    } else if d == 2 {
        '2'
    } else if d == 3 {
        '3'
    } else if d == 4 {
        '4'
    } else if d == 5 {
        '5'
    } else if d == 6 {
        '6'
    } else if d == 7 {
        '7'
    } else if d == 8 {
        '8'
    } else {
        '9'
    }
}

/// The number `n` written in decimal digits.
pub open spec fn digits(n: nat) -> Seq<char>
    decreases n,
{
    if n < 10 {
        seq![digit_char(n as int)]
    } else {
        digits(n / 10).push(digit_char((n % 10) as int))
    }
}

/// The decimal digit for `d`.
pub fn digit(d: usize) -> (c: char)
    requires
        d < 10,
    ensures
        c == digit_char(d as int),
{
    if d == 0 {
        '0'
    } else if d == 1 {
        '1'
    } else if d == 2 {
        '2'
    } else if d == 3 {
        '3'
    } else if d == 4 {
        '4'
    } else if d == 5 {
        '5'
    } else if d == 6 {
        '6'
    } else if d == 7 {
        '7'
    } else if d == 8 {
        '8'
    } else {
        '9'
    }
}

/// Writes a number in decimal digits.
pub fn decimal(n: usize) -> (r: Vec<char>)
    ensures
        r@ == digits(n as nat),
    decreases n,
{
    if n < 10 {
        let mut r: Vec<char> = Vec::new();
        r.push(digit(n));
        assert(r@ =~= seq![digit_char(n as int)]);
        r
    } else {
        let mut r = decimal(n / 10);
        r.push(digit(n % 10));
        r
    }
}

/// The first line of `s`, cut after `max` characters, with `...` behind it
/// where something of `s` was left out.
pub open spec fn truncated(s: Seq<char>, max: int) -> Seq<char> {
    let first = if lines_of(s).len() > 0 {
        lines_of(s)[0]
    } else {
        s
    };
    if first.len() > max {
        first.subrange(0, max) + "..."@
    } else if next_newline(s, 0) < s.len() {
        first + "..."@
    } else {
        first
    }
}

/// Shortens a text for display: its first line, and of that at most
/// `max_len` characters.
pub fn truncate(s: &Vec<char>, max_len: usize) -> (r: Vec<char>)
    ensures
        r@ == truncated(s@, max_len as int),
{
    let lines = split_lines(s);
    let dots = chars_of("...");
    assert(lines@.len() == lines_of(s@).len());
    let mut first = if lines.len() > 0 {
        assert(texts(lines@)[0] == lines@[0]@);
        slice(&lines[0], 0, lines[0].len())
    } else {
        slice(s, 0, s.len())
    };
    let mut j: usize = 0;
    while j < s.len() && s[j] != '\n'
        invariant
            j <= s@.len(),
            next_newline(s@, 0) == next_newline(s@, j as int),
        decreases s@.len() - j,
    {
        j += 1;
    }
    if first.len() > max_len {
        let mut r = slice(&first, 0, max_len);
        append(&mut r, &dots);
        r
    } else if j < s.len() {
        append(&mut first, &dots);
        first
    } else {
        first
    }
}

} // verus!
