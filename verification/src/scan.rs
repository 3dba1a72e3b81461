//! Markers in a line of text: the mantra marker `**^text^**` at the start of
//! a line, the reference `_| text |_` with an optional `@alias` anywhere
//! outside inline code, and the commentary that is left of a quote block once
//! its markers are taken out.

use crate::text::{
    blank, chars_of, is_blank, join, joined, lines_of, slice, split_lines, strip_prefix, texts,
    trim, trimmed, without_prefix,
};
use vstd::prelude::*;

verus! {

/// Whether `char::is_alphanumeric` holds of `c`.
pub uninterp spec fn is_alphanumeric(c: char) -> bool;

/// Asks `char::is_alphanumeric`, which says whether a character is a letter
/// or a number in the sense of Unicode. The answer depends on the character
/// alone.
#[verifier::external_body]
fn alphanumeric(c: char) -> (r: bool)
    ensures
        r == is_alphanumeric(c),
{
    c.is_alphanumeric()
}

/// For each character of `s`, whether it is alphanumeric.
pub open spec fn alnum_mask(s: Seq<char>) -> Seq<bool> {
    Seq::new(s.len(), |k: int| is_alphanumeric(s[k]))
}

/// The first index at or after `i` that holds `c`, or the length.
pub open spec fn next_char(s: Seq<char>, c: char, i: int) -> int
    decreases s.len() - i,
{
    if 0 <= i < s.len() && s[i] != c {
        next_char(s, c, i + 1)
    } else {
        i
    }
}

/// The characters `a` and `b` stand at `i` and `i + 1`.
pub open spec fn pair_at(s: Seq<char>, i: int, a: char, b: char) -> bool {
    0 <= i && i + 1 < s.len() && s[i] == a && s[i + 1] == b
}

/// `**^` stands at `i`.
pub open spec fn starts_marker(s: Seq<char>, i: int) -> bool {
    pair_at(s, i, '*', '*') && i + 2 < s.len() && s[i + 2] == '^'
}

/// Where the `^` stands that closes the marker opened at `i`, or the length.
pub open spec fn marker_close(s: Seq<char>, i: int) -> int {
    next_char(s, '^', i + 3)
}

/// The index behind the marker opened at `i`: behind the closing `^` and up
/// to two `*` after it.
pub open spec fn marker_end(s: Seq<char>, i: int) -> int {
    let c = marker_close(s, i);
    if c >= s.len() {
        s.len() as int
    } else if pair_at(s, c + 1, '*', '*') {
        c + 3
    } else if c + 1 < s.len() && s[c + 1] == '*' {
        c + 2
    } else {
        c + 1
    }
}

/// The text of the marker opened at `i`, trimmed.
pub open spec fn marker_text(s: Seq<char>, i: int) -> Seq<char> {
    trimmed(s.subrange(i + 3, marker_close(s, i)))
}

/// The mantra that a line defines: the text of a marker that opens the line,
/// if that text is not empty.
pub open spec fn subject_of(line: Seq<char>) -> Option<Seq<char>> {
    if starts_marker(line, 0) && marker_text(line, 0).len() > 0 {
        Some(marker_text(line, 0))
    } else {
        None
    }
}

/// The mantras that the first `n` lines define, in their order.
pub open spec fn subjects_upto(lines: Seq<Seq<char>>, n: int) -> Seq<Seq<char>>
    decreases n,
{
    if n <= 0 {
        Seq::empty()
    } else {
        match subject_of(lines[n - 1]) {
            Some(t) => subjects_upto(lines, n - 1).push(t),
            None => subjects_upto(lines, n - 1),
        }
    }
}

/// The mantras that the text of a quote block defines.
pub open spec fn subjects_of(paragraph: Seq<char>) -> Seq<Seq<char>> {
    subjects_upto(lines_of(paragraph), lines_of(paragraph).len() as int)
}

/// The first index at or after `i` where `|_` stands, or the length.
pub open spec fn reference_close(s: Seq<char>, i: int) -> int
    decreases s.len() - i,
{
    if 0 <= i < s.len() && !pair_at(s, i, '|', '_') {
        reference_close(s, i + 1)
    } else {
        i
    }
}

/// The first index at or after `i` that holds no character of an alias:
/// neither alphanumeric, by `mask`, nor `-` nor `_`.
pub open spec fn alias_end(s: Seq<char>, mask: Seq<bool>, i: int) -> int
    decreases s.len() - i,
{
    if 0 <= i < s.len() && i < mask.len() && (mask[i] || s[i] == '-' || s[i] == '_') {
        alias_end(s, mask, i + 1)
    } else {
        i
    }
}

/// A reference to a mantra, as it stands in a line.
#[derive(Debug, PartialEq, Eq)]
pub struct Reference {
    pub text: Vec<char>,
    pub shastra: Option<Vec<char>>,
}

pub struct ReferenceView {
    pub text: Seq<char>,
    pub shastra: Option<Seq<char>>,
}

impl View for Reference {
    type V = ReferenceView;

    open spec fn view(&self) -> ReferenceView {
        ReferenceView {
            text: self.text@,
            shastra: match self.shastra {
                Some(a) => Some(a@),
                None => None,
            },
        }
    }
}

pub open spec fn reference_views(v: Seq<Reference>) -> Seq<ReferenceView> {
    v.map_values(|r: Reference| r@)
}

pub open spec fn opt_reference(o: Option<Reference>) -> Option<ReferenceView> {
    match o {
        Some(r) => Some(r@),
        None => None,
    }
}

/// One step of the scan: where it goes on, whether it is inside inline code
/// there, and the reference it passed, if any.
pub struct Token {
    pub next: int,
    pub ticked: bool,
    pub found: Option<ReferenceView>,
}

/// The reference opened by `_|` at `i`: its text runs to the next `|_` or to
/// the end of the line and is trimmed; an empty one is none. An `@` right
/// behind it opens the alias, which runs as far as alias characters go; an
/// empty alias is none.
pub open spec fn reference_at(s: Seq<char>, mask: Seq<bool>, i: int) -> Token {
    let close = reference_close(s, i + 2);
    let text = trimmed(s.subrange(i + 2, close));
    let after = if close < s.len() {
        close + 2
    } else {
        s.len() as int
    };
    if text.len() == 0 {
        Token { next: after, ticked: false, found: None }
    } else if after < s.len() && s[after] == '@' {
        let e = alias_end(s, mask, after + 1);
        let alias = s.subrange(after + 1, e);
        Token {
            next: e,
            ticked: false,
            found: Some(
                ReferenceView {
                    text,
                    shastra: if alias.len() > 0 {
                        Some(alias)
                    } else {
                        None
                    },
                },
            ),
        }
    } else {
        Token { next: after, ticked: false, found: Some(ReferenceView { text, shastra: None }) }
    }
}

/// The step of the scan at `i`. A backtick opens or closes inline code, and
/// inside it nothing counts. With `markers`, a mantra marker is passed over
/// whole, and `**` without `^` as two characters. `_|` opens a reference.
pub open spec fn token(s: Seq<char>, mask: Seq<bool>, markers: bool, i: int, ticked: bool) -> Token {
    if s[i] == '`' {
        Token { next: i + 1, ticked: !ticked, found: None }
    } else if ticked {
        Token { next: i + 1, ticked: true, found: None }
    } else if markers && starts_marker(s, i) {
        Token { next: marker_end(s, i), ticked: false, found: None }
    } else if markers && pair_at(s, i, '*', '*') {
        Token { next: i + 2, ticked: false, found: None }
    } else if pair_at(s, i, '_', '|') {
        reference_at(s, mask, i)
    } else {
        Token { next: i + 1, ticked: false, found: None }
    }
}

/// The references of `s[i..]`.
pub open spec fn scan(s: Seq<char>, mask: Seq<bool>, markers: bool, i: int, ticked: bool) -> Seq<
    ReferenceView,
>
    decreases s.len() - i,
    via scan_decreases
{
    if i < 0 || i >= s.len() {
        Seq::empty()
    } else {
        let t = token(s, mask, markers, i, ticked);
        let rest = scan(s, mask, markers, t.next, t.ticked);
        match t.found {
            Some(r) => seq![r] + rest,
            None => rest,
        }
    }
}

#[via_fn]
proof fn scan_decreases(s: Seq<char>, mask: Seq<bool>, markers: bool, i: int, ticked: bool) {
    if 0 <= i < s.len() {
        lemma_token_advances(s, mask, markers, i, ticked);
    }
}

/// The references of a line, in their order. With `markers` the line is one
/// of a quote block and its mantra markers are passed over.
pub open spec fn references_in(s: Seq<char>, mask: Seq<bool>, markers: bool) -> Seq<ReferenceView> {
    scan(s, mask, markers, 0, false)
}

pub proof fn lemma_next_char_bounds(s: Seq<char>, c: char, i: int)
    requires
        0 <= i <= s.len(),
    ensures
        i <= next_char(s, c, i) <= s.len(),
    decreases s.len() - i,
{
    if i < s.len() && s[i] != c {
        lemma_next_char_bounds(s, c, i + 1);
    }
}

pub proof fn lemma_reference_close_bounds(s: Seq<char>, i: int)
    requires
        0 <= i <= s.len(),
    ensures
        i <= reference_close(s, i) <= s.len(),
        reference_close(s, i) < s.len() ==> reference_close(s, i) + 2 <= s.len(),
    decreases s.len() - i,
{
    if i < s.len() && !pair_at(s, i, '|', '_') {
        lemma_reference_close_bounds(s, i + 1);
    }
}

pub proof fn lemma_alias_end_bounds(s: Seq<char>, mask: Seq<bool>, i: int)
    requires
        0 <= i <= s.len(),
    ensures
        i <= alias_end(s, mask, i) <= s.len(),
    decreases s.len() - i,
{
    if i < s.len() && i < mask.len() && (mask[i] || s[i] == '-' || s[i] == '_') {
        lemma_alias_end_bounds(s, mask, i + 1);
    }
}

/// Every step of the scan moves on, and not past the end.
pub proof fn lemma_token_advances(s: Seq<char>, mask: Seq<bool>, markers: bool, i: int, ticked: bool)
    requires
        0 <= i < s.len(),
    ensures
        i < token(s, mask, markers, i, ticked).next <= s.len(),
{
    if starts_marker(s, i) {
        lemma_next_char_bounds(s, '^', i + 3);
    }
    if pair_at(s, i, '_', '|') {
        lemma_reference_close_bounds(s, i + 2);
        let close = reference_close(s, i + 2);
        let after = if close < s.len() {
            close + 2
        } else {
            s.len() as int
        };
        if after < s.len() {
            lemma_alias_end_bounds(s, mask, after + 1);
        }
    }
}

/// `s` without its mantra markers, from `i` on; `inside` says whether `i`
/// stands in a marker.
pub open spec fn unmarked(s: Seq<char>, i: int, inside: bool) -> Seq<char>
    decreases s.len() - i,
{
    if i < 0 || i >= s.len() {
        Seq::empty()
    } else if !inside && starts_marker(s, i) {
        unmarked(s, i + 3, true)
    } else if inside && s[i] == '^' {
        unmarked(
            s,
            if pair_at(s, i + 1, '*', '*') {
                i + 3
            } else {
                i + 1
            },
            false,
        )
    } else if inside {
        unmarked(s, i + 1, true)
    } else {
        seq![s[i]] + unmarked(s, i + 1, false)
    }
}

/// The first `n` lines, each trimmed, without those that are blank.
pub open spec fn solid_lines(lines: Seq<Seq<char>>, n: int) -> Seq<Seq<char>>
    decreases n,
{
    if n <= 0 {
        Seq::empty()
    } else if is_blank(lines[n - 1]) {
        solid_lines(lines, n - 1)
    } else {
        solid_lines(lines, n - 1).push(trimmed(lines[n - 1]))
    }
}

/// The commentary of a quote block: its text without the mantra markers, the
/// lines trimmed and joined by single spaces, blank ones left out, and
/// without a leading `- `.
pub open spec fn commentary_of(paragraph: Seq<char>) -> Seq<char> {
    let lines = lines_of(unmarked(paragraph, 0, false));
    let flat = joined(solid_lines(lines, lines.len() as int), " "@);
    match without_prefix(flat, "- "@) {
        Some(rest) => rest,
        None => flat,
    }
}

/// Says of each character of `s` whether it is alphanumeric.
pub fn alphanumeric_mask(s: &Vec<char>) -> (r: Vec<bool>)
    ensures
        r@ == alnum_mask(s@),
{
    let mut r: Vec<bool> = Vec::new();
    let mut i: usize = 0;
    while i < s.len()
        invariant
            i <= s@.len(),
            r@.len() == i,
            forall|k: int| 0 <= k < i ==> r@[k] == is_alphanumeric(s@[k]),
        decreases s@.len() - i,
    {
        r.push(alphanumeric(s[i]));
        i += 1;
    }
    assert(r@ =~= alnum_mask(s@));
    r
}

/// Whether `a` and `b` stand at `i` and `i + 1`.
pub fn has_pair(s: &Vec<char>, i: usize, a: char, b: char) -> (r: bool)
    ensures
        r == pair_at(s@, i as int, a, b),
{
    i < s.len() && s.len() - i > 1 && s[i] == a && s[i + 1] == b
}

/// Whether `**^` stands at `i`.
pub fn marker_at(s: &Vec<char>, i: usize) -> (r: bool)
    ensures
        r == starts_marker(s@, i as int),
{
    has_pair(s, i, '*', '*') && s.len() - i > 2 && s[i + 2] == '^'
}

/// The first index at or after `from` that holds `c`, or the length.
pub fn seek(s: &Vec<char>, c: char, from: usize) -> (r: usize)
    requires
        from <= s@.len(),
    ensures
        r == next_char(s@, c, from as int),
        from <= r <= s@.len(),
{
    let mut i: usize = from;
    while i < s.len() && s[i] != c
        invariant
            from <= i <= s@.len(),
            next_char(s@, c, from as int) == next_char(s@, c, i as int),
        decreases s@.len() - i,
    {
        i += 1;
    }
    i
}

/// The text of the marker that opens at `i`, and the index behind the marker.
pub fn read_marker(s: &Vec<char>, i: usize) -> (r: (Vec<char>, usize))
    requires
        starts_marker(s@, i as int),
    ensures
        r.0@ == marker_text(s@, i as int),
        r.1 == marker_end(s@, i as int),
        i + 3 <= r.1 <= s@.len(),
{
    let n = s.len();
    assert(i + 3 <= n);
    let close = seek(s, '^', i + 3);
    let inner = slice(s, i + 3, close);
    let text = trim(&inner);
    let end: usize = if close >= s.len() {
        s.len()
    } else if has_pair(s, close + 1, '*', '*') {
        close + 3
    } else if s.len() - close > 1 && s[close + 1] == '*' {
        close + 2
    } else {
        close + 1
    };
    (text, end)
}

/// The mantra that a line defines, if it defines one.
pub fn line_subject(line: &Vec<char>) -> (r: Option<Vec<char>>)
    ensures
        match r {
            Some(t) => subject_of(line@) == Some(t@),
            None => subject_of(line@).is_none(),
        },
{
    if marker_at(line, 0) {
        let m = read_marker(line, 0);
        if m.0.len() > 0 {
            return Some(m.0);
        }
    }
    None
}

/// The mantras that the text of a quote block defines.
pub fn subjects(paragraph: &Vec<char>) -> (r: Vec<Vec<char>>)
    ensures
        texts(r@) == subjects_of(paragraph@),
{
    let lines = split_lines(paragraph);
    let mut r: Vec<Vec<char>> = Vec::new();
    let mut i: usize = 0;
    assert(texts(r@) =~= Seq::<Seq<char>>::empty());
    while i < lines.len()
        invariant
            i <= lines@.len(),
            texts(lines@) == lines_of(paragraph@),
            texts(r@) == subjects_upto(texts(lines@), i as int),
        decreases lines@.len() - i,
    {
        assert(texts(lines@)[i as int] == lines@[i as int]@);
        let ghost before = texts(r@);
        match line_subject(&lines[i]) {
            Some(t) => {
                r.push(t);
                assert(texts(r@) =~= before.push(t@));
            },
            None => {},
        }
        i += 1;
    }
    r
}

/// The step of the scan at `i`.
pub fn next_token(s: &Vec<char>, mask: &Vec<bool>, markers: bool, i: usize, ticked: bool) -> (r: (
    usize,
    bool,
    Option<Reference>,
))
    requires
        i < s@.len(),
        mask@.len() == s@.len(),
    ensures
        r.0 == token(s@, mask@, markers, i as int, ticked).next,
        r.1 == token(s@, mask@, markers, i as int, ticked).ticked,
        opt_reference(r.2) == token(s@, mask@, markers, i as int, ticked).found,
        i < r.0 <= s@.len(),
{
    proof {
        lemma_token_advances(s@, mask@, markers, i as int, ticked);
    }
    let n = s.len();
    assert(i < n);
    if s[i] == '`' {
        return (i + 1, !ticked, None);
    }
    if ticked {
        return (i + 1, true, None);
    }
    if markers && marker_at(s, i) {
        let m = read_marker(s, i);
        return (m.1, false, None);
    }
    if markers && has_pair(s, i, '*', '*') {
        return (i + 2, false, None);
    }
    if !has_pair(s, i, '_', '|') {
        return (i + 1, false, None);
    }
    let mut close: usize = i + 2;
    while close < s.len() && !has_pair(s, close, '|', '_')
        invariant
            i + 2 <= close <= s@.len(),
            reference_close(s@, i + 2) == reference_close(s@, close as int),
        decreases s@.len() - close,
    {
        close += 1;
    }
    let inner = slice(s, i + 2, close);
    let text = trim(&inner);
    let after: usize = if close < s.len() {
        close + 2
    } else {
        s.len()
    };
    if text.len() == 0 {
        return (after, false, None);
    }
    if after < s.len() && s[after] == '@' {
        let mut e: usize = after + 1;
        while e < s.len() && (mask[e] || s[e] == '-' || s[e] == '_')
            invariant
                after + 1 <= e <= s@.len(),
                mask@.len() == s@.len(),
                alias_end(s@, mask@, after + 1) == alias_end(s@, mask@, e as int),
            decreases s@.len() - e,
        {
            e += 1;
        }
        let alias = slice(s, after + 1, e);
        let shastra = if alias.len() > 0 {
            Some(alias)
        } else {
            None
        };
        return (e, false, Some(Reference { text, shastra }));
    }
    (after, false, Some(Reference { text, shastra: None }))
}

/// The references of a line, given for each of its characters whether it is
/// alphanumeric.
pub fn scan_references(s: &Vec<char>, mask: &Vec<bool>, markers: bool) -> (r: Vec<Reference>)
    requires
        mask@.len() == s@.len(),
    ensures
        reference_views(r@) == references_in(s@, mask@, markers),
{
    let mut r: Vec<Reference> = Vec::new();
    let mut i: usize = 0;
    let mut ticked = false;
    assert(reference_views(r@) =~= Seq::<ReferenceView>::empty());
    while i < s.len()
        invariant
            i <= s@.len(),
            mask@.len() == s@.len(),
            references_in(s@, mask@, markers) == reference_views(r@) + scan(
                s@,
                mask@,
                markers,
                i as int,
                ticked,
            ),
        decreases s@.len() - i,
    {
        let t = next_token(s, mask, markers, i, ticked);
        let ghost before = reference_views(r@);
        let ghost rest = scan(s@, mask@, markers, t.0 as int, t.1);
        match t.2 {
            Some(found) => {
                let ghost fv = found@;
                r.push(found);
                assert(reference_views(r@) =~= before.push(fv));
                assert(before.push(fv) + rest =~= before + (seq![fv] + rest));
            },
            None => {},
        }
        i = t.0;
        ticked = t.1;
    }
    assert(reference_views(r@) + Seq::<ReferenceView>::empty() =~= reference_views(r@));
    r
}

/// The references of a line, in their order.
pub fn find_references(s: &Vec<char>, markers: bool) -> (r: Vec<Reference>)
    ensures
        reference_views(r@) == references_in(s@, alnum_mask(s@), markers),
{
    let mask = alphanumeric_mask(s);
    scan_references(s, &mask, markers)
}

/// `s` without its mantra markers.
pub fn strip_markers(s: &Vec<char>) -> (r: Vec<char>)
    ensures
        r@ == unmarked(s@, 0, false),
{
    let mut r: Vec<char> = Vec::new();
    let mut i: usize = 0;
    let mut inside = false;
    while i < s.len()
        invariant
            i <= s@.len(),
            unmarked(s@, 0, false) == r@ + unmarked(s@, i as int, inside),
        decreases s@.len() - i,
    {
        if !inside && marker_at(s, i) {
            i += 3;
            inside = true;
        } else if inside && s[i] == '^' {
            if has_pair(s, i + 1, '*', '*') {
                i += 3;
            } else {
                i += 1;
            }
            inside = false;
        } else if inside {
            i += 1;
        } else {
            let ghost before = r@;
            let ghost rest = unmarked(s@, i + 1, false);
            r.push(s[i]);
            assert(before.push(s@[i as int]) + rest =~= before + (seq![s@[i as int]] + rest));
            i += 1;
        }
    }
    assert(r@ + Seq::<char>::empty() =~= r@);
    r
}

/// The commentary of a quote block, given its text.
pub fn commentary(paragraph: &Vec<char>) -> (r: Vec<char>)
    ensures
        r@ == commentary_of(paragraph@),
{
    let bare = strip_markers(paragraph);
    let lines = split_lines(&bare);
    let mut kept: Vec<Vec<char>> = Vec::new();
    let mut i: usize = 0;
    assert(texts(kept@) =~= Seq::<Seq<char>>::empty());
    while i < lines.len()
        invariant
            i <= lines@.len(),
            texts(kept@) == solid_lines(texts(lines@), i as int),
        decreases lines@.len() - i,
    {
        assert(texts(lines@)[i as int] == lines@[i as int]@);
        if !blank(&lines[i]) {
            let ghost before = texts(kept@);
            let t = trim(&lines[i]);
            kept.push(t);
            assert(texts(kept@) =~= before.push(t@));
        }
        i += 1;
    }
    assert(texts(lines@).len() == lines@.len());
    let space = chars_of(" ");
    let flat = join(&kept, &space);
    let dash = chars_of("- ");
    match strip_prefix(&flat, &dash) {
        Some(rest) => rest,
        None => flat,
    }
}

} // verus!
