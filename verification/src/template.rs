//! Templated mantras. A mantra whose text holds a placeholder, `{name}` or
//! `{name=example}`, stands for every text that fills the placeholders in.
//! From the template a pattern is made: literal pieces that a reference has
//! to repeat, and between them capture points that take whatever the
//! reference says there.

use crate::scan::{lemma_next_char_bounds, next_char, seek};
use crate::text::{chars_of, find, find_from, matches_at, occurs_at, same_text, slice, string_of};
use vstd::prelude::*;

verus! {

/// A placeholder opens at `i`: a `{` with a `}` somewhere after it.
pub open spec fn placeholder_at(t: Seq<char>, i: int) -> bool {
    0 <= i < t.len() && t[i] == '{' && next_char(t, '}', i + 1) < t.len()
}

/// The index behind the placeholder that opens at `i`.
pub open spec fn placeholder_end(t: Seq<char>, i: int) -> int {
    next_char(t, '}', i + 1) + 1
}

/// What stands between the braces of the placeholder that opens at `i`.
pub open spec fn inner_of(t: Seq<char>, i: int) -> Seq<char> {
    t.subrange(i + 1, placeholder_end(t, i) - 1)
}

/// The name of a placeholder: what stands before its first `=`.
pub open spec fn name_of(inner: Seq<char>) -> Seq<char> {
    inner.subrange(0, next_char(inner, '=', 0))
}

/// The example of a placeholder: what stands behind its first `=`; empty
/// where it has none.
pub open spec fn example_of(inner: Seq<char>) -> Seq<char> {
    let e = next_char(inner, '=', 0);
    if 0 <= e < inner.len() {
        inner.subrange(e + 1, inner.len() as int)
    } else {
        Seq::empty()
    }
}

/// The first index at or after `i` where a placeholder opens, or the length.
pub open spec fn next_open(t: Seq<char>, i: int) -> int
    decreases t.len() - i,
{
    if 0 <= i < t.len() && !placeholder_at(t, i) {
        next_open(t, i + 1)
    } else {
        i
    }
}

/// A text is a template if a placeholder opens somewhere in it.
pub open spec fn is_template(t: Seq<char>) -> bool {
    exists|i: int| placeholder_at(t, i)
}

/// The examples of the placeholders from `i` on, each with the name of its
/// placeholder; a placeholder without an example gives none.
pub open spec fn examples_from(t: Seq<char>, i: int) -> Seq<(Seq<char>, Seq<char>)>
    decreases t.len() - i,
    via examples_decreases
{
    if i < 0 || i >= t.len() {
        Seq::empty()
    } else if placeholder_at(t, i) {
        let inner = inner_of(t, i);
        let rest = examples_from(t, placeholder_end(t, i));
        if example_of(inner).len() > 0 {
            seq![(example_of(inner), name_of(inner))] + rest
        } else {
            rest
        }
    } else {
        examples_from(t, i + 1)
    }
}

#[via_fn]
proof fn examples_decreases(t: Seq<char>, i: int) {
    if 0 <= i < t.len() {
        lemma_next_char_bounds(t, '}', i + 1);
    }
}

/// The first of the examples from `k` on that stands in `t` at `i` and ends
/// at or before `limit`.
pub open spec fn echo_from(
    t: Seq<char>,
    ex: Seq<(Seq<char>, Seq<char>)>,
    i: int,
    limit: int,
    k: int,
) -> Option<int>
    decreases ex.len() - k,
{
    if k < 0 || k >= ex.len() {
        None
    } else if ex[k].0.len() > 0 && i + ex[k].0.len() <= limit && occurs_at(t, ex[k].0, i) {
        Some(k)
    } else {
        echo_from(t, ex, i, limit, k + 1)
    }
}

/// A capture point: the placeholder it belongs to, by name, and the text
/// that the template itself holds there.
pub struct CaptureView {
    pub name: Seq<char>,
    pub own: Seq<char>,
}

/// A pattern: `points.len() + 1` literal pieces with a capture point between
/// each two.
pub struct PatternView {
    pub lits: Seq<Seq<char>>,
    pub points: Seq<CaptureView>,
}

/// The pattern that starts with the literal `lit`, then has the point `c`,
/// then goes on as `rest`.
pub open spec fn prepend(lit: Seq<char>, c: CaptureView, rest: PatternView) -> PatternView {
    PatternView { lits: seq![lit] + rest.lits, points: seq![c] + rest.points }
}

/// The pattern of `t[ls..]`, where `t[ls..i]` is known to be literal. A
/// placeholder is a capture point. So is, in the text between placeholders,
/// each place where the example of a placeholder stands once more: it
/// belongs to that placeholder. Everything else is literal.
pub open spec fn synth(t: Seq<char>, ex: Seq<(Seq<char>, Seq<char>)>, i: int, ls: int) -> PatternView
    decreases t.len() - i,
    via synth_decreases
{
    if i < 0 || i >= t.len() {
        PatternView { lits: seq![t.subrange(ls, t.len() as int)], points: Seq::empty() }
    } else if placeholder_at(t, i) {
        let end = placeholder_end(t, i);
        prepend(
            t.subrange(ls, i),
            CaptureView { name: name_of(inner_of(t, i)), own: t.subrange(i, end) },
            synth(t, ex, end, end),
        )
    } else {
        match echo_from(t, ex, i, next_open(t, i), 0) {
            Some(k) => prepend(
                t.subrange(ls, i),
                CaptureView { name: ex[k].1, own: ex[k].0 },
                synth(t, ex, i + ex[k].0.len(), i + ex[k].0.len()),
            ),
            None => synth(t, ex, i + 1, ls),
        }
    }
}

#[via_fn]
proof fn synth_decreases(t: Seq<char>, ex: Seq<(Seq<char>, Seq<char>)>, i: int, ls: int) {
    if 0 <= i < t.len() {
        lemma_next_char_bounds(t, '}', i + 1);
        lemma_next_open_bounds(t, i);
        lemma_echo_from(t, ex, i, next_open(t, i), 0);
    }
}

/// The pattern of a template.
pub open spec fn pattern_of(t: Seq<char>) -> PatternView {
    synth(t, examples_from(t, 0), 0, 0)
}

pub proof fn lemma_next_open_bounds(t: Seq<char>, i: int)
    requires
        0 <= i <= t.len(),
    ensures
        i <= next_open(t, i) <= t.len(),
        next_open(t, i) < t.len() ==> placeholder_at(t, next_open(t, i)),
        forall|j: int| i <= j < next_open(t, i) ==> !placeholder_at(t, j),
    decreases t.len() - i,
{
    if i < t.len() && !placeholder_at(t, i) {
        lemma_next_open_bounds(t, i + 1);
    }
}

pub proof fn lemma_echo_from(t: Seq<char>, ex: Seq<(Seq<char>, Seq<char>)>, i: int, limit: int, k: int)
    requires
        0 <= k,
    ensures
        match echo_from(t, ex, i, limit, k) {
            Some(j) => k <= j < ex.len() && ex[j].0.len() > 0 && i + ex[j].0.len() <= limit
                && occurs_at(t, ex[j].0, i),
            None => true,
        },
    decreases ex.len() - k,
{
    if k < ex.len() && !(ex[k].0.len() > 0 && i + ex[k].0.len() <= limit && occurs_at(
        t,
        ex[k].0,
        i,
    )) {
        lemma_echo_from(t, ex, i, limit, k + 1);
    }
}

/// What the points `k..` capture of `r[pos..]`, each as little as can be:
/// a point takes the text up to the first place where the literal behind it
/// stands, and the last point takes the text up to the closing literal, which
/// has to end `r`.
pub open spec fn lazy_from(lits: Seq<Seq<char>>, k: int, r: Seq<char>, pos: int) -> Option<
    Seq<Seq<char>>,
>
    decreases lits.len() - k,
{
    let n = lits.len() - 1;
    if k < 0 || k >= n {
        None
    } else if k == n - 1 {
        let end = r.len() - lits[n].len();
        if pos <= end && occurs_at(r, lits[n], end) {
            Some(seq![r.subrange(pos, end)])
        } else {
            None
        }
    } else {
        match find_from(r, lits[k + 1], pos) {
            Some(j) => match lazy_from(lits, k + 1, r, j + lits[k + 1].len()) {
                Some(rest) => Some(seq![r.subrange(pos, j)] + rest),
                None => None,
            },
            None => None,
        }
    }
}

/// What the capture points of a pattern with the literals `lits` take of
/// `r`, or `None` where `r` does not repeat the literals in their order from
/// its first character to its last.
pub open spec fn lazy_captures(lits: Seq<Seq<char>>, r: Seq<char>) -> Option<Seq<Seq<char>>> {
    if lits.len() == 0 {
        None
    } else if lits.len() == 1 {
        if r == lits[0] {
            Some(Seq::empty())
        } else {
            None
        }
    } else if occurs_at(r, lits[0], 0) {
        lazy_from(lits, 0, r, lits[0].len() as int)
    } else {
        None
    }
}

/// The capture `k` repeats the template's own text: it says nothing.
pub open spec fn is_echo(p: PatternView, caps: Seq<Seq<char>>, k: int) -> bool {
    caps[k] == p.points[k].own
}

/// Two captures of one placeholder that both say something say the same.
pub open spec fn consistent(p: PatternView, caps: Seq<Seq<char>>) -> bool {
    forall|i: int, j: int|
        0 <= i < j < p.points.len() && p.points[i].name == p.points[j].name && !is_echo(
            p,
            caps,
            i,
        ) && !is_echo(p, caps, j) ==> caps[i] == caps[j]
}

/// What a reference captures of a template, if it matches it: the reference
/// repeats the literal pieces of the pattern from end to end, and the
/// captures are consistent.
pub open spec fn captures_of(t: Seq<char>, r: Seq<char>) -> Option<Seq<Seq<char>>> {
    match lazy_captures(pattern_of(t).lits, r) {
        Some(caps) => if consistent(pattern_of(t), caps) {
            Some(caps)
        } else {
            None
        },
        None => None,
    }
}

/// Whether a reference matches a template.
pub open spec fn matches_template(t: Seq<char>, r: Seq<char>) -> bool {
    captures_of(t, r).is_some()
}

/// A capture before `k` of the same placeholder says something.
pub open spec fn valued_before(p: PatternView, caps: Seq<Seq<char>>, k: int) -> bool {
    exists|j: int| 0 <= j < k && p.points[j].name == p.points[k].name && !is_echo(p, caps, j)
}

/// The values that the first `n` captures give: for each placeholder its
/// name with the first capture that says something.
pub open spec fn values_upto(p: PatternView, caps: Seq<Seq<char>>, n: int) -> Seq<
    (Seq<char>, Seq<char>),
>
    decreases n,
{
    if n <= 0 {
        Seq::empty()
    } else if !is_echo(p, caps, n - 1) && !valued_before(p, caps, n - 1) {
        values_upto(p, caps, n - 1).push((p.points[n - 1].name, caps[n - 1]))
    } else {
        values_upto(p, caps, n - 1)
    }
}

/// The values that a reference gives to the placeholders of a template.
pub open spec fn values_of(t: Seq<char>, r: Seq<char>) -> Option<Seq<(Seq<char>, Seq<char>)>> {
    match captures_of(t, r) {
        Some(caps) => Some(values_upto(pattern_of(t), caps, caps.len() as int)),
        None => None,
    }
}

/// Whether the reference `r` means the mantra `m`: a template is matched,
/// any other mantra is repeated word for word.
pub open spec fn answers(m: Seq<char>, r: Seq<char>) -> bool {
    if is_template(m) {
        matches_template(m, r)
    } else {
        m == r
    }
}

/// A capture point.
#[derive(Debug, PartialEq, Eq)]
pub struct Capture {
    pub name: Vec<char>,
    pub own: Vec<char>,
}

impl View for Capture {
    type V = CaptureView;

    open spec fn view(&self) -> CaptureView {
        CaptureView { name: self.name@, own: self.own@ }
    }
}

/// The pattern of a template.
#[derive(Debug, PartialEq, Eq)]
pub struct Pattern {
    pub lits: Vec<Vec<char>>,
    pub points: Vec<Capture>,
}

pub open spec fn text_views(v: Seq<Vec<char>>) -> Seq<Seq<char>> {
    v.map_values(|t: Vec<char>| t@)
}

pub open spec fn capture_views(v: Seq<Capture>) -> Seq<CaptureView> {
    v.map_values(|c: Capture| c@)
}

pub open spec fn text_pairs(v: Seq<(Vec<char>, Vec<char>)>) -> Seq<(Seq<char>, Seq<char>)> {
    v.map_values(|e: (Vec<char>, Vec<char>)| (e.0@, e.1@))
}

pub open spec fn string_pairs(v: Seq<(String, String)>) -> Seq<(Seq<char>, Seq<char>)> {
    v.map_values(|e: (String, String)| (e.0@, e.1@))
}

impl View for Pattern {
    type V = PatternView;

    open spec fn view(&self) -> PatternView {
        PatternView { lits: text_views(self.lits@), points: capture_views(self.points@) }
    }
}

/// The index behind the placeholder that opens at `i`, if one opens there.
pub fn placeholder_close(t: &Vec<char>, i: usize) -> (r: Option<usize>)
    requires
        i < t@.len(),
    ensures
        match r {
            Some(e) => placeholder_at(t@, i as int) && e == placeholder_end(t@, i as int) && i + 2
                <= e <= t@.len(),
            None => !placeholder_at(t@, i as int),
        },
{
    let n = t.len();
    if t[i] != '{' {
        return None;
    }
    let c = seek(t, '}', i + 1);
    if c < n {
        Some(c + 1)
    } else {
        None
    }
}

/// Name and example of a placeholder, given what stands between its braces.
pub fn name_and_example(inner: &Vec<char>) -> (r: (Vec<char>, Vec<char>))
    ensures
        r.0@ == name_of(inner@),
        r.1@ == example_of(inner@),
{
    let e = seek(inner, '=', 0);
    let name = slice(inner, 0, e);
    let example = if e < inner.len() {
        slice(inner, e + 1, inner.len())
    } else {
        Vec::new()
    };
    (name, example)
}

/// Whether a text is a template.
pub fn has_placeholder(t: &Vec<char>) -> (r: bool)
    ensures
        r == is_template(t@),
{
    let mut i: usize = 0;
    while i < t.len()
        invariant
            i <= t@.len(),
            forall|j: int| 0 <= j < i ==> !placeholder_at(t@, j),
        decreases t@.len() - i,
    {
        if placeholder_close(t, i).is_some() {
            return true;
        }
        i += 1;
    }
    false
}

/// The examples of the placeholders of `t`, each with its placeholder's name.
pub fn examples(t: &Vec<char>) -> (r: Vec<(Vec<char>, Vec<char>)>)
    ensures
        text_pairs(r@) == examples_from(t@, 0),
{
    let mut r: Vec<(Vec<char>, Vec<char>)> = Vec::new();
    let mut i: usize = 0;
    assert(text_pairs(r@) =~= Seq::empty());
    while i < t.len()
        invariant
            i <= t@.len(),
            examples_from(t@, 0) == text_pairs(r@) + examples_from(t@, i as int),
        decreases t@.len() - i,
    {
        match placeholder_close(t, i) {
            Some(e) => {
                let inner = slice(t, i + 1, e - 1);
                let ne = name_and_example(&inner);
                if ne.1.len() > 0 {
                    let ghost before = text_pairs(r@);
                    let ghost rest = examples_from(t@, e as int);
                    let ghost item = (ne.1@, ne.0@);
                    r.push((ne.1, ne.0));
                    assert(text_pairs(r@) =~= before.push(item));
                    assert(before.push(item) + rest =~= before + (seq![item] + rest));
                }
                i = e;
            },
            None => {
                i += 1;
            },
        }
    }
    assert(text_pairs(r@) + Seq::empty() =~= text_pairs(r@));
    r
}

/// The first index at or after `i` where a placeholder opens, or the length.
pub fn seek_open(t: &Vec<char>, i: usize) -> (r: usize)
    requires
        i <= t@.len(),
    ensures
        r == next_open(t@, i as int),
        i <= r <= t@.len(),
{
    let mut j: usize = i;
    while j < t.len()
        invariant
            i <= j <= t@.len(),
            next_open(t@, i as int) == next_open(t@, j as int),
        decreases t@.len() - j,
    {
        if placeholder_close(t, j).is_some() {
            return j;
        }
        j += 1;
    }
    j
}

/// The first of the examples that stands in `t` at `i` and ends at or before
/// `limit`.
pub fn echo_at(t: &Vec<char>, ex: &Vec<(Vec<char>, Vec<char>)>, i: usize, limit: usize) -> (r:
    Option<usize>)
    requires
        i <= limit <= t@.len(),
    ensures
        match r {
            Some(k) => echo_from(t@, text_pairs(ex@), i as int, limit as int, 0) == Some(k as int)
                && k < ex@.len() && ex@[k as int].0@.len() > 0 && i + ex@[k as int].0@.len()
                <= limit,
            None => echo_from(t@, text_pairs(ex@), i as int, limit as int, 0).is_none(),
        },
{
    let mut k: usize = 0;
    while k < ex.len()
        invariant
            k <= ex@.len(),
            i <= limit <= t@.len(),
            echo_from(t@, text_pairs(ex@), i as int, limit as int, 0) == echo_from(
                t@,
                text_pairs(ex@),
                i as int,
                limit as int,
                k as int,
            ),
        decreases ex@.len() - k,
    {
        assert(text_pairs(ex@)[k as int] == (ex@[k as int].0@, ex@[k as int].1@));
        let e = &ex[k].0;
        if e.len() > 0 && e.len() <= limit - i && matches_at(t, e, i) {
            return Some(k);
        }
        k += 1;
    }
    None
}

/// Makes the pattern of a template.
pub fn synthesize(t: &Vec<char>) -> (r: Pattern)
    ensures
        r@ == pattern_of(t@),
        r.lits@.len() == r.points@.len() + 1,
{
    let ex = examples(t);
    let mut lits: Vec<Vec<char>> = Vec::new();
    let mut points: Vec<Capture> = Vec::new();
    let mut i: usize = 0;
    let mut ls: usize = 0;
    assert(text_views(lits@) =~= Seq::empty());
    assert(capture_views(points@) =~= Seq::empty());
    while i < t.len()
        invariant
            ls <= i <= t@.len(),
            text_pairs(ex@) == examples_from(t@, 0),
            lits@.len() == points@.len(),
            pattern_of(t@).lits == text_views(lits@) + synth(
                t@,
                text_pairs(ex@),
                i as int,
                ls as int,
            ).lits,
            pattern_of(t@).points == capture_views(points@) + synth(
                t@,
                text_pairs(ex@),
                i as int,
                ls as int,
            ).points,
        decreases t@.len() - i,
    {
        let ghost lits_before = text_views(lits@);
        let ghost points_before = capture_views(points@);
        match placeholder_close(t, i) {
            Some(e) => {
                let inner = slice(t, i + 1, e - 1);
                let ne = name_and_example(&inner);
                let lit = slice(t, ls, i);
                let c = Capture { name: ne.0, own: slice(t, i, e) };
                let ghost rest = synth(t@, text_pairs(ex@), e as int, e as int);
                let ghost cv = c@;
                lits.push(lit);
                points.push(c);
                assert(text_views(lits@) =~= lits_before.push(lit@));
                assert(capture_views(points@) =~= points_before.push(cv));
                assert(lits_before.push(lit@) + rest.lits =~= lits_before + (seq![lit@] + rest.lits));
                assert(points_before.push(cv) + rest.points =~= points_before + (seq![cv]
                    + rest.points));
                i = e;
                ls = e;
            },
            None => {
                let limit = seek_open(t, i);
                match echo_at(t, &ex, i, limit) {
                    Some(k) => {
                        assert(text_pairs(ex@)[k as int] == (ex@[k as int].0@, ex@[k as int].1@));
                        let own = slice(&ex[k].0, 0, ex[k].0.len());
                        let name = slice(&ex[k].1, 0, ex[k].1.len());
                        assert(own@ == ex@[k as int].0@);
                        assert(name@ == ex@[k as int].1@);
                        let lit = slice(t, ls, i);
                        let e = i + own.len();
                        let c = Capture { name, own };
                        let ghost rest = synth(t@, text_pairs(ex@), e as int, e as int);
                        let ghost cv = c@;
                        lits.push(lit);
                        points.push(c);
                        assert(text_views(lits@) =~= lits_before.push(lit@));
                        assert(capture_views(points@) =~= points_before.push(cv));
                        assert(lits_before.push(lit@) + rest.lits =~= lits_before + (seq![lit@]
                            + rest.lits));
                        assert(points_before.push(cv) + rest.points =~= points_before + (seq![cv]
                            + rest.points));
                        i = e;
                        ls = e;
                    },
                    None => {
                        i += 1;
                    },
                }
            },
        }
    }
    let ghost lits_before = text_views(lits@);
    let last = slice(t, ls, t.len());
    lits.push(last);
    assert(text_views(lits@) =~= lits_before + seq![last@]);
    assert(capture_views(points@) + Seq::empty() =~= capture_views(points@));
    Pattern { lits, points }
}

/// What the capture points take of `r`, each as little as can be.
pub fn capture(lits: &Vec<Vec<char>>, r: &Vec<char>) -> (caps: Option<Vec<Vec<char>>>)
    ensures
        match caps {
            Some(c) => lazy_captures(text_views(lits@), r@) == Some(text_views(c@)) && c@.len() + 1
                == lits@.len(),
            None => lazy_captures(text_views(lits@), r@).is_none(),
        },
{
    let ghost lv = text_views(lits@);
    if lits.len() == 0 {
        return None;
    }
    assert(lv[0] == lits@[0]@);
    if lits.len() == 1 {
        if same_text(r, &lits[0]) {
            let c: Vec<Vec<char>> = Vec::new();
            assert(text_views(c@) =~= Seq::empty());
            return Some(c);
        }
        return None;
    }
    if !matches_at(r, &lits[0], 0) {
        return None;
    }
    let n: usize = lits.len() - 1;
    let rn: usize = r.len();
    let mut caps: Vec<Vec<char>> = Vec::new();
    let mut pos: usize = lits[0].len();
    let mut k: usize = 0;
    assert(text_views(caps@) =~= Seq::empty());
    while k < n - 1
        invariant
            lv == text_views(lits@),
            n + 1 == lits@.len(),
            k <= n - 1,
            caps@.len() == k,
            pos <= r@.len(),
            rn == r@.len(),
            lazy_captures(lv, r@) == match lazy_from(lv, k as int, r@, pos as int) {
                Some(rest) => Some(text_views(caps@) + rest),
                None => None,
            },
        decreases n - k,
    {
        assert(lv[k + 1] == lits@[k + 1]@);
        match find(r, &lits[k + 1], pos) {
            Some(j) => {
                let ghost before = text_views(caps@);
                let piece = slice(r, pos, j);
                caps.push(piece);
                assert(text_views(caps@) =~= before.push(piece@));
                let ghost next = lazy_from(lv, k + 1, r@, j + lv[k + 1].len());
                assert(next.is_some() ==> before.push(piece@) + next.unwrap() =~= before + (
                seq![piece@] + next.unwrap()));
                pos = j + lits[k + 1].len();
                k += 1;
            },
            None => {
                return None;
            },
        }
    }
    assert(lv[n as int] == lits@[n as int]@);
    let tail = &lits[n];
    if tail.len() > r.len() || pos > r.len() - tail.len() {
        return None;
    }
    let end: usize = r.len() - tail.len();
    if !matches_at(r, tail, end) {
        return None;
    }
    let ghost before = text_views(caps@);
    let piece = slice(r, pos, end);
    caps.push(piece);
    assert(text_views(caps@) =~= before + seq![piece@]);
    Some(caps)
}

/// Whether the captures are consistent.
pub fn check_consistent(p: &Pattern, caps: &Vec<Vec<char>>) -> (r: bool)
    requires
        caps@.len() == p.points@.len(),
    ensures
        r == consistent(p@, text_views(caps@)),
{
    let ghost pv = p@;
    let ghost cv = text_views(caps@);
    let n = caps.len();
    let mut j: usize = 0;
    while j < n
        invariant
            j <= n,
            n == caps@.len(),
            n == p.points@.len(),
            pv == p@,
            cv == text_views(caps@),
            forall|a: int, b: int|
                0 <= a < b < j && pv.points[a].name == pv.points[b].name && !is_echo(pv, cv, a)
                    && !is_echo(pv, cv, b) ==> cv[a] == cv[b],
        decreases n - j,
    {
        assert(pv.points[j as int] == p.points@[j as int]@);
        assert(cv[j as int] == caps@[j as int]@);
        if !same_text(&caps[j], &p.points[j].own) {
            let mut i: usize = 0;
            while i < j
                invariant
                    i <= j < n,
                    n == caps@.len(),
                    n == p.points@.len(),
                    pv == p@,
                    cv == text_views(caps@),
                    !is_echo(pv, cv, j as int),
                    forall|a: int|
                        0 <= a < i && pv.points[a].name == pv.points[j as int].name && !is_echo(
                            pv,
                            cv,
                            a,
                        ) ==> cv[a] == cv[j as int],
                decreases j - i,
            {
                assert(pv.points[i as int] == p.points@[i as int]@);
                assert(cv[i as int] == caps@[i as int]@);
                if same_text(&p.points[i].name, &p.points[j].name) && !same_text(
                    &caps[i],
                    &p.points[i].own,
                ) && !same_text(&caps[i], &caps[j]) {
                    assert(!consistent(pv, cv));
                    return false;
                }
                i += 1;
            }
        }
        j += 1;
    }
    true
}

/// The values that the captures give to the placeholders.
pub fn collect_values(p: &Pattern, caps: &Vec<Vec<char>>) -> (r: Vec<(String, String)>)
    requires
        caps@.len() == p.points@.len(),
    ensures
        string_pairs(r@) == values_upto(p@, text_views(caps@), caps@.len() as int),
{
    let ghost pv = p@;
    let ghost cv = text_views(caps@);
    let n = caps.len();
    let mut r: Vec<(String, String)> = Vec::new();
    let mut k: usize = 0;
    assert(string_pairs(r@) =~= Seq::empty());
    while k < n
        invariant
            k <= n,
            n == caps@.len(),
            n == p.points@.len(),
            pv == p@,
            cv == text_views(caps@),
            string_pairs(r@) == values_upto(pv, cv, k as int),
        decreases n - k,
    {
        assert(pv.points[k as int] == p.points@[k as int]@);
        assert(cv[k as int] == caps@[k as int]@);
        if !same_text(&caps[k], &p.points[k].own) {
            let mut seen = false;
            let mut j: usize = 0;
            while j < k
                invariant
                    j <= k < n,
                    n == caps@.len(),
                    n == p.points@.len(),
                    pv == p@,
                    cv == text_views(caps@),
                    seen ==> valued_before(pv, cv, k as int),
                    !seen ==> forall|a: int|
                        0 <= a < j && pv.points[a].name == pv.points[k as int].name
                            ==> #[trigger] is_echo(pv, cv, a),
                decreases k - j,
            {
                assert(pv.points[j as int] == p.points@[j as int]@);
                assert(cv[j as int] == caps@[j as int]@);
                if same_text(&p.points[j].name, &p.points[k].name) && !same_text(
                    &caps[j],
                    &p.points[j].own,
                ) {
                    seen = true;
                    assert(pv.points[j as int].name == pv.points[k as int].name && !is_echo(
                        pv,
                        cv,
                        j as int,
                    ));
                    assert(valued_before(pv, cv, k as int));
                }
                j += 1;
            }
            if !seen {
                let ghost before = string_pairs(r@);
                let name = string_of(&p.points[k].name);
                let value = string_of(&caps[k]);
                r.push((name, value));
                assert(string_pairs(r@) =~= before.push((pv.points[k as int].name, cv[k as int])));
            }
        }
        k += 1;
    }
    r
}

/// Matches a reference against a template. Where it matches, the result
/// holds the value that the reference gives to each placeholder.
pub fn match_template(template: &str, reference: &str) -> (r: Option<Vec<(String, String)>>)
    ensures
        match r {
            Some(v) => values_of(template@, reference@) == Some(string_pairs(v@)),
            None => !matches_template(template@, reference@),
        },
{
    let t = chars_of(template);
    let text = chars_of(reference);
    let p = synthesize(&t);
    match capture(&p.lits, &text) {
        Some(caps) => {
            if check_consistent(&p, &caps) {
                Some(collect_values(&p, &caps))
            } else {
                None
            }
        },
        None => None,
    }
}

/// Whether the reference means the mantra.
pub fn mantra_answers(mantra: &Vec<char>, reference: &Vec<char>) -> (r: bool)
    ensures
        r == answers(mantra@, reference@),
{
    if has_placeholder(mantra) {
        let p = synthesize(mantra);
        match capture(&p.lits, reference) {
            Some(caps) => check_consistent(&p, &caps),
            None => false,
        }
    } else {
        same_text(mantra, reference)
    }
}

} // verus!
