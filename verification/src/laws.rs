//! What holds of the parser, the matcher and the validator whatever they
//! are given: each law is proved from the definitions that the contracts of
//! the functions use.

use crate::findings::{any_error, FindingKind, FindingView, is_error};
use crate::followed::{
    any_other, disagree_upto, pair_seen, PositionView, same_pair, sides_upto, takes_side,
    unresolved_findings, unresolved_step, unresolved_upto,
};
use crate::model::{RepositoryView};
use crate::own_rules::{conflict_findings, duplicate_findings, unexplained_findings};
use crate::parser::corpus_parsed;
use crate::report::all_findings;
use crate::rules::{
    followed, follows, holders, holders_upto, khandita_findings, shastra_anusrit_findings,
    shastra_quote_findings, undefined_findings, undefined_step, undefined_upto,
};
use crate::scan::lemma_next_char_bounds;
use crate::template::{
    echo_from, examples_from, inner_of, lazy_captures, lazy_from, lemma_echo_from,
    lemma_next_open_bounds, name_of, next_open, pattern_of, placeholder_at, placeholder_end,
    prepend, synth, CaptureView, PatternView,
};
use crate::text::{find_from, occurs_at};
use crate::validate::{CacheView, presence, Presence, ShastraView, verdict};
use vstd::prelude::*;

verus! {

/// Reading a corpus is a function of its files and its configuration: two
/// repositories read from the same corpus are the same, and so are their
/// mantras, bhasyas and anusrits taken as sets.
pub proof fn parsing_twice_gives_the_same(
    a: RepositoryView,
    b: RepositoryView,
    files: Seq<(Seq<char>, Seq<char>)>,
    name: Option<Seq<char>>,
    aliases: Seq<(Seq<char>, Seq<char>)>,
)
    requires
        a == corpus_parsed(files, name, aliases),
        b == corpus_parsed(files, name, aliases),
    ensures
        a == b,
        a.mantras.to_set() == b.mantras.to_set(),
        a.bhasyas.to_set() == b.bhasyas.to_set(),
        a.anusrits.to_set() == b.anusrits.to_set(),
{
}

/// The text behind the points from `k` on: each capture with the literal
/// that follows it.
pub open spec fn assembled(lits: Seq<Seq<char>>, k: int, caps: Seq<Seq<char>>) -> Seq<char>
    decreases caps.len(),
{
    if caps.len() == 0 {
        Seq::empty()
    } else {
        caps[0] + lits[k + 1] + assembled(lits, k + 1, caps.drop_first())
    }
}

/// Where `p` is found in `s` from `from` on, it stands.
pub proof fn lemma_find_from(s: Seq<char>, p: Seq<char>, from: int)
    ensures
        match find_from(s, p, from) {
            Some(j) => from <= j && occurs_at(s, p, j),
            None => true,
        },
    decreases s.len() - from,
{
    if !(from < 0 || from + p.len() > s.len()) && !occurs_at(s, p, from) {
        lemma_find_from(s, p, from + 1);
    }
}

proof fn lemma_lazy_from(lits: Seq<Seq<char>>, k: int, r: Seq<char>, pos: int)
    requires
        0 <= pos <= r.len(),
        lazy_from(lits, k, r, pos).is_some(),
    ensures
        lazy_from(lits, k, r, pos).unwrap().len() == lits.len() - 1 - k,
        r.subrange(pos, r.len() as int) == assembled(lits, k, lazy_from(lits, k, r, pos).unwrap()),
    decreases lits.len() - k,
{
    let n = lits.len() - 1;
    let caps = lazy_from(lits, k, r, pos).unwrap();
    if k == n - 1 {
        let end = r.len() - lits[n].len();
        assert(caps.drop_first() =~= Seq::<Seq<char>>::empty());
        assert(assembled(lits, k + 1, caps.drop_first()) =~= Seq::<char>::empty());
        assert(r.subrange(pos, r.len() as int) =~= r.subrange(pos, end) + lits[n] + Seq::<
            char,
        >::empty());
    } else {
        lemma_find_from(r, lits[k + 1], pos);
        let j = find_from(r, lits[k + 1], pos).unwrap();
        let next = j + lits[k + 1].len();
        lemma_lazy_from(lits, k + 1, r, next);
        let rest = lazy_from(lits, k + 1, r, next).unwrap();
        assert(caps == seq![r.subrange(pos, j)] + rest);
        assert(caps.drop_first() =~= rest);
        assert(caps[0] == r.subrange(pos, j));
        assert(r.subrange(pos, r.len() as int) =~= r.subrange(pos, j) + lits[k + 1] + r.subrange(
            next,
            r.len() as int,
        ));
    }
}

/// What the capture points take of a reference, put back between the
/// literal pieces of the pattern, is the reference: there is one capture for
/// each point, and nothing of the reference is lost or made up.
pub proof fn captures_give_back_the_reference(lits: Seq<Seq<char>>, r: Seq<char>)
    requires
        lazy_captures(lits, r).is_some(),
    ensures
        lazy_captures(lits, r).unwrap().len() == lits.len() - 1,
        r == lits[0] + assembled(lits, 0, lazy_captures(lits, r).unwrap()),
{
    if lits.len() == 1 {
        assert(assembled(lits, 0, lazy_captures(lits, r).unwrap()) =~= Seq::<char>::empty());
        assert(r =~= lits[0] + Seq::<char>::empty());
    } else {
        lemma_lazy_from(lits, 0, r, lits[0].len() as int);
        assert(r =~= r.subrange(0, lits[0].len() as int) + r.subrange(
            lits[0].len() as int,
            r.len() as int,
        ));
    }
}

/// `a` and `b` are the same captures, or at the first point where they
/// differ `a` has taken less.
pub open spec fn no_longer(a: Seq<Seq<char>>, b: Seq<Seq<char>>) -> bool
    decreases a.len(),
{
    a.len() == b.len() && (a.len() == 0 || a[0].len() < b[0].len() || (a[0] == b[0] && no_longer(
        a.drop_first(),
        b.drop_first(),
    )))
}

/// What is found from `from` on is the first place: no place at or after
/// `from` where `p` stands comes before it.
pub proof fn lemma_find_first(s: Seq<char>, p: Seq<char>, from: int, q: int)
    requires
        0 <= from <= q,
        occurs_at(s, p, q),
    ensures
        find_from(s, p, from).is_some(),
        from <= find_from(s, p, from).unwrap() <= q,
        occurs_at(s, p, find_from(s, p, from).unwrap()),
    decreases q - from,
{
    if !occurs_at(s, p, from) {
        lemma_find_first(s, p, from + 1, q);
    }
}

proof fn lemma_lazy_least(lits: Seq<Seq<char>>, k: int, r: Seq<char>, pos: int, other: Seq<Seq<char>>)
    requires
        0 <= k < lits.len() - 1,
        0 <= pos <= r.len(),
        other.len() == lits.len() - 1 - k,
        r.subrange(pos, r.len() as int) == assembled(lits, k, other),
    ensures
        lazy_from(lits, k, r, pos).is_some(),
        no_longer(lazy_from(lits, k, r, pos).unwrap(), other),
    decreases lits.len() - k,
{
    let n = lits.len() - 1;
    let c = other[0];
    let lit = lits[k + 1];
    let rest = other.drop_first();
    let tail = assembled(lits, k + 1, rest);
    let whole = r.subrange(pos, r.len() as int);
    assert(whole == c + lit + tail);
    let q = pos + c.len();
    assert(r.len() - pos == c.len() + lit.len() + tail.len());
    assert(r.subrange(q, q + lit.len()) =~= lit) by {
        assert forall|t: int| 0 <= t < lit.len() implies r.subrange(q, q + lit.len())[t] == lit[t] by {
            assert(whole[c.len() + t] == lit[t]);
        }
    }
    assert(r.subrange(pos, q) =~= c) by {
        assert forall|t: int| 0 <= t < c.len() implies r.subrange(pos, q)[t] == c[t] by {
            assert(whole[t] == c[t]);
        }
    }
    assert(r.subrange(q + lit.len(), r.len() as int) =~= tail) by {
        assert forall|t: int| 0 <= t < tail.len() implies r.subrange(
            q + lit.len(),
            r.len() as int,
        )[t] == tail[t] by {
            assert(whole[c.len() + lit.len() + t] == tail[t]);
        }
    }
    if k == n - 1 {
        assert(rest.len() == 0);
        assert(tail.len() == 0);
        let found = lazy_from(lits, k, r, pos).unwrap();
        assert(found[0] == c);
        assert(no_longer(found.drop_first(), other.drop_first()));
    } else {
        lemma_find_first(r, lit, pos, q);
        let j = find_from(r, lit, pos).unwrap();
        let next = j + lit.len();
        if j == q {
            lemma_lazy_least(lits, k + 1, r, next, rest);
            let after = lazy_from(lits, k + 1, r, next).unwrap();
            let found = lazy_from(lits, k, r, pos).unwrap();
            assert(found == seq![r.subrange(pos, j)] + after);
            assert(found.drop_first() =~= after);
            assert(found[0] == c);
        } else {
            let more = r.subrange(next, q + lit.len());
            let wider = rest.update(0, more + rest[0]);
            assert(wider.drop_first() =~= rest.drop_first());
            assert(assembled(lits, k + 1, wider) =~= more + tail);
            assert(r.subrange(next, r.len() as int) =~= more + tail);
            lemma_lazy_least(lits, k + 1, r, next, wider);
            let after = lazy_from(lits, k + 1, r, next).unwrap();
            let found = lazy_from(lits, k, r, pos).unwrap();
            assert(found == seq![r.subrange(pos, j)] + after);
            assert(found[0].len() < c.len());
        }
    }
}

/// The captures are the least that can be taken. Whenever a reference can
/// be cut into the literal pieces of a pattern with something between each
/// two, the reference matches the pattern, and what the capture points take
/// is that cut or a lesser one: at the first point where the two differ, the
/// capture point has taken less.
pub proof fn captures_are_the_least(lits: Seq<Seq<char>>, r: Seq<char>, other: Seq<Seq<char>>)
    requires
        lits.len() >= 1,
        other.len() == lits.len() - 1,
        r == lits[0] + assembled(lits, 0, other),
    ensures
        lazy_captures(lits, r).is_some(),
        no_longer(lazy_captures(lits, r).unwrap(), other),
{
    if lits.len() == 1 {
        assert(r =~= lits[0]);
    } else {
        let first = lits[0].len() as int;
        assert(r.subrange(0, first) =~= lits[0]);
        assert(r.subrange(first, r.len() as int) =~= assembled(lits, 0, other));
        lemma_lazy_least(lits, 0, r, first, other);
    }
}

/// The text that the template itself holds at each capture point.
pub open spec fn owns(points: Seq<CaptureView>) -> Seq<Seq<char>> {
    points.map_values(|c: CaptureView| c.own)
}

proof fn lemma_assembled_shift(first: Seq<char>, lits: Seq<Seq<char>>, k: int, caps: Seq<Seq<char>>)
    requires
        0 <= k,
        k + caps.len() < lits.len(),
    ensures
        assembled(seq![first] + lits, k + 1, caps) == assembled(lits, k, caps),
    decreases caps.len(),
{
    if caps.len() > 0 {
        lemma_assembled_shift(first, lits, k + 1, caps.drop_first());
        assert((seq![first] + lits)[k + 2] == lits[k + 1]);
    }
}

proof fn lemma_prepend_covers(t: Seq<char>, ls: int, i: int, end: int, c: CaptureView, rest: PatternView)
    requires
        0 <= ls <= i <= end <= t.len(),
        c.own == t.subrange(i, end),
        rest.lits.len() == rest.points.len() + 1,
        t.subrange(end, t.len() as int) == rest.lits[0] + assembled(rest.lits, 0, owns(rest.points)),
    ensures
        ({
            let p = prepend(t.subrange(ls, i), c, rest);
            p.lits.len() == p.points.len() + 1 && t.subrange(ls, t.len() as int) == p.lits[0]
                + assembled(p.lits, 0, owns(p.points))
        }),
{
    let p = prepend(t.subrange(ls, i), c, rest);
    let o = owns(p.points);
    assert(o.drop_first() =~= owns(rest.points));
    assert(o[0] == c.own);
    assert(p.lits[1] == rest.lits[0]);
    lemma_assembled_shift(t.subrange(ls, i), rest.lits, 0, owns(rest.points));
    assert(assembled(p.lits, 0, o) == c.own + rest.lits[0] + assembled(
        rest.lits,
        0,
        owns(rest.points),
    ));
    assert(t.subrange(ls, t.len() as int) =~= t.subrange(ls, i) + (t.subrange(i, end) + rest.lits[0]
        + assembled(rest.lits, 0, owns(rest.points)))) by {
        assert(t.subrange(ls, t.len() as int) =~= t.subrange(ls, i) + t.subrange(i, end)
            + t.subrange(end, t.len() as int));
    }
}

proof fn lemma_synth_covers(t: Seq<char>, ex: Seq<(Seq<char>, Seq<char>)>, i: int, ls: int)
    requires
        0 <= ls <= i <= t.len(),
    ensures
        ({
            let p = synth(t, ex, i, ls);
            p.lits.len() == p.points.len() + 1 && t.subrange(ls, t.len() as int) == p.lits[0]
                + assembled(p.lits, 0, owns(p.points))
        }),
    decreases t.len() - i,
{
    let p = synth(t, ex, i, ls);
    if i >= t.len() {
        assert(owns(p.points) =~= Seq::<Seq<char>>::empty());
        assert(t.subrange(ls, t.len() as int) =~= p.lits[0] + Seq::<char>::empty());
    } else if placeholder_at(t, i) {
        lemma_next_char_bounds(t, '}', i + 1);
        let end = placeholder_end(t, i);
        lemma_synth_covers(t, ex, end, end);
        lemma_prepend_covers(
            t,
            ls,
            i,
            end,
            CaptureView { name: name_of(inner_of(t, i)), own: t.subrange(i, end) },
            synth(t, ex, end, end),
        );
    } else {
        lemma_next_open_bounds(t, i);
        lemma_echo_from(t, ex, i, next_open(t, i), 0);
        match echo_from(t, ex, i, next_open(t, i), 0) {
            Some(k) => {
                let end = i + ex[k].0.len();
                lemma_synth_covers(t, ex, end, end);
                lemma_prepend_covers(
                    t,
                    ls,
                    i,
                    end,
                    CaptureView { name: ex[k].1, own: ex[k].0 },
                    synth(t, ex, end, end),
                );
            },
            None => {
                lemma_synth_covers(t, ex, i + 1, ls);
            },
        }
    }
}

/// A template repeats its own pattern: its text is the literal pieces with,
/// between each two, what the template holds at the capture point. So a
/// template, taken as a reference, repeats the literals of its pattern from
/// end to end, and what the capture points take of it is what the template
/// holds there, or less.
pub proof fn template_repeats_its_pattern(t: Seq<char>)
    ensures
        pattern_of(t).lits.len() == pattern_of(t).points.len() + 1,
        t == pattern_of(t).lits[0] + assembled(pattern_of(t).lits, 0, owns(pattern_of(t).points)),
        lazy_captures(pattern_of(t).lits, t).is_some(),
        no_longer(lazy_captures(pattern_of(t).lits, t).unwrap(), owns(pattern_of(t).points)),
{
    lemma_synth_covers(t, examples_from(t, 0), 0, 0);
    assert(t.subrange(0, t.len() as int) =~= t);
    captures_are_the_least(pattern_of(t).lits, t, owns(pattern_of(t).points));
}

/// A followed shastra that defines what a reference means is named among
/// the holders.
pub proof fn holders_name_every_holder(
    aliases: Seq<(Seq<char>, Seq<char>)>,
    entries: Seq<(Seq<char>, ShastraView)>,
    text: Seq<char>,
    n: int,
    i: int,
)
    requires
        0 <= i < n <= aliases.len(),
        follows(aliases, entries, i),
        presence(followed(aliases, entries, i), text).mula,
    ensures
        holders_upto(aliases, entries, text, n).contains(aliases[i].0),
    decreases n,
{
    let h = holders_upto(aliases, entries, text, n);
    if i == n - 1 {
        assert(h[h.len() - 1] == aliases[i].0);
    } else {
        holders_name_every_holder(aliases, entries, text, n - 1, i);
        let prev = holders_upto(aliases, entries, text, n - 1);
        let w = choose|w: int| 0 <= w < prev.len() && prev[w] == aliases[i].0;
        assert(h[w] == aliases[i].0);
    }
}

/// A reference without alias that this shastra does not define and that two
/// or more followed shastras define is ambiguous: the finding is an error
/// and names every one of them.
pub proof fn reference_held_twice_is_ambiguous(
    rv: RepositoryView,
    entries: Seq<(Seq<char>, ShastraView)>,
    i: int,
)
    requires
        0 <= i < rv.anusrits.len(),
        rv.anusrits[i].shastra.is_none(),
        !presence(rv, rv.anusrits[i].mantra_text).mula,
        holders(rv, entries, rv.anusrits[i].mantra_text).len() >= 2,
    ensures
        undefined_step(rv, entries, rv.anusrits[i]).is_some(),
        undefined_step(rv, entries, rv.anusrits[i]).unwrap().kind == FindingKind::Ambiguous,
        undefined_step(rv, entries, rv.anusrits[i]).unwrap().names == holders(
            rv,
            entries,
            rv.anusrits[i].mantra_text,
        ),
        is_error(FindingKind::Ambiguous),
        undefined_findings(rv, entries).contains(
            undefined_step(rv, entries, rv.anusrits[i]).unwrap(),
        ),
{
    lemma_undefined_contains(rv, entries, rv.anusrits.len() as int, i);
}

proof fn lemma_undefined_contains(
    rv: RepositoryView,
    entries: Seq<(Seq<char>, ShastraView)>,
    n: int,
    i: int,
)
    requires
        0 <= i < n <= rv.anusrits.len(),
        undefined_step(rv, entries, rv.anusrits[i]).is_some(),
    ensures
        undefined_upto(rv, entries, n).contains(undefined_step(rv, entries, rv.anusrits[i]).unwrap()),
    decreases n,
{
    let f = undefined_step(rv, entries, rv.anusrits[i]).unwrap();
    let all = undefined_upto(rv, entries, n);
    if i == n - 1 {
        assert(all[all.len() - 1] == f);
    } else {
        lemma_undefined_contains(rv, entries, n - 1, i);
        let prev = undefined_upto(rv, entries, n - 1);
        let w = choose|w: int| 0 <= w < prev.len() && prev[w] == f;
        assert(all[w] == f);
    }
}

/// A refutation is held against the shastra it refutes. Where that shastra
/// has no bhasya for the mantra, the refutation is an error. Where it has
/// one, but only withdrawn and none that defines the mantra, the refutation
/// stands and earns a note, which is no error. In every other case nothing
/// is found.
pub proof fn refutation_wants_a_bhasya(p: Presence)
    ensures
        !p.any ==> verdict(p, true) == Some(FindingKind::KhanditaOfNothing),
        is_error(FindingKind::KhanditaOfNothing),
        p.any && !p.mula && p.tyakta ==> verdict(p, true) == Some(FindingKind::KhanditaOfTyakta),
        !is_error(FindingKind::KhanditaOfTyakta),
        p.any && (p.mula || !p.tyakta) ==> verdict(p, true).is_none(),
{
}

proof fn lemma_sides_contain(ps: Seq<PositionView>, i: int, refutes: bool, n: int, j: int)
    requires
        0 <= j < n <= ps.len(),
        same_pair(ps[j], ps[i]),
        ps[j].refutes == refutes,
    ensures
        sides_upto(ps, i, refutes, n).contains(ps[j].follower),
    decreases n,
{
    let s = sides_upto(ps, i, refutes, n);
    if j == n - 1 {
        assert(s[s.len() - 1] == ps[j].follower);
    } else {
        lemma_sides_contain(ps, i, refutes, n - 1, j);
        let prev = sides_upto(ps, i, refutes, n - 1);
        let w = choose|w: int| 0 <= w < prev.len() && prev[w] == ps[j].follower;
        assert(s[w] == ps[j].follower);
    }
}

proof fn lemma_any_other(names: Seq<Seq<char>>, x: Seq<char>, n: int, j: int)
    requires
        0 <= j < n <= names.len(),
        names[j] != x,
    ensures
        any_other(names, x, n),
    decreases n,
{
    if j < n - 1 {
        lemma_any_other(names, x, n - 1, j);
    }
}

proof fn lemma_disagree(kb: Seq<Seq<char>>, ub: Seq<Seq<char>>, n: int, a: int, b: int)
    requires
        0 <= a < n <= kb.len(),
        0 <= b < ub.len(),
        kb[a] != ub[b],
    ensures
        disagree_upto(kb, ub, n),
    decreases n,
{
    if a == n - 1 {
        lemma_any_other(ub, kb[a], ub.len() as int, b);
    } else {
        lemma_disagree(kb, ub, n - 1, a, b);
    }
}

proof fn lemma_unresolved_contains(rv: RepositoryView, ps: Seq<PositionView>, n: int, i: int)
    requires
        0 <= i < n <= ps.len(),
        unresolved_step(rv, ps, i).is_some(),
    ensures
        unresolved_upto(rv, ps, n).contains(unresolved_step(rv, ps, i).unwrap()),
    decreases n,
{
    let f = unresolved_step(rv, ps, i).unwrap();
    let all = unresolved_upto(rv, ps, n);
    if i == n - 1 {
        assert(all[all.len() - 1] == f);
    } else {
        lemma_unresolved_contains(rv, ps, n - 1, i);
        let prev = unresolved_upto(rv, ps, n - 1);
        let w = choose|w: int| 0 <= w < prev.len() && prev[w] == f;
        assert(all[w] == f);
    }
}

/// Where one followed shastra refutes a mantra of some shastra and another
/// followed shastra quotes it, and this shastra takes no side, the first
/// position on that mantra gets a finding: an error that names the shastras
/// that refute and those that quote.
pub proof fn disagreement_wants_a_side(
    rv: RepositoryView,
    ps: Seq<PositionView>,
    i: int,
    a: int,
    b: int,
)
    requires
        0 <= i < ps.len(),
        !pair_seen(ps, i, i),
        0 <= a < ps.len() && same_pair(ps[a], ps[i]) && ps[a].refutes,
        0 <= b < ps.len() && same_pair(ps[b], ps[i]) && !ps[b].refutes,
        ps[a].follower != ps[b].follower,
        !takes_side(rv, ps[i].mantra, ps[i].source),
    ensures
        unresolved_step(rv, ps, i).is_some(),
        unresolved_step(rv, ps, i).unwrap().kind == FindingKind::Unresolved,
        is_error(FindingKind::Unresolved),
        unresolved_step(rv, ps, i).unwrap().names.contains(ps[a].follower),
        unresolved_step(rv, ps, i).unwrap().others.contains(ps[b].follower),
        unresolved_upto(rv, ps, ps.len() as int).contains(unresolved_step(rv, ps, i).unwrap()),
{
    let kb = sides_upto(ps, i, true, ps.len() as int);
    let ub = sides_upto(ps, i, false, ps.len() as int);
    lemma_sides_contain(ps, i, true, ps.len() as int, a);
    lemma_sides_contain(ps, i, false, ps.len() as int, b);
    let x = choose|x: int| 0 <= x < kb.len() && kb[x] == ps[a].follower;
    let y = choose|y: int| 0 <= y < ub.len() && ub[y] == ps[b].follower;
    lemma_disagree(kb, ub, kb.len() as int, x, y);
    lemma_unresolved_contains(rv, ps, ps.len() as int, i);
}

/// An error that any rule finds makes the validation fail, for a shastra
/// that has a name.
pub proof fn error_fails_the_validation(rv: RepositoryView, cv: CacheView, f: FindingView)
    requires
        rv.name.is_some(),
        is_error(f.kind),
        ({
            let a = shastra_anusrit_findings(rv, cv.entries, cv.reported);
            let q = shastra_quote_findings(rv, cv.entries, a.reported);
            let k = khandita_findings(rv, cv.entries, q.reported);
            ||| unexplained_findings(rv).contains(f)
            ||| duplicate_findings(rv).contains(f)
            ||| undefined_findings(rv, cv.entries).contains(f)
            ||| a.findings.contains(f)
            ||| q.findings.contains(f)
            ||| k.findings.contains(f)
            ||| conflict_findings(rv).contains(f)
            ||| unresolved_findings(rv, cv.entries).contains(f)
        }),
    ensures
        any_error(all_findings(rv, cv).findings),
{
    let a = shastra_anusrit_findings(rv, cv.entries, cv.reported);
    let q = shastra_quote_findings(rv, cv.entries, a.reported);
    let k = khandita_findings(rv, cv.entries, q.reported);
    let s1 = unexplained_findings(rv);
    let s2 = s1 + duplicate_findings(rv);
    let s3 = s2 + undefined_findings(rv, cv.entries);
    let s4 = s3 + a.findings;
    let s5 = s4 + q.findings;
    let s6 = s5 + k.findings;
    let s7 = s6 + conflict_findings(rv);
    let s8 = s7 + unresolved_findings(rv, cv.entries);
    assert(all_findings(rv, cv).findings == s8);
    lemma_concat_contains(s1, duplicate_findings(rv), f);
    lemma_concat_contains(s2, undefined_findings(rv, cv.entries), f);
    lemma_concat_contains(s3, a.findings, f);
    lemma_concat_contains(s4, q.findings, f);
    lemma_concat_contains(s5, k.findings, f);
    lemma_concat_contains(s6, conflict_findings(rv), f);
    lemma_concat_contains(s7, unresolved_findings(rv, cv.entries), f);
    assert(s8.contains(f));
    let w = choose|w: int| 0 <= w < s8.len() && s8[w] == f;
    assert(is_error(s8[w].kind));
}

proof fn lemma_concat_contains(a: Seq<FindingView>, b: Seq<FindingView>, f: FindingView)
    ensures
        a.contains(f) || b.contains(f) ==> (a + b).contains(f),
{
    if a.contains(f) {
        let w = choose|w: int| 0 <= w < a.len() && a[w] == f;
        assert((a + b)[w] == f);
    } else if b.contains(f) {
        let w = choose|w: int| 0 <= w < b.len() && b[w] == f;
        assert((a + b)[a.len() + w] == f);
    }
}

} // verus!
