//! The rule on disagreement among the followed shastras: where one refutes
//! what another quotes, this shastra has to take a side.

use crate::findings::{
    Finding, finding_views, FindingKind, FindingView, name_views, plain_finding, Rule,
};
use crate::model::{BhasyaKind, BhasyaView, KindView, pair_views, Repository, RepositoryView};
use crate::own_rules::{quoted_by, quotes_shastra, refuted_by, refutes_shastra};
use crate::rules::{followed, followed_shastra, follows};
use crate::text::{same_text, slice, string_of};
use crate::validate::{
    all_occurrences, entry_views, occurrence_views, occurrences, Shastra, ShastraCache,
    ShastraView,
};
use vstd::prelude::*;

verus! {

/// The position that a followed shastra takes on a mantra of another one:
/// it refutes it or it quotes it.
#[derive(Debug, PartialEq, Eq)]
pub struct Position {
    pub follower: String,
    pub mantra: Vec<char>,
    pub source: String,
    pub refutes: bool,
}

pub struct PositionView {
    pub follower: Seq<char>,
    pub mantra: Seq<char>,
    pub source: Seq<char>,
    pub refutes: bool,
}

impl View for Position {
    type V = PositionView;

    open spec fn view(&self) -> PositionView {
        PositionView {
            follower: self.follower@,
            mantra: self.mantra@,
            source: self.source@,
            refutes: self.refutes,
        }
    }
}

pub open spec fn position_views(v: Seq<Position>) -> Seq<PositionView> {
    v.map_values(|p: Position| p@)
}

/// The position that a bhasya of this kind takes on the mantra `text`.
pub open spec fn position_of(name: Seq<char>, kind: KindView, text: Seq<char>) -> Option<PositionView> {
    match kind {
        KindView::Khandita(s) => Some(
            PositionView { follower: name, mantra: text, source: s, refutes: true },
        ),
        KindView::Uddhrit(s) => Some(
            PositionView { follower: name, mantra: text, source: s, refutes: false },
        ),
        _ => None,
    }
}

/// The positions that the first `n` occurrences of a shastra take.
pub open spec fn positions_in_upto(
    name: Seq<char>,
    bhasyas: Seq<BhasyaView>,
    occ: Seq<(usize, Seq<char>)>,
    n: int,
) -> Seq<PositionView>
    decreases n,
{
    if n <= 0 {
        Seq::empty()
    } else {
        let prev = positions_in_upto(name, bhasyas, occ, n - 1);
        if occ[n - 1].0 < bhasyas.len() && position_of(
            name,
            bhasyas[occ[n - 1].0 as int].kind,
            occ[n - 1].1,
        ).is_some() {
            prev.push(position_of(name, bhasyas[occ[n - 1].0 as int].kind, occ[n - 1].1).unwrap())
        } else {
            prev
        }
    }
}

/// The positions that the shastra `rv`, followed as `name`, takes.
pub open spec fn positions_in(name: Seq<char>, rv: RepositoryView) -> Seq<PositionView> {
    positions_in_upto(name, rv.bhasyas, occurrences(rv), occurrences(rv).len() as int)
}

/// The positions that the shastras behind the first `n` aliases take.
pub open spec fn followed_positions_upto(
    aliases: Seq<(Seq<char>, Seq<char>)>,
    entries: Seq<(Seq<char>, ShastraView)>,
    n: int,
) -> Seq<PositionView>
    decreases n,
{
    if n <= 0 {
        Seq::empty()
    } else if follows(aliases, entries, n - 1) {
        followed_positions_upto(aliases, entries, n - 1) + positions_in(
            aliases[n - 1].0,
            followed(aliases, entries, n - 1),
        )
    } else {
        followed_positions_upto(aliases, entries, n - 1)
    }
}

/// The positions that the followed shastras take, shastra by shastra.
pub open spec fn followed_positions(rv: RepositoryView, entries: Seq<(Seq<char>, ShastraView)>) -> Seq<
    PositionView,
> {
    followed_positions_upto(rv.aliases, entries, rv.aliases.len() as int)
}

/// Two positions on the same mantra of the same shastra.
pub open spec fn same_pair(p: PositionView, q: PositionView) -> bool {
    p.mantra == q.mantra && p.source == q.source
}

/// One of the first `n` positions is on the same mantra as the one at `i`.
pub open spec fn pair_seen(ps: Seq<PositionView>, i: int, n: int) -> bool
    decreases n,
{
    n > 0 && (pair_seen(ps, i, n - 1) || same_pair(ps[n - 1], ps[i]))
}

/// The shastras that, among the first `n` positions, refute what the
/// position at `i` is on, or, without `refutes`, quote it.
pub open spec fn sides_upto(ps: Seq<PositionView>, i: int, refutes: bool, n: int) -> Seq<Seq<char>>
    decreases n,
{
    if n <= 0 {
        Seq::empty()
    } else if same_pair(ps[n - 1], ps[i]) && ps[n - 1].refutes == refutes {
        sides_upto(ps, i, refutes, n - 1).push(ps[n - 1].follower)
    } else {
        sides_upto(ps, i, refutes, n - 1)
    }
}

/// One of the first `n` names is another than `x`.
pub open spec fn any_other(names: Seq<Seq<char>>, x: Seq<char>, n: int) -> bool
    decreases n,
{
    n > 0 && (any_other(names, x, n - 1) || names[n - 1] != x)
}

/// One of the first `n` of `kb` is another shastra than one of `ub`.
pub open spec fn disagree_upto(kb: Seq<Seq<char>>, ub: Seq<Seq<char>>, n: int) -> bool
    decreases n,
{
    n > 0 && (disagree_upto(kb, ub, n - 1) || any_other(ub, kb[n - 1], ub.len() as int))
}

/// A shastra among `kb` and another shastra among `ub`: two that disagree.
pub open spec fn disagree(kb: Seq<Seq<char>>, ub: Seq<Seq<char>>) -> bool {
    disagree_upto(kb, ub, kb.len() as int)
}

/// One of the first `n` occurrences takes a side on the mantra `mantra` of
/// the shastra `source`: its bhasya refutes or quotes that shastra.
pub open spec fn takes_side_upto(
    bhasyas: Seq<BhasyaView>,
    occ: Seq<(usize, Seq<char>)>,
    mantra: Seq<char>,
    source: Seq<char>,
    n: int,
) -> bool
    decreases n,
{
    n > 0 && (takes_side_upto(bhasyas, occ, mantra, source, n - 1) || (occ[n - 1].0 < bhasyas.len()
        && occ[n - 1].1 == mantra && (refuted_by(bhasyas[occ[n - 1].0 as int].kind) == Some(source)
        || quoted_by(bhasyas[occ[n - 1].0 as int].kind) == Some(source))))
}

/// Whether the shastra takes a side on the mantra `mantra` of `source`.
pub open spec fn takes_side(rv: RepositoryView, mantra: Seq<char>, source: Seq<char>) -> bool {
    takes_side_upto(rv.bhasyas, occurrences(rv), mantra, source, occurrences(rv).len() as int)
}

/// The finding on the position at `i`, if it is the first on its mantra, a
/// followed shastra refutes that mantra and another one quotes it, and this
/// shastra takes no side. It names those that refute and those that quote.
pub open spec fn unresolved_step(rv: RepositoryView, ps: Seq<PositionView>, i: int) -> Option<FindingView> {
    let kb = sides_upto(ps, i, true, ps.len() as int);
    let ub = sides_upto(ps, i, false, ps.len() as int);
    if !pair_seen(ps, i, i) && disagree(kb, ub) && !takes_side(rv, ps[i].mantra, ps[i].source) {
        Some(
            FindingView {
                names: kb,
                others: ub,
                ..plain_finding(
                    Rule::Unresolved,
                    FindingKind::Unresolved,
                    Seq::empty(),
                    0,
                    ps[i].mantra,
                    ps[i].source,
                    Seq::empty(),
                )
            },
        )
    } else {
        None
    }
}

/// The findings on the first `n` positions.
pub open spec fn unresolved_upto(rv: RepositoryView, ps: Seq<PositionView>, n: int) -> Seq<FindingView>
    decreases n,
{
    if n <= 0 {
        Seq::empty()
    } else {
        match unresolved_step(rv, ps, n - 1) {
            Some(f) => unresolved_upto(rv, ps, n - 1).push(f),
            None => unresolved_upto(rv, ps, n - 1),
        }
    }
}

/// One finding for each mantra on which followed shastras disagree and this
/// shastra takes no side.
pub open spec fn unresolved_findings(rv: RepositoryView, entries: Seq<(Seq<char>, ShastraView)>) -> Seq<
    FindingView,
> {
    unresolved_upto(
        rv,
        followed_positions(rv, entries),
        followed_positions(rv, entries).len() as int,
    )
}

/// Puts the positions that a followed shastra takes behind `out`.
pub fn collect_positions(name: &String, repo: &Repository, out: &mut Vec<Position>)
    ensures
        position_views(final(out)@) == position_views(old(out)@) + positions_in(name@, repo@),
{
    let occ = all_occurrences(repo);
    let ghost ov = occurrence_views(occ@);
    let ghost start = position_views(out@);
    let mut i: usize = 0;
    assert(start + Seq::<PositionView>::empty() =~= start);
    while i < occ.len()
        invariant
            i <= occ@.len(),
            ov == occurrence_views(occ@),
            ov == occurrences(repo@),
            start == position_views(old(out)@),
            forall|k: int| 0 <= k < occ@.len() ==> (#[trigger] occ@[k]).0 < repo.bhasyas@.len(),
            position_views(out@) == start + positions_in_upto(name@, repo@.bhasyas, ov, i as int),
        decreases occ@.len() - i,
    {
        assert(ov[i as int] == (occ@[i as int].0, occ@[i as int].1@));
        let b = &repo.bhasyas[occ[i].0];
        assert(repo@.bhasyas[occ@[i as int].0 as int] == b@);
        let ghost prev = positions_in_upto(name@, repo@.bhasyas, ov, i as int);
        let found = match &b.kind {
            BhasyaKind::Khandita(s) => Some((s.clone(), true)),
            BhasyaKind::Uddhrit(s) => Some((s.clone(), false)),
            _ => None,
        };
        match found {
            Some(side) => {
                let mantra = slice(&occ[i].1, 0, occ[i].1.len());
                assert(mantra@ == occ@[i as int].1@);
                let p = Position { follower: name.clone(), mantra, source: side.0, refutes: side.1 };
                let ghost pv = p@;
                let ghost before = position_views(out@);
                out.push(p);
                assert(position_views(out@) =~= before.push(pv));
                assert(before.push(pv) =~= start + prev.push(pv));
            },
            None => {},
        }
        i += 1;
    }
}

/// The positions that the followed shastras take.
pub fn collect_followed_positions(repo: &Repository, entries: &Vec<(String, Shastra)>) -> (r: Vec<
    Position,
>)
    ensures
        position_views(r@) == followed_positions(repo@, entry_views(entries@)),
{
    let aliases = &repo.shastra_config.aliases;
    let mut r: Vec<Position> = Vec::new();
    let mut i: usize = 0;
    assert(position_views(r@) =~= Seq::empty());
    while i < aliases.len()
        invariant
            i <= aliases@.len(),
            aliases@ == repo.shastra_config.aliases@,
            position_views(r@) == followed_positions_upto(
                pair_views(aliases@),
                entry_views(entries@),
                i as int,
            ),
        decreases aliases@.len() - i,
    {
        assert(pair_views(aliases@)[i as int] == (aliases@[i as int].0@, aliases@[i as int].1@));
        match followed_shastra(aliases, entries, i) {
            Some(other) => {
                collect_positions(&aliases[i].0, other, &mut r);
            },
            None => {},
        }
        i += 1;
    }
    r
}

/// Whether two positions are on the same mantra of the same shastra.
pub fn on_same_pair(p: &Position, q: &Position) -> (r: bool)
    ensures
        r == same_pair(p@, q@),
{
    same_text(&p.mantra, &q.mantra) && p.source == q.source
}

/// The shastras that refute what the position at `i` is on, or quote it.
pub fn collect_sides(ps: &Vec<Position>, i: usize, refutes: bool) -> (r: Vec<String>)
    requires
        i < ps@.len(),
    ensures
        name_views(r@) == sides_upto(position_views(ps@), i as int, refutes, ps@.len() as int),
{
    let ghost pv = position_views(ps@);
    let mut r: Vec<String> = Vec::new();
    let mut j: usize = 0;
    assert(name_views(r@) =~= Seq::empty());
    while j < ps.len()
        invariant
            j <= ps@.len(),
            i < ps@.len(),
            pv == position_views(ps@),
            name_views(r@) == sides_upto(pv, i as int, refutes, j as int),
        decreases ps@.len() - j,
    {
        assert(pv[j as int] == ps@[j as int]@);
        assert(pv[i as int] == ps@[i as int]@);
        if on_same_pair(&ps[j], &ps[i]) && ps[j].refutes == refutes {
            let ghost before = name_views(r@);
            r.push(ps[j].follower.clone());
            assert(name_views(r@) =~= before.push(ps@[j as int].follower@));
        }
        j += 1;
    }
    r
}

/// Whether a shastra among `kb` is another than one among `ub`.
pub fn names_disagree(kb: &Vec<String>, ub: &Vec<String>) -> (r: bool)
    ensures
        r == disagree(name_views(kb@), name_views(ub@)),
{
    let ghost kv = name_views(kb@);
    let ghost uv = name_views(ub@);
    let mut r = false;
    let mut a: usize = 0;
    while a < kb.len()
        invariant
            a <= kb@.len(),
            kv == name_views(kb@),
            uv == name_views(ub@),
            r == disagree_upto(kv, uv, a as int),
        decreases kb@.len() - a,
    {
        assert(kv[a as int] == kb@[a as int]@);
        let mut other = false;
        let mut b: usize = 0;
        while b < ub.len()
            invariant
                b <= ub@.len(),
                a < kb@.len(),
                kv == name_views(kb@),
                uv == name_views(ub@),
                other == any_other(uv, kv[a as int], b as int),
            decreases ub@.len() - b,
        {
            assert(uv[b as int] == ub@[b as int]@);
            if !(ub[b] == kb[a]) {
                other = true;
            }
            b += 1;
        }
        assert(uv.len() == ub@.len());
        if other {
            r = true;
        }
        a += 1;
    }
    assert(kv.len() == kb@.len());
    r
}

/// Whether the shastra takes a side on the mantra `mantra` of `source`.
pub fn has_position(repo: &Repository, mantra: &Vec<char>, source: &String) -> (r: bool)
    ensures
        r == takes_side(repo@, mantra@, source@),
{
    let occ = all_occurrences(repo);
    let ghost ov = occurrence_views(occ@);
    let mut r = false;
    let mut i: usize = 0;
    while i < occ.len()
        invariant
            i <= occ@.len(),
            ov == occurrence_views(occ@),
            ov == occurrences(repo@),
            forall|k: int| 0 <= k < occ@.len() ==> (#[trigger] occ@[k]).0 < repo.bhasyas@.len(),
            r == takes_side_upto(repo@.bhasyas, ov, mantra@, source@, i as int),
        decreases occ@.len() - i,
    {
        assert(ov[i as int] == (occ@[i as int].0, occ@[i as int].1@));
        let b = &repo.bhasyas[occ[i].0];
        assert(repo@.bhasyas[occ@[i as int].0 as int] == b@);
        if same_text(&occ[i].1, mantra) && (refutes_shastra(b, source) || quotes_shastra(b, source)) {
            r = true;
        }
        i += 1;
    }
    r
}

/// Reports the mantras on which followed shastras disagree while this one
/// takes no side.
pub fn check_unresolved_shastra_conflicts(repo: &Repository, cache: &ShastraCache) -> (r: Vec<Finding>)
    ensures
        finding_views(r@) == unresolved_findings(repo@, cache@.entries),
{
    let empty = String::new();
    let ps = collect_followed_positions(repo, &cache.entries);
    let ghost pv = position_views(ps@);
    let n = ps.len();
    let mut r: Vec<Finding> = Vec::new();
    let mut i: usize = 0;
    assert(finding_views(r@) =~= Seq::empty());
    while i < n
        invariant
            i <= n,
            n == ps@.len(),
            empty@ == Seq::<char>::empty(),
            pv == position_views(ps@),
            pv == followed_positions(repo@, cache@.entries),
            finding_views(r@) == unresolved_upto(repo@, pv, i as int),
        decreases n - i,
    {
        assert(pv[i as int] == ps@[i as int]@);
        let mut seen = false;
        let mut j: usize = 0;
        while j < i
            invariant
                j <= i < n,
                n == ps@.len(),
                pv == position_views(ps@),
                seen == pair_seen(pv, i as int, j as int),
            decreases i - j,
        {
            assert(pv[j as int] == ps@[j as int]@);
            assert(pv[i as int] == ps@[i as int]@);
            if on_same_pair(&ps[j], &ps[i]) {
                seen = true;
            }
            j += 1;
        }
        if !seen {
            let kb = collect_sides(&ps, i, true);
            let ub = collect_sides(&ps, i, false);
            if names_disagree(&kb, &ub) && !has_position(repo, &ps[i].mantra, &ps[i].source) {
                let ghost before = finding_views(r@);
                let text = string_of(&ps[i].mantra);
                let mut f = Finding::plain(
                    Rule::Unresolved,
                    FindingKind::Unresolved,
                    &empty,
                    0,
                    &text,
                    &ps[i].source,
                    &empty,
                );
                f.names = kb;
                f.others = ub;
                let ghost fv = f@;
                r.push(f);
                assert(finding_views(r@) =~= before.push(fv));
            }
        }
        i += 1;
    }
    r
}

} // verus!
