//! The rules that a shastra has to keep by itself: every mantra explained,
//! no mula bhasya twice, nothing both quoted and refuted.

use crate::findings::{
    Finding, finding_views, FindingKind, FindingView, place_views, plain_finding, Rule,
};
use crate::model::{
    Bhasya, BhasyaKind, BhasyaView, entry_refs, KindView, MantraInfoView, occurrence_refs,
    Repository, RepositoryView,
};
use crate::text::{
    chars_of, join, joined, lines_of, same_text, split_lines, string_of, texts, trim, trimmed,
};
use crate::validate::{all_occurrences, occurrence_views, occurrences};
use vstd::prelude::*;

verus! {

/// The finding on a mantra without explanation.
pub open spec fn unexplained_finding(e: (Seq<char>, MantraInfoView)) -> FindingView {
    plain_finding(
        Rule::Unexplained,
        FindingKind::Unexplained,
        e.1.file,
        e.1.line,
        e.0,
        Seq::empty(),
        Seq::empty(),
    )
}

/// One finding for each mantra that no mula bhasya explains with a
/// commentary.
pub open spec fn unexplained_findings(rv: RepositoryView) -> Seq<FindingView> {
    rv.unexplained().map_values(|e: (Seq<char>, MantraInfoView)| unexplained_finding(e))
}

/// Reports the mantras without explanation.
pub fn check_unexplained(repo: &Repository) -> (r: Vec<Finding>)
    ensures
        finding_views(r@) == unexplained_findings(repo@),
{
    let empty = String::new();
    let list = repo.unexplained_mantras();
    let ghost all = unexplained_findings(repo@);
    let mut r: Vec<Finding> = Vec::new();
    let mut i: usize = 0;
    while i < list.len()
        invariant
            i <= list@.len(),
            empty@ == Seq::<char>::empty(),
            entry_refs(list@) == repo@.unexplained(),
            all == unexplained_findings(repo@),
            finding_views(r@) =~= all.take(i as int),
        decreases list@.len() - i,
    {
        assert(entry_refs(list@)[i as int] == (list@[i as int].0@, list@[i as int].1@));
        let ghost before = finding_views(r@);
        let text = list[i].0.to_owned();
        let f = Finding::plain(
            Rule::Unexplained,
            FindingKind::Unexplained,
            &list[i].1.file,
            list[i].1.line,
            &text,
            &empty,
            &empty,
        );
        let ghost fv = f@;
        r.push(f);
        assert(finding_views(r@) =~= before.push(fv));
        assert(all.take(i + 1) =~= all.take(i as int).push(all[i as int]));
        i += 1;
    }
    assert(all.take(list@.len() as int) =~= all);
    r
}

/// Each of the lines, trimmed.
pub open spec fn trimmed_each(lines: Seq<Seq<char>>) -> Seq<Seq<char>> {
    lines.map_values(|l: Seq<char>| trimmed(l))
}

/// The text of a bhasya with each line trimmed: what two bhasyas are
/// compared by.
pub open spec fn normalized(p: Seq<char>) -> Seq<char> {
    joined(trimmed_each(lines_of(p)), "\n"@)
}

/// Two mula bhasyas hold the same mantra in the same paragraph.
pub open spec fn same_bhasya(x: (Seq<char>, BhasyaView), y: (Seq<char>, BhasyaView)) -> bool {
    x.1.kind is Mula && y.1.kind is Mula && x.0 == y.0 && normalized(x.1.paragraph) == normalized(
        y.1.paragraph,
    )
}

/// One of the first `n` occurrences is the same bhasya as the one at `i`.
pub open spec fn seen_before(mo: Seq<(Seq<char>, BhasyaView)>, i: int, n: int) -> bool
    decreases n,
{
    n > 0 && (seen_before(mo, i, n - 1) || same_bhasya(mo[n - 1], mo[i]))
}

/// The places of those of the first `n` occurrences that are the same bhasya
/// as the one at `i`.
pub open spec fn places_upto(mo: Seq<(Seq<char>, BhasyaView)>, i: int, n: int) -> Seq<
    (Seq<char>, usize),
>
    decreases n,
{
    if n <= 0 {
        Seq::empty()
    } else if same_bhasya(mo[n - 1], mo[i]) {
        places_upto(mo, i, n - 1).push((mo[n - 1].1.file, mo[n - 1].1.line))
    } else {
        places_upto(mo, i, n - 1)
    }
}

/// The finding on the occurrence at `i`, if it is the first of two or more
/// that are the same bhasya: it names all their places.
pub open spec fn duplicate_step(mo: Seq<(Seq<char>, BhasyaView)>, i: int) -> Option<FindingView> {
    let places = places_upto(mo, i, mo.len() as int);
    if mo[i].1.kind is Mula && !seen_before(mo, i, i) && places.len() > 1 {
        Some(
            FindingView {
                places,
                ..plain_finding(
                    Rule::Duplicates,
                    FindingKind::Duplicate,
                    mo[i].1.file,
                    mo[i].1.line,
                    mo[i].0,
                    Seq::empty(),
                    mo[i].1.paragraph,
                )
            },
        )
    } else {
        None
    }
}

/// The findings on the first `n` occurrences.
pub open spec fn duplicates_upto(mo: Seq<(Seq<char>, BhasyaView)>, n: int) -> Seq<FindingView>
    decreases n,
{
    if n <= 0 {
        Seq::empty()
    } else {
        match duplicate_step(mo, n - 1) {
            Some(f) => duplicates_upto(mo, n - 1).push(f),
            None => duplicates_upto(mo, n - 1),
        }
    }
}

/// One finding for each mula bhasya that stands more than once.
pub open spec fn duplicate_findings(rv: RepositoryView) -> Seq<FindingView> {
    duplicates_upto(rv.mula_occurrences(), rv.mula_occurrences().len() as int)
}

/// The text of a bhasya with each line trimmed.
pub fn normalize(p: &Vec<char>) -> (r: Vec<char>)
    ensures
        r@ == normalized(p@),
{
    let lines = split_lines(p);
    let mut bare: Vec<Vec<char>> = Vec::new();
    let mut i: usize = 0;
    while i < lines.len()
        invariant
            i <= lines@.len(),
            bare@.len() == i,
            forall|k: int| 0 <= k < i ==> bare@[k]@ == trimmed(lines@[k]@),
        decreases lines@.len() - i,
    {
        bare.push(trim(&lines[i]));
        i += 1;
    }
    assert(texts(bare@) =~= trimmed_each(texts(lines@)));
    let feed = chars_of("\n");
    join(&bare, &feed)
}

/// What two occurrences are compared by: the mantra, the normalized
/// paragraph, and whether the bhasya is a mula bhasya.
struct Key {
    text: Vec<char>,
    paragraph: Vec<char>,
    mula: bool,
}

spec fn key_fits(k: Key, o: (Seq<char>, BhasyaView)) -> bool {
    k.text@ == o.0 && k.paragraph@ == normalized(o.1.paragraph) && k.mula == (o.1.kind is Mula)
}

fn same_key(a: &Key, b: &Key) -> (r: bool)
    ensures
        forall|x: (Seq<char>, BhasyaView), y: (Seq<char>, BhasyaView)|
            key_fits(*a, x) && key_fits(*b, y) ==> r == same_bhasya(x, y),
{
    a.mula && b.mula && same_text(&a.text, &b.text) && same_text(&a.paragraph, &b.paragraph)
}

/// Reports the mula bhasyas that stand more than once.
pub fn check_duplicate_bhasyas(repo: &Repository) -> (r: Vec<Finding>)
    ensures
        finding_views(r@) == duplicate_findings(repo@),
{
    let empty = String::new();
    let list = repo.mula_mantras_with_bhasyas();
    let ghost mo = repo@.mula_occurrences();
    let n = list.len();
    assert(mo.len() == n);
    let mut keys: Vec<Key> = Vec::new();
    let mut i: usize = 0;
    while i < n
        invariant
            i <= n,
            n == list@.len(),
            occurrence_refs(list@) == mo,
            keys@.len() == i,
            forall|k: int| 0 <= k < i ==> key_fits(#[trigger] keys@[k], mo[k]),
        decreases n - i,
    {
        assert(mo[i as int] == (list@[i as int].0@, list@[i as int].1@));
        let b = list[i].1;
        let p = chars_of(b.paragraph.as_str());
        let mula = match &b.kind {
            BhasyaKind::Mula => true,
            _ => false,
        };
        keys.push(Key { text: chars_of(list[i].0), paragraph: normalize(&p), mula });
        i += 1;
    }
    let mut r: Vec<Finding> = Vec::new();
    let mut i: usize = 0;
    assert(finding_views(r@) =~= Seq::empty());
    while i < n
        invariant
            i <= n,
            n == list@.len(),
            n == mo.len(),
            empty@ == Seq::<char>::empty(),
            occurrence_refs(list@) == mo,
            keys@.len() == n,
            forall|k: int| 0 <= k < n ==> key_fits(#[trigger] keys@[k], mo[k]),
            finding_views(r@) == duplicates_upto(mo, i as int),
        decreases n - i,
    {
        assert(mo[i as int] == (list@[i as int].0@, list@[i as int].1@));
        assert(key_fits(keys@[i as int], mo[i as int]));
        let mut seen = false;
        let mut j: usize = 0;
        while j < i
            invariant
                j <= i < n,
                n == mo.len(),
                keys@.len() == n,
                forall|k: int| 0 <= k < n ==> key_fits(#[trigger] keys@[k], mo[k]),
                seen == seen_before(mo, i as int, j as int),
            decreases i - j,
        {
            assert(key_fits(keys@[j as int], mo[j as int]));
            assert(key_fits(keys@[i as int], mo[i as int]));
            if same_key(&keys[j], &keys[i]) {
                seen = true;
            }
            j += 1;
        }
        let mut places: Vec<(String, usize)> = Vec::new();
        let mut j: usize = 0;
        assert(place_views(places@) =~= Seq::empty());
        while j < n
            invariant
                j <= n,
                i < n,
                n == list@.len(),
                n == mo.len(),
                occurrence_refs(list@) == mo,
                keys@.len() == n,
                forall|k: int| 0 <= k < n ==> key_fits(#[trigger] keys@[k], mo[k]),
                place_views(places@) == places_upto(mo, i as int, j as int),
            decreases n - j,
        {
            assert(mo[j as int] == (list@[j as int].0@, list@[j as int].1@));
            assert(key_fits(keys@[j as int], mo[j as int]));
            assert(key_fits(keys@[i as int], mo[i as int]));
            if same_key(&keys[j], &keys[i]) {
                let ghost before = place_views(places@);
                places.push((list[j].1.file.clone(), list[j].1.line));
                assert(place_views(places@) =~= before.push(
                    (list@[j as int].1@.file, list@[j as int].1@.line),
                ));
            }
            j += 1;
        }
        if keys[i].mula && !seen && places.len() > 1 {
            let ghost before = finding_views(r@);
            let b = list[i].1;
            let text = list[i].0.to_owned();
            let mut f = Finding::plain(
                Rule::Duplicates,
                FindingKind::Duplicate,
                &b.file,
                b.line,
                &text,
                &empty,
                &b.paragraph,
            );
            f.places = places;
            let ghost fv = f@;
            r.push(f);
            assert(finding_views(r@) =~= before.push(fv));
        }
        i += 1;
    }
    r
}

/// The shastra that a bhasya of this kind refutes.
pub open spec fn refuted_by(kind: KindView) -> Option<Seq<char>> {
    match kind {
        KindView::Khandita(s) => Some(s),
        _ => None,
    }
}

/// The shastra that a bhasya of this kind quotes.
pub open spec fn quoted_by(kind: KindView) -> Option<Seq<char>> {
    match kind {
        KindView::Uddhrit(s) => Some(s),
        _ => None,
    }
}

/// The occurrence at `j` refutes the mantra `text` of the shastra `source`.
pub open spec fn refutes_at(
    bhasyas: Seq<BhasyaView>,
    occ: Seq<(usize, Seq<char>)>,
    text: Seq<char>,
    source: Seq<char>,
    j: int,
) -> bool {
    occ[j].0 < bhasyas.len() && occ[j].1 == text && refuted_by(bhasyas[occ[j].0 as int].kind)
        == Some(source)
}

/// The first occurrence at or after `j` that refutes the mantra `text` of
/// the shastra `source`.
pub open spec fn refutation_from(
    bhasyas: Seq<BhasyaView>,
    occ: Seq<(usize, Seq<char>)>,
    text: Seq<char>,
    source: Seq<char>,
    j: int,
) -> Option<int>
    decreases occ.len() - j,
{
    if j < 0 || j >= occ.len() {
        None
    } else if refutes_at(bhasyas, occ, text, source, j) {
        Some(j)
    } else {
        refutation_from(bhasyas, occ, text, source, j + 1)
    }
}

/// The finding on the occurrence at `i`, if its bhasya quotes a shastra that
/// another bhasya refutes for the same mantra: it names the place of the
/// first such refutation.
pub open spec fn conflict_step(bhasyas: Seq<BhasyaView>, occ: Seq<(usize, Seq<char>)>, i: int) -> Option<
    FindingView,
> {
    if occ[i].0 < bhasyas.len() && quoted_by(bhasyas[occ[i].0 as int].kind).is_some() {
        let b = bhasyas[occ[i].0 as int];
        let source = quoted_by(b.kind).unwrap();
        match refutation_from(bhasyas, occ, occ[i].1, source, 0) {
            Some(j) => Some(
                FindingView {
                    places: seq![(bhasyas[occ[j].0 as int].file, bhasyas[occ[j].0 as int].line)],
                    ..plain_finding(
                        Rule::Conflicts,
                        FindingKind::Conflict,
                        b.file,
                        b.line,
                        occ[i].1,
                        source,
                        Seq::empty(),
                    )
                },
            ),
            None => None,
        }
    } else {
        None
    }
}

/// The findings on the first `n` occurrences.
pub open spec fn conflicts_upto(bhasyas: Seq<BhasyaView>, occ: Seq<(usize, Seq<char>)>, n: int) -> Seq<
    FindingView,
>
    decreases n,
{
    if n <= 0 {
        Seq::empty()
    } else {
        match conflict_step(bhasyas, occ, n - 1) {
            Some(f) => conflicts_upto(bhasyas, occ, n - 1).push(f),
            None => conflicts_upto(bhasyas, occ, n - 1),
        }
    }
}

/// One finding for each mantra of a quoting bhasya that this shastra also
/// refutes, for the same shastra.
pub open spec fn conflict_findings(rv: RepositoryView) -> Seq<FindingView> {
    conflicts_upto(rv.bhasyas, occurrences(rv), occurrences(rv).len() as int)
}

/// Whether the bhasya refutes the shastra `source`.
pub fn refutes_shastra(b: &Bhasya, source: &String) -> (r: bool)
    ensures
        r == (refuted_by(b@.kind) == Some(source@)),
{
    match &b.kind {
        BhasyaKind::Khandita(s) => *s == *source,
        _ => false,
    }
}

/// Whether the bhasya quotes the shastra `source`.
pub fn quotes_shastra(b: &Bhasya, source: &String) -> (r: bool)
    ensures
        r == (quoted_by(b@.kind) == Some(source@)),
{
    match &b.kind {
        BhasyaKind::Uddhrit(s) => *s == *source,
        _ => false,
    }
}

/// Reports what this shastra both quotes and refutes.
pub fn check_khandita_uddhrit_conflicts(repo: &Repository) -> (r: Vec<Finding>)
    ensures
        finding_views(r@) == conflict_findings(repo@),
{
    let empty = String::new();
    let occ = all_occurrences(repo);
    let ghost ov = occurrence_views(occ@);
    let n = occ.len();
    let mut r: Vec<Finding> = Vec::new();
    let mut i: usize = 0;
    assert(finding_views(r@) =~= Seq::empty());
    while i < n
        invariant
            i <= n,
            n == occ@.len(),
            empty@ == Seq::<char>::empty(),
            ov == occurrence_views(occ@),
            ov == occurrences(repo@),
            forall|k: int| 0 <= k < occ@.len() ==> (#[trigger] occ@[k]).0 < repo.bhasyas@.len(),
            finding_views(r@) == conflicts_upto(repo@.bhasyas, ov, i as int),
        decreases n - i,
    {
        assert(ov[i as int] == (occ@[i as int].0, occ@[i as int].1@));
        let b = &repo.bhasyas[occ[i].0];
        assert(repo@.bhasyas[occ@[i as int].0 as int] == b@);
        match &b.kind {
            BhasyaKind::Uddhrit(source) => {
                let mut j: usize = 0;
                let mut found: Option<usize> = None;
                while j < n && found.is_none()
                    invariant
                        j <= n,
                        i < n,
                        n == occ@.len(),
                        ov == occurrence_views(occ@),
                        forall|k: int|
                            0 <= k < occ@.len() ==> (#[trigger] occ@[k]).0 < repo.bhasyas@.len(),
                        match found {
                            Some(f) => refutation_from(repo@.bhasyas, ov, ov[i as int].1, source@, 0)
                                == Some(f as int) && f < n,
                            None => refutation_from(repo@.bhasyas, ov, ov[i as int].1, source@, 0)
                                == refutation_from(
                                repo@.bhasyas,
                                ov,
                                ov[i as int].1,
                                source@,
                                j as int,
                            ),
                        },
                    decreases n - j + if found.is_none() { 1int } else { 0int },
                {
                    assert(ov[j as int] == (occ@[j as int].0, occ@[j as int].1@));
                    assert(repo@.bhasyas[occ@[j as int].0 as int] == repo.bhasyas@[occ@[j as int].0 as int]@);
                    if same_text(&occ[j].1, &occ[i].1) && refutes_shastra(
                        &repo.bhasyas[occ[j].0],
                        source,
                    ) {
                        found = Some(j);
                    } else {
                        j += 1;
                    }
                }
                match found {
                    Some(f) => {
                        assert(ov[f as int] == (occ@[f as int].0, occ@[f as int].1@));
                        let k = &repo.bhasyas[occ[f].0];
                        assert(repo@.bhasyas[occ@[f as int].0 as int] == k@);
                        let ghost before = finding_views(r@);
                        let text = string_of(&occ[i].1);
                        let mut finding = Finding::plain(
                            Rule::Conflicts,
                            FindingKind::Conflict,
                            &b.file,
                            b.line,
                            &text,
                            source,
                            &empty,
                        );
                        let mut places: Vec<(String, usize)> = Vec::new();
                        places.push((k.file.clone(), k.line));
                        assert(place_views(places@) =~= seq![(k@.file, k@.line)]);
                        finding.places = places;
                        let ghost fv = finding@;
                        r.push(finding);
                        assert(finding_views(r@) =~= before.push(fv));
                    },
                    None => {},
                }
            },
            _ => {},
        }
        i += 1;
    }
    r
}

} // verus!
