//! The rules on references, quotes and refutations that name a followed
//! shastra, and the rule on references that name none.

use crate::findings::{
    Finding, finding_views, FindingKind, FindingView, name_views, plain_finding, Rule,
};
use crate::model::{
    AnusritView, BhasyaKind, BhasyaView, KindView, lookup, pair_views, Repository, RepositoryView,
};
use crate::text::{chars_of, string_of};
use crate::validate::{
    Acc, all_occurrences, check_demands, Demand, demand_views, demands_checked, DemandView,
    entry_views, find_entry, find_presence, is_folder, is_folder_path, loaded, occurrence_views,
    occurrences, presence, Shastra, ShastraCache, ShastraView,
};
use vstd::prelude::*;

verus! {

/// The demands of the first `n` references outside bhasyas: one for each
/// that names a shastra.
pub open spec fn anusrit_demands_upto(a: Seq<AnusritView>, n: int) -> Seq<DemandView>
    decreases n,
{
    if n <= 0 {
        Seq::empty()
    } else {
        match a[n - 1].shastra {
            Some(name) => anusrit_demands_upto(a, n - 1).push(
                DemandView {
                    file: a[n - 1].file,
                    line: a[n - 1].line,
                    mantra: a[n - 1].mantra_text,
                    shastra: name,
                },
            ),
            None => anusrit_demands_upto(a, n - 1),
        }
    }
}

/// The shastra that a bhasya of this kind quotes, or, with `refuting`, the
/// one it refutes.
pub open spec fn source_of(kind: KindView, refuting: bool) -> Option<Seq<char>> {
    match kind {
        KindView::Uddhrit(s) => if refuting {
            None
        } else {
            Some(s)
        },
        KindView::Khandita(s) => if refuting {
            Some(s)
        } else {
            None
        },
        _ => None,
    }
}

/// The demands of the first `n` occurrences: one for each mantra of a
/// bhasya that quotes a shastra, or, with `refuting`, refutes one.
pub open spec fn kind_demands_upto(
    bhasyas: Seq<BhasyaView>,
    occ: Seq<(usize, Seq<char>)>,
    refuting: bool,
    n: int,
) -> Seq<DemandView>
    decreases n,
{
    if n <= 0 {
        Seq::empty()
    } else {
        let prev = kind_demands_upto(bhasyas, occ, refuting, n - 1);
        let b = occ[n - 1].0 as int;
        if b < bhasyas.len() && source_of(bhasyas[b].kind, refuting).is_some() {
            prev.push(
                DemandView {
                    file: bhasyas[b].file,
                    line: bhasyas[b].line,
                    mantra: occ[n - 1].1,
                    shastra: source_of(bhasyas[b].kind, refuting).unwrap(),
                },
            )
        } else {
            prev
        }
    }
}

/// The demands that the references with an alias make.
pub open spec fn anusrit_demands(rv: RepositoryView) -> Seq<DemandView> {
    anusrit_demands_upto(rv.anusrits, rv.anusrits.len() as int)
}

/// The demands that the quoting bhasyas make, or, with `refuting`, the
/// refuting ones.
pub open spec fn kind_demands(rv: RepositoryView, refuting: bool) -> Seq<DemandView> {
    kind_demands_upto(rv.bhasyas, occurrences(rv), refuting, occurrences(rv).len() as int)
}

/// The findings of a rule that holds demands against followed shastras.
pub open spec fn demand_findings(
    rv: RepositoryView,
    entries: Seq<(Seq<char>, ShastraView)>,
    reported: Seq<Seq<char>>,
    ds: Seq<DemandView>,
    rule: Rule,
    refuting: bool,
    own: bool,
) -> Acc {
    demands_checked(
        rv,
        entries,
        Acc { findings: Seq::empty(), reported },
        ds,
        ds.len() as int,
        rule,
        refuting,
        own,
    )
}

/// The references with an alias: the alias has to lead to a shastra that
/// defines the mantra in a mula bhasya.
pub open spec fn shastra_anusrit_findings(
    rv: RepositoryView,
    entries: Seq<(Seq<char>, ShastraView)>,
    reported: Seq<Seq<char>>,
) -> Acc {
    demand_findings(rv, entries, reported, anusrit_demands(rv), Rule::ShastraAnusrits, false, false)
}

/// The quoting bhasyas: the shastra quoted, which may be this one, has to
/// define the mantra in a mula bhasya.
pub open spec fn shastra_quote_findings(
    rv: RepositoryView,
    entries: Seq<(Seq<char>, ShastraView)>,
    reported: Seq<Seq<char>>,
) -> Acc {
    demand_findings(rv, entries, reported, kind_demands(rv, false), Rule::ShastraQuotes, false, true)
}

/// The refuting bhasyas: the shastra refuted has to hold the mantra in some
/// bhasya; where it has withdrawn it, that is worth a note.
pub open spec fn khandita_findings(
    rv: RepositoryView,
    entries: Seq<(Seq<char>, ShastraView)>,
    reported: Seq<Seq<char>>,
) -> Acc {
    demand_findings(rv, entries, reported, kind_demands(rv, true), Rule::Khandita, true, false)
}

/// The shastra that a bhasya quotes or refutes.
fn source(kind: &BhasyaKind, refuting: bool) -> (r: Option<String>)
    ensures
        match r {
            Some(s) => source_of(kind@, refuting) == Some(s@),
            None => source_of(kind@, refuting).is_none(),
        },
{
    match kind {
        BhasyaKind::Uddhrit(s) => if refuting {
            None
        } else {
            Some(s.clone())
        },
        BhasyaKind::Khandita(s) => if refuting {
            Some(s.clone())
        } else {
            None
        },
        _ => None,
    }
}

/// The demands that the references with an alias make.
pub fn collect_anusrit_demands(repo: &Repository) -> (r: Vec<Demand>)
    ensures
        demand_views(r@) == anusrit_demands(repo@),
{
    let mut r: Vec<Demand> = Vec::new();
    let mut i: usize = 0;
    assert(demand_views(r@) =~= Seq::empty());
    while i < repo.anusrits.len()
        invariant
            i <= repo.anusrits@.len(),
            demand_views(r@) == anusrit_demands_upto(repo@.anusrits, i as int),
        decreases repo.anusrits@.len() - i,
    {
        let a = &repo.anusrits[i];
        assert(repo@.anusrits[i as int] == a@);
        match &a.shastra {
            Some(name) => {
                let ghost before = demand_views(r@);
                let d = Demand {
                    file: a.file.clone(),
                    line: a.line,
                    mantra: a.mantra_text.clone(),
                    shastra: name.clone(),
                };
                let ghost dv = d@;
                r.push(d);
                assert(demand_views(r@) =~= before.push(dv));
            },
            None => {},
        }
        i += 1;
    }
    r
}

/// The demands that the quoting bhasyas make, or the refuting ones.
pub fn collect_kind_demands(repo: &Repository, refuting: bool) -> (r: Vec<Demand>)
    ensures
        demand_views(r@) == kind_demands(repo@, refuting),
{
    let occ = all_occurrences(repo);
    let mut r: Vec<Demand> = Vec::new();
    let mut i: usize = 0;
    assert(demand_views(r@) =~= Seq::empty());
    while i < occ.len()
        invariant
            i <= occ@.len(),
            occurrence_views(occ@) == occurrences(repo@),
            forall|k: int| 0 <= k < occ@.len() ==> (#[trigger] occ@[k]).0 < repo.bhasyas@.len(),
            demand_views(r@) == kind_demands_upto(
                repo@.bhasyas,
                occurrence_views(occ@),
                refuting,
                i as int,
            ),
        decreases occ@.len() - i,
    {
        assert(occurrence_views(occ@)[i as int] == (occ@[i as int].0, occ@[i as int].1@));
        let b = &repo.bhasyas[occ[i].0];
        assert(repo@.bhasyas[occ@[i as int].0 as int] == b@);
        match source(&b.kind, refuting) {
            Some(s) => {
                let ghost before = demand_views(r@);
                let d = Demand {
                    file: b.file.clone(),
                    line: b.line,
                    mantra: string_of(&occ[i].1),
                    shastra: s,
                };
                let ghost dv = d@;
                r.push(d);
                assert(demand_views(r@) =~= before.push(dv));
            },
            None => {},
        }
        i += 1;
    }
    r
}

/// Holds the references that name a shastra against that shastra.
pub fn check_shastra_anusrits(repo: &Repository, cache: &mut ShastraCache) -> (r: Vec<Finding>)
    ensures
        final(cache)@.entries == old(cache)@.entries,
        (Acc { findings: finding_views(r@), reported: final(cache)@.reported })
            == shastra_anusrit_findings(repo@, old(cache)@.entries, old(cache)@.reported),
{
    let demands = collect_anusrit_demands(repo);
    let mut out: Vec<Finding> = Vec::new();
    assert(finding_views(out@) =~= Seq::empty());
    check_demands(
        repo,
        &cache.entries,
        &mut cache.reported,
        &mut out,
        &demands,
        Rule::ShastraAnusrits,
        false,
        false,
    );
    out
}

/// Holds the quoting bhasyas against the shastra they quote.
pub fn check_shastra_quotes(repo: &Repository, cache: &mut ShastraCache) -> (r: Vec<Finding>)
    ensures
        final(cache)@.entries == old(cache)@.entries,
        (Acc { findings: finding_views(r@), reported: final(cache)@.reported })
            == shastra_quote_findings(repo@, old(cache)@.entries, old(cache)@.reported),
{
    let demands = collect_kind_demands(repo, false);
    let mut out: Vec<Finding> = Vec::new();
    assert(finding_views(out@) =~= Seq::empty());
    check_demands(
        repo,
        &cache.entries,
        &mut cache.reported,
        &mut out,
        &demands,
        Rule::ShastraQuotes,
        false,
        true,
    );
    out
}

/// Holds the refuting bhasyas against the shastra they refute.
pub fn check_khandita(repo: &Repository, cache: &mut ShastraCache) -> (r: Vec<Finding>)
    ensures
        final(cache)@.entries == old(cache)@.entries,
        (Acc { findings: finding_views(r@), reported: final(cache)@.reported })
            == khandita_findings(repo@, old(cache)@.entries, old(cache)@.reported),
{
    let demands = collect_kind_demands(repo, true);
    let mut out: Vec<Finding> = Vec::new();
    assert(finding_views(out@) =~= Seq::empty());
    check_demands(
        repo,
        &cache.entries,
        &mut cache.reported,
        &mut out,
        &demands,
        Rule::Khandita,
        true,
        false,
    );
    out
}

/// Whether the shastra behind the alias at `i` is followed and was read.
pub open spec fn follows(
    aliases: Seq<(Seq<char>, Seq<char>)>,
    entries: Seq<(Seq<char>, ShastraView)>,
    i: int,
) -> bool {
    is_folder(aliases[i].1) && match lookup(entries, aliases[i].0) {
        Some(c) => entries[c].1 is Loaded,
        None => false,
    }
}

/// The repository of the followed shastra behind the alias at `i`.
pub open spec fn followed(
    aliases: Seq<(Seq<char>, Seq<char>)>,
    entries: Seq<(Seq<char>, ShastraView)>,
    i: int,
) -> RepositoryView {
    loaded(entries[lookup(entries, aliases[i].0).unwrap()].1)
}

/// Those of the first `n` aliases whose shastra defines, in a mula bhasya,
/// what the reference `text` means.
pub open spec fn holders_upto(
    aliases: Seq<(Seq<char>, Seq<char>)>,
    entries: Seq<(Seq<char>, ShastraView)>,
    text: Seq<char>,
    n: int,
) -> Seq<Seq<char>>
    decreases n,
{
    if n <= 0 {
        Seq::empty()
    } else if follows(aliases, entries, n - 1) && presence(
        followed(aliases, entries, n - 1),
        text,
    ).mula {
        holders_upto(aliases, entries, text, n - 1).push(aliases[n - 1].0)
    } else {
        holders_upto(aliases, entries, text, n - 1)
    }
}

/// The followed shastras that define what the reference `text` means.
pub open spec fn holders(rv: RepositoryView, entries: Seq<(Seq<char>, ShastraView)>, text: Seq<char>) -> Seq<
    Seq<char>,
> {
    holders_upto(rv.aliases, entries, text, rv.aliases.len() as int)
}

/// What is wrong with a reference that names no shastra. One that this
/// shastra defines in a mula bhasya is in order. Else the followed shastras
/// decide: none defines it, and it is undefined; one does, and it is in
/// order; two or more do, and it is ambiguous between them.
pub open spec fn undefined_step(
    rv: RepositoryView,
    entries: Seq<(Seq<char>, ShastraView)>,
    a: AnusritView,
) -> Option<FindingView> {
    let h = holders(rv, entries, a.mantra_text);
    if a.shastra.is_some() || presence(rv, a.mantra_text).mula || h.len() == 1 {
        None
    } else if h.len() == 0 {
        Some(
            plain_finding(
                Rule::Undefined,
                FindingKind::Undefined,
                a.file,
                a.line,
                a.mantra_text,
                Seq::empty(),
                Seq::empty(),
            ),
        )
    } else {
        Some(
            FindingView {
                names: h,
                ..plain_finding(
                    Rule::Ambiguous,
                    FindingKind::Ambiguous,
                    a.file,
                    a.line,
                    a.mantra_text,
                    Seq::empty(),
                    Seq::empty(),
                )
            },
        )
    }
}

/// The findings on the first `n` references outside bhasyas.
pub open spec fn undefined_upto(
    rv: RepositoryView,
    entries: Seq<(Seq<char>, ShastraView)>,
    n: int,
) -> Seq<FindingView>
    decreases n,
{
    if n <= 0 {
        Seq::empty()
    } else {
        match undefined_step(rv, entries, rv.anusrits[n - 1]) {
            Some(f) => undefined_upto(rv, entries, n - 1).push(f),
            None => undefined_upto(rv, entries, n - 1),
        }
    }
}

/// The findings on the references that name no shastra.
pub open spec fn undefined_findings(rv: RepositoryView, entries: Seq<(Seq<char>, ShastraView)>) -> Seq<
    FindingView,
> {
    undefined_upto(rv, entries, rv.anusrits.len() as int)
}

/// The followed shastra behind the alias at `i`, if it is followed and was
/// read.
pub fn followed_shastra<'a>(
    aliases: &Vec<(String, String)>,
    entries: &'a Vec<(String, Shastra)>,
    i: usize,
) -> (r: Option<&'a Repository>)
    requires
        i < aliases@.len(),
    ensures
        r.is_some() == follows(pair_views(aliases@), entry_views(entries@), i as int),
        match r {
            Some(repo) => repo@ == followed(pair_views(aliases@), entry_views(entries@), i as int),
            None => true,
        },
{
    assert(pair_views(aliases@)[i as int] == (aliases@[i as int].0@, aliases@[i as int].1@));
    if !is_folder_path(&aliases[i].1) {
        return None;
    }
    match find_entry(entries, &aliases[i].0) {
        Some(c) => {
            assert(entry_views(entries@)[c as int] == (entries@[c as int].0@, entries@[c as int].1@));
            match &entries[c].1 {
                Shastra::Loaded(repo) => Some(repo),
                _ => None,
            }
        },
        None => None,
    }
}

/// The followed shastras that define what the reference means.
pub fn find_holders(repo: &Repository, entries: &Vec<(String, Shastra)>, text: &Vec<char>) -> (r: Vec<
    String,
>)
    ensures
        name_views(r@) == holders(repo@, entry_views(entries@), text@),
{
    let aliases = &repo.shastra_config.aliases;
    let mut r: Vec<String> = Vec::new();
    let mut i: usize = 0;
    assert(name_views(r@) =~= Seq::empty());
    while i < aliases.len()
        invariant
            i <= aliases@.len(),
            aliases@ == repo.shastra_config.aliases@,
            name_views(r@) == holders_upto(
                pair_views(aliases@),
                entry_views(entries@),
                text@,
                i as int,
            ),
        decreases aliases@.len() - i,
    {
        assert(pair_views(aliases@)[i as int] == (aliases@[i as int].0@, aliases@[i as int].1@));
        match followed_shastra(aliases, entries, i) {
            Some(other) => {
                if find_presence(other, text).mula {
                    let ghost before = name_views(r@);
                    r.push(aliases[i].0.clone());
                    assert(name_views(r@) =~= before.push(aliases@[i as int].0@));
                }
            },
            None => {},
        }
        i += 1;
    }
    r
}

/// Holds the references that name no shastra against this shastra and those
/// it follows.
pub fn check_undefined_anusrits(repo: &Repository, cache: &ShastraCache) -> (r: Vec<Finding>)
    ensures
        finding_views(r@) == undefined_findings(repo@, cache@.entries),
{
    let empty = String::new();
    let mut r: Vec<Finding> = Vec::new();
    let mut i: usize = 0;
    assert(finding_views(r@) =~= Seq::empty());
    while i < repo.anusrits.len()
        invariant
            i <= repo.anusrits@.len(),
            empty@ == Seq::<char>::empty(),
            finding_views(r@) == undefined_upto(repo@, cache@.entries, i as int),
        decreases repo.anusrits@.len() - i,
    {
        let a = &repo.anusrits[i];
        assert(repo@.anusrits[i as int] == a@);
        if a.shastra.is_none() {
            let text = chars_of(a.mantra_text.as_str());
            if !find_presence(repo, &text).mula {
                let h = find_holders(repo, &cache.entries, &text);
                let ghost before = finding_views(r@);
                if h.len() == 0 {
                    let f = Finding::plain(
                        Rule::Undefined,
                        FindingKind::Undefined,
                        &a.file,
                        a.line,
                        &a.mantra_text,
                        &empty,
                        &empty,
                    );
                    let ghost fv = f@;
                    r.push(f);
                    assert(finding_views(r@) =~= before.push(fv));
                } else if h.len() >= 2 {
                    let mut f = Finding::plain(
                        Rule::Ambiguous,
                        FindingKind::Ambiguous,
                        &a.file,
                        a.line,
                        &a.mantra_text,
                        &empty,
                        &empty,
                    );
                    f.names = h;
                    let ghost fv = f@;
                    r.push(f);
                    assert(finding_views(r@) =~= before.push(fv));
                }
            }
        }
        i += 1;
    }
    r
}

} // verus!
