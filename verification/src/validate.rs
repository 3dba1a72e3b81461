//! The validator: the rules that a shastra has to keep, by itself and
//! towards the shastras it follows. The followed shastras come in a cache
//! that the caller has filled; a rule reads the repository and the cache and
//! adds its findings.

use crate::findings::{
    Finding, finding_views, FindingKind, FindingView, name_views, plain_finding, Rule,
};
use crate::model::{keys_unique, lemma_lookup_from, 
    BhasyaKind, BhasyaView, lookup, lookup_from, pair_views, Repository, RepositoryView,
};
use crate::scan::{subjects, subjects_of};
use crate::template::{answers, mantra_answers};
use crate::text::{chars_of, starts_with, texts};
use vstd::prelude::*;

verus! {

/// What became of a followed shastra when it was looked for.
#[derive(Debug, PartialEq, Eq)]
pub enum Shastra {
    /// Its folder is not there.
    Missing,
    /// Its folder is there, but it could not be read.
    Unavailable,
    /// It was read.
    Loaded(Repository),
}

pub enum ShastraView {
    Missing,
    Unavailable,
    Loaded(RepositoryView),
}

impl View for Shastra {
    type V = ShastraView;

    open spec fn view(&self) -> ShastraView {
        match self {
            Shastra::Missing => ShastraView::Missing,
            Shastra::Unavailable => ShastraView::Unavailable,
            Shastra::Loaded(r) => ShastraView::Loaded(r@),
        }
    }
}

/// The followed shastras as far as they were looked for, by alias, and the
/// aliases of the unreadable ones that a finding has already named. A
/// shastra that the cache does not hold counts as missing.
#[derive(Debug, PartialEq, Eq)]
pub struct ShastraCache {
    pub entries: Vec<(String, Shastra)>,
    pub reported: Vec<String>,
}

pub struct CacheView {
    pub entries: Seq<(Seq<char>, ShastraView)>,
    pub reported: Seq<Seq<char>>,
}

pub open spec fn entry_views(v: Seq<(String, Shastra)>) -> Seq<(Seq<char>, ShastraView)> {
    v.map_values(|e: (String, Shastra)| (e.0@, e.1@))
}

impl View for ShastraCache {
    type V = CacheView;

    open spec fn view(&self) -> CacheView {
        CacheView { entries: entry_views(self.entries@), reported: name_views(self.reported@) }
    }
}

impl ShastraCache {
    /// A cache that holds nothing.
    pub fn new() -> (r: ShastraCache)
        ensures
            r@.entries.len() == 0,
            r@.reported.len() == 0,
            keys_unique(r@.entries),
    {
        ShastraCache { entries: Vec::new(), reported: Vec::new() }
    }

    /// Enters what became of the shastra `alias`. The first entry for an
    /// alias stands: a later one changes nothing.
    pub fn insert(&mut self, alias: String, shastra: Shastra)
        ensures
            final(self)@.reported == old(self)@.reported,
            final(self)@.entries == if lookup(old(self)@.entries, alias@).is_some() {
                old(self)@.entries
            } else {
                old(self)@.entries.push((alias@, shastra@))
            },
            keys_unique(old(self)@.entries) ==> keys_unique(final(self)@.entries),
    {
        if find_entry(&self.entries, &alias).is_none() {
            let ghost item = (alias@, shastra@);
            proof {
                lemma_lookup_from(old(self)@.entries, alias@, 0);
            }
            self.entries.push((alias, shastra));
            assert(entry_views(self.entries@) =~= entry_views(old(self).entries@).push(item));
        }
    }
}

/// The index of the entry for `alias`.
pub fn find_entry(entries: &Vec<(String, Shastra)>, alias: &String) -> (r: Option<usize>)
    ensures
        match r {
            Some(i) => lookup(entry_views(entries@), alias@) == Some(i as int) && i < entries@.len(),
            None => lookup(entry_views(entries@), alias@).is_none(),
        },
{
    let mut i: usize = 0;
    while i < entries.len()
        invariant
            i <= entries@.len(),
            lookup(entry_views(entries@), alias@) == lookup_from(
                entry_views(entries@),
                alias@,
                i as int,
            ),
        decreases entries@.len() - i,
    {
        if entries[i].0 == *alias {
            return Some(i);
        }
        i += 1;
    }
    None
}

/// `text` paired with the index `b`, for each of `ts`.
pub open spec fn tagged(b: usize, ts: Seq<Seq<char>>) -> Seq<(usize, Seq<char>)> {
    ts.map_values(|t: Seq<char>| (b, t))
}

/// The mantras that the first `n` bhasyas define, each with the index of its
/// bhasya.
pub open spec fn occurrences_upto(bhasyas: Seq<BhasyaView>, n: int) -> Seq<(usize, Seq<char>)>
    decreases n,
{
    if n <= 0 {
        Seq::empty()
    } else {
        occurrences_upto(bhasyas, n - 1) + tagged(
            (n - 1) as usize,
            subjects_of(bhasyas[n - 1].paragraph),
        )
    }
}

/// Every mantra that a bhasya defines, with the index of the bhasya: bhasya
/// by bhasya, and the mantras of one in their order.
pub open spec fn occurrences(rv: RepositoryView) -> Seq<(usize, Seq<char>)> {
    occurrences_upto(rv.bhasyas, rv.bhasyas.len() as int)
}

pub open spec fn occurrence_views(v: Seq<(usize, Vec<char>)>) -> Seq<(usize, Seq<char>)> {
    v.map_values(|o: (usize, Vec<char>)| (o.0, o.1@))
}

/// Every mantra that a bhasya of the repository defines.
pub fn all_occurrences(repo: &Repository) -> (r: Vec<(usize, Vec<char>)>)
    ensures
        occurrence_views(r@) == occurrences(repo@),
        forall|k: int| 0 <= k < r@.len() ==> (#[trigger] r@[k]).0 < repo.bhasyas@.len(),
{
    let mut r: Vec<(usize, Vec<char>)> = Vec::new();
    let mut i: usize = 0;
    assert(occurrence_views(r@) =~= Seq::empty());
    while i < repo.bhasyas.len()
        invariant
            i <= repo.bhasyas@.len(),
            occurrence_views(r@) == occurrences_upto(repo@.bhasyas, i as int),
            forall|k: int| 0 <= k < r@.len() ==> (#[trigger] r@[k]).0 < repo.bhasyas@.len(),
        decreases repo.bhasyas@.len() - i,
    {
        assert(repo@.bhasyas[i as int] == repo.bhasyas@[i as int]@);
        let p = chars_of(repo.bhasyas[i].paragraph.as_str());
        let found = subjects(&p);
        let ghost before = occurrence_views(r@);
        let ghost all = tagged(i, texts(found@));
        let mut k: usize = 0;
        while k < found.len()
            invariant
                k <= found@.len(),
                i < repo.bhasyas@.len(),
                all == tagged(i, texts(found@)),
                occurrence_views(r@) =~= before + all.take(k as int),
                forall|j: int| 0 <= j < r@.len() ==> (#[trigger] r@[j]).0 < repo.bhasyas@.len(),
            decreases found@.len() - k,
        {
            let ghost sofar = occurrence_views(r@);
            let t = crate::text::slice(&found[k], 0, found[k].len());
            assert(t@ == found@[k as int]@);
            r.push((i, t));
            assert(occurrence_views(r@) =~= sofar.push((i, found@[k as int]@)));
            assert(all.take(k + 1) =~= all.take(k as int).push(all[k as int]));
            k += 1;
        }
        assert(all.take(found@.len() as int) =~= all);
        i += 1;
    }
    r
}

/// How a shastra holds a mantra: in any bhasya at all, in a mula bhasya, in
/// a withdrawn one.
pub struct Presence {
    pub any: bool,
    pub mula: bool,
    pub tyakta: bool,
}

/// How the first `n` occurrences hold what the reference `text` means.
pub open spec fn presence_upto(
    bhasyas: Seq<BhasyaView>,
    occ: Seq<(usize, Seq<char>)>,
    text: Seq<char>,
    n: int,
) -> Presence
    decreases n,
{
    if n <= 0 {
        Presence { any: false, mula: false, tyakta: false }
    } else {
        let p = presence_upto(bhasyas, occ, text, n - 1);
        if occ[n - 1].0 < bhasyas.len() && answers(occ[n - 1].1, text) {
            Presence {
                any: true,
                mula: p.mula || bhasyas[occ[n - 1].0 as int].kind is Mula,
                tyakta: p.tyakta || bhasyas[occ[n - 1].0 as int].kind is Tyakta,
            }
        } else {
            p
        }
    }
}

/// How a shastra holds what the reference `text` means. A bhasya holds it
/// if it defines a mantra that the reference repeats, or a template that the
/// reference matches.
pub open spec fn presence(rv: RepositoryView, text: Seq<char>) -> Presence {
    presence_upto(rv.bhasyas, occurrences(rv), text, occurrences(rv).len() as int)
}

/// How the repository holds what the reference `text` means.
pub fn find_presence(repo: &Repository, text: &Vec<char>) -> (r: Presence)
    ensures
        r == presence(repo@, text@),
{
    let occ = all_occurrences(repo);
    let mut r = Presence { any: false, mula: false, tyakta: false };
    let mut i: usize = 0;
    while i < occ.len()
        invariant
            i <= occ@.len(),
            occurrence_views(occ@) == occurrences(repo@),
            forall|k: int| 0 <= k < occ@.len() ==> (#[trigger] occ@[k]).0 < repo.bhasyas@.len(),
            r == presence_upto(repo@.bhasyas, occurrence_views(occ@), text@, i as int),
        decreases occ@.len() - i,
    {
        assert(occurrence_views(occ@)[i as int] == (occ@[i as int].0, occ@[i as int].1@));
        let b = occ[i].0;
        assert(repo@.bhasyas[b as int] == repo.bhasyas@[b as int]@);
        if mantra_answers(&occ[i].1, text) {
            r.any = true;
            match &repo.bhasyas[b].kind {
                BhasyaKind::Mula => {
                    r.mula = true;
                },
                BhasyaKind::Tyakta => {
                    r.tyakta = true;
                },
                _ => {},
            }
        }
        i += 1;
    }
    r
}

/// A local folder: a path that starts with `/`, `./` or `../`.
pub open spec fn is_folder(path: Seq<char>) -> bool {
    "/"@.is_prefix_of(path) || "./"@.is_prefix_of(path) || "../"@.is_prefix_of(path)
}

/// Whether a path is a local folder.
pub fn is_folder_path(path: &String) -> (r: bool)
    ensures
        r == is_folder(path@),
{
    let p = chars_of(path.as_str());
    let root = chars_of("/");
    let here = chars_of("./");
    let up = chars_of("../");
    starts_with(&p, &root) || starts_with(&p, &here) || starts_with(&p, &up)
}

/// What an alias leads to.
pub enum Resolved {
    /// The alias is not configured.
    UndefinedAlias,
    /// It stands for the path given, which is no local folder.
    NotFolder(String),
    /// The folder is not there.
    Missing(String),
    /// The shastra could not be read.
    Unavailable(String),
    /// The shastra is the entry of the cache with this index.
    Found(usize),
}

pub enum ResolvedView {
    UndefinedAlias,
    NotFolder(Seq<char>),
    Missing(Seq<char>),
    Unavailable(Seq<char>),
    Found(int),
}

impl View for Resolved {
    type V = ResolvedView;

    open spec fn view(&self) -> ResolvedView {
        match self {
            Resolved::UndefinedAlias => ResolvedView::UndefinedAlias,
            Resolved::NotFolder(p) => ResolvedView::NotFolder(p@),
            Resolved::Missing(p) => ResolvedView::Missing(p@),
            Resolved::Unavailable(p) => ResolvedView::Unavailable(p@),
            Resolved::Found(c) => ResolvedView::Found(*c as int),
        }
    }
}

/// What the alias `name` leads to: it has to be configured, its path has to
/// be a local folder, and the cache says what became of the shastra there.
pub open spec fn resolve(
    aliases: Seq<(Seq<char>, Seq<char>)>,
    entries: Seq<(Seq<char>, ShastraView)>,
    name: Seq<char>,
) -> ResolvedView {
    match lookup(aliases, name) {
        None => ResolvedView::UndefinedAlias,
        Some(a) => {
            let path = aliases[a].1;
            if !is_folder(path) {
                ResolvedView::NotFolder(path)
            } else {
                match lookup(entries, name) {
                    None => ResolvedView::Missing(path),
                    Some(c) => match entries[c].1 {
                        ShastraView::Missing => ResolvedView::Missing(path),
                        ShastraView::Unavailable => ResolvedView::Unavailable(path),
                        ShastraView::Loaded(_) => ResolvedView::Found(c),
                    },
                }
            }
        },
    }
}

/// The repository of a shastra that was read.
pub open spec fn loaded(s: ShastraView) -> RepositoryView {
    match s {
        ShastraView::Loaded(r) => r,
        _ => crate::model::empty_repository(),
    }
}

/// Says what an alias leads to.
pub fn resolve_alias(
    aliases: &Vec<(String, String)>,
    entries: &Vec<(String, Shastra)>,
    name: &String,
) -> (r: Resolved)
    ensures
        r@ == resolve(pair_views(aliases@), entry_views(entries@), name@),
        match r {
            Resolved::Found(c) => c < entries@.len() && entries@[c as int].1 is Loaded,
            _ => true,
        },
{
    match crate::model::find_alias(aliases, name) {
        None => Resolved::UndefinedAlias,
        Some(a) => {
            assert(pair_views(aliases@)[a as int] == (aliases@[a as int].0@, aliases@[a as int].1@));
            let path = aliases[a].1.clone();
            if !is_folder_path(&path) {
                return Resolved::NotFolder(path);
            }
            match find_entry(entries, name) {
                None => Resolved::Missing(path),
                Some(c) => {
                    assert(entry_views(entries@)[c as int] == (
                        entries@[c as int].0@,
                        entries@[c as int].1@,
                    ));
                    match &entries[c].1 {
                        Shastra::Missing => Resolved::Missing(path),
                        Shastra::Unavailable => Resolved::Unavailable(path),
                        Shastra::Loaded(_) => Resolved::Found(c),
                    }
                },
            }
        },
    }
}

/// Whether `name` is among `names`.
pub fn has_name(names: &Vec<String>, name: &String) -> (r: bool)
    ensures
        r == name_views(names@).contains(name@),
{
    let mut i: usize = 0;
    while i < names.len()
        invariant
            i <= names@.len(),
            forall|k: int| 0 <= k < i ==> name_views(names@)[k] != name@,
        decreases names@.len() - i,
    {
        assert(name_views(names@)[i as int] == names@[i as int]@);
        if names[i] == *name {
            return true;
        }
        i += 1;
    }
    false
}

/// Something that a shastra has to hold: the mantra `mantra` is referred to,
/// quoted or refuted at `file` and `line`, and `shastra` is the alias named.
#[derive(Debug, PartialEq, Eq)]
pub struct Demand {
    pub file: String,
    pub line: usize,
    pub mantra: String,
    pub shastra: String,
}

pub struct DemandView {
    pub file: Seq<char>,
    pub line: usize,
    pub mantra: Seq<char>,
    pub shastra: Seq<char>,
}

impl View for Demand {
    type V = DemandView;

    open spec fn view(&self) -> DemandView {
        DemandView { file: self.file@, line: self.line, mantra: self.mantra@, shastra: self.shastra@ }
    }
}

pub open spec fn demand_views(v: Seq<Demand>) -> Seq<DemandView> {
    v.map_values(|d: Demand| d@)
}

/// The findings so far, and the unreadable shastras that were named.
pub struct Acc {
    pub findings: Seq<FindingView>,
    pub reported: Seq<Seq<char>>,
}

/// What is wrong with a demand, given how the shastra holds the mantra. A
/// reference or a quote wants the mantra in a mula bhasya: without one the
/// mantra is only withdrawn there, or not found. A refutation wants any
/// bhasya; where the mantra is only withdrawn it earns a note.
pub open spec fn verdict(p: Presence, refuting: bool) -> Option<FindingKind> {
    if refuting {
        if !p.any {
            Some(FindingKind::KhanditaOfNothing)
        } else if !p.mula && p.tyakta {
            Some(FindingKind::KhanditaOfTyakta)
        } else {
            None
        }
    } else {
        if p.mula {
            None
        } else if p.tyakta {
            Some(FindingKind::QuotedTyakta)
        } else {
            Some(FindingKind::MantraNotFound)
        }
    }
}

/// The finding of kind `kind` for the demand `d`.
pub open spec fn demand_finding(rule: Rule, kind: FindingKind, d: DemandView, path: Seq<char>) -> FindingView {
    plain_finding(rule, kind, d.file, d.line, d.mantra, d.shastra, path)
}

/// `acc` with one more finding.
pub open spec fn noted(acc: Acc, f: FindingView) -> Acc {
    Acc { findings: acc.findings.push(f), reported: acc.reported }
}

/// `acc` with the finding that the verdict asks for, if it asks for one.
pub open spec fn judged(acc: Acc, v: Option<FindingKind>, rule: Rule, d: DemandView, path: Seq<char>) -> Acc {
    match v {
        Some(kind) => noted(acc, demand_finding(rule, kind, d, path)),
        None => acc,
    }
}

/// The findings after one demand. With `own`, a demand on the shastra's own
/// name is held against the shastra itself. Any other goes through the
/// alias: each way in which the alias can fail is a finding of its own, and
/// an unreadable shastra is named once only.
pub open spec fn demand_step(
    rv: RepositoryView,
    entries: Seq<(Seq<char>, ShastraView)>,
    acc: Acc,
    d: DemandView,
    rule: Rule,
    refuting: bool,
    own: bool,
) -> Acc {
    if own && rv.name == Some(d.shastra) {
        judged(acc, verdict(presence(rv, d.mantra), refuting), rule, d, Seq::empty())
    } else {
        match resolve(rv.aliases, entries, d.shastra) {
            ResolvedView::UndefinedAlias => noted(
                acc,
                demand_finding(rule, FindingKind::UndefinedShastra, d, Seq::empty()),
            ),
            ResolvedView::NotFolder(path) => noted(
                acc,
                demand_finding(rule, FindingKind::NotAFolder, d, path),
            ),
            ResolvedView::Missing(path) => noted(
                acc,
                demand_finding(rule, FindingKind::MissingFolder, d, path),
            ),
            ResolvedView::Unavailable(path) => if acc.reported.contains(d.shastra) {
                acc
            } else {
                Acc {
                    findings: acc.findings.push(
                        demand_finding(rule, FindingKind::Unparseable, d, path),
                    ),
                    reported: acc.reported.push(d.shastra),
                }
            },
            ResolvedView::Found(c) => judged(
                acc,
                verdict(presence(loaded(entries[c].1), d.mantra), refuting),
                rule,
                d,
                rv.aliases[lookup(rv.aliases, d.shastra).unwrap()].1,
            ),
        }
    }
}

/// The findings after the first `n` demands.
pub open spec fn demands_checked(
    rv: RepositoryView,
    entries: Seq<(Seq<char>, ShastraView)>,
    acc: Acc,
    ds: Seq<DemandView>,
    n: int,
    rule: Rule,
    refuting: bool,
    own: bool,
) -> Acc
    decreases n,
{
    if n <= 0 {
        acc
    } else {
        demand_step(
            rv,
            entries,
            demands_checked(rv, entries, acc, ds, n - 1, rule, refuting, own),
            ds[n - 1],
            rule,
            refuting,
            own,
        )
    }
}

/// The kind of finding that a presence asks for, if any.
pub fn judge(p: &Presence, refuting: bool) -> (r: Option<FindingKind>)
    ensures
        r == verdict(*p, refuting),
{
    if refuting {
        if !p.any {
            Some(FindingKind::KhanditaOfNothing)
        } else if !p.mula && p.tyakta {
            Some(FindingKind::KhanditaOfTyakta)
        } else {
            None
        }
    } else {
        if p.mula {
            None
        } else if p.tyakta {
            Some(FindingKind::QuotedTyakta)
        } else {
            Some(FindingKind::MantraNotFound)
        }
    }
}

/// The finding of kind `kind` for a demand.
fn finding_for(rule: Rule, kind: FindingKind, d: &Demand, path: &String) -> (f: Finding)
    ensures
        f@ == demand_finding(rule, kind, d@, path@),
{
    Finding::plain(rule, kind, &d.file, d.line, &d.mantra, &d.shastra, path)
}

/// Puts a finding behind those in `out`.
fn note(out: &mut Vec<Finding>, f: Finding)
    ensures
        finding_views(final(out)@) == finding_views(old(out)@).push(f@),
{
    out.push(f);
    assert(finding_views(out@) =~= finding_views(old(out)@).push(f@));
}

/// Holds one demand against the shastra it names.
pub fn check_demand(
    repo: &Repository,
    entries: &Vec<(String, Shastra)>,
    reported: &mut Vec<String>,
    out: &mut Vec<Finding>,
    d: &Demand,
    rule: Rule,
    refuting: bool,
    own: bool,
)
    ensures
        (Acc { findings: finding_views(final(out)@), reported: name_views(final(reported)@) })
            == demand_step(
            repo@,
            entry_views(entries@),
            Acc { findings: finding_views(old(out)@), reported: name_views(old(reported)@) },
            d@,
            rule,
            refuting,
            own,
        ),
{
    let empty = String::new();
    let mantra = chars_of(d.mantra.as_str());
    let is_own = own && match &repo.config.name {
        Some(n) => *n == d.shastra,
        None => false,
    };
    if is_own {
        let p = find_presence(repo, &mantra);
        match judge(&p, refuting) {
            Some(kind) => note(out, finding_for(rule, kind, d, &empty)),
            None => {},
        }
        return;
    }
    match resolve_alias(&repo.shastra_config.aliases, entries, &d.shastra) {
        Resolved::UndefinedAlias => note(
            out,
            finding_for(rule, FindingKind::UndefinedShastra, d, &empty),
        ),
        Resolved::NotFolder(path) => note(out, finding_for(rule, FindingKind::NotAFolder, d, &path)),
        Resolved::Missing(path) => note(
            out,
            finding_for(rule, FindingKind::MissingFolder, d, &path),
        ),
        Resolved::Unavailable(path) => {
            if !has_name(reported, &d.shastra) {
                note(out, finding_for(rule, FindingKind::Unparseable, d, &path));
                let ghost before = name_views(reported@);
                reported.push(d.shastra.clone());
                assert(name_views(reported@) =~= before.push(d.shastra@));
            }
        },
        Resolved::Found(c) => {
            assert(entry_views(entries@)[c as int] == (entries@[c as int].0@, entries@[c as int].1@));
            match &entries[c].1 {
                Shastra::Loaded(other) => {
                    let p = find_presence(other, &mantra);
                    match judge(&p, refuting) {
                        Some(kind) => {
                            match crate::model::find_alias(&repo.shastra_config.aliases, &d.shastra) {
                                Some(a) => {
                                    assert(pair_views(repo.shastra_config.aliases@)[a as int] == (
                                        repo.shastra_config.aliases@[a as int].0@,
                                        repo.shastra_config.aliases@[a as int].1@,
                                    ));
                                    note(out, finding_for(rule, kind, d, &repo.shastra_config.aliases[a].1));
                                },
                                None => {},
                            }
                        },
                        None => {},
                    }
                },
                _ => {},
            }
        },
    }
}

/// Holds each demand against the shastra it names.
pub fn check_demands(
    repo: &Repository,
    entries: &Vec<(String, Shastra)>,
    reported: &mut Vec<String>,
    out: &mut Vec<Finding>,
    demands: &Vec<Demand>,
    rule: Rule,
    refuting: bool,
    own: bool,
)
    ensures
        (Acc { findings: finding_views(final(out)@), reported: name_views(final(reported)@) })
            == demands_checked(
            repo@,
            entry_views(entries@),
            Acc { findings: finding_views(old(out)@), reported: name_views(old(reported)@) },
            demand_views(demands@),
            demands@.len() as int,
            rule,
            refuting,
            own,
        ),
{
    let mut i: usize = 0;
    while i < demands.len()
        invariant
            i <= demands@.len(),
            (Acc { findings: finding_views(out@), reported: name_views(reported@) })
                == demands_checked(
                repo@,
                entry_views(entries@),
                Acc { findings: finding_views(old(out)@), reported: name_views(old(reported)@) },
                demand_views(demands@),
                i as int,
                rule,
                refuting,
                own,
            ),
        decreases demands@.len() - i,
    {
        assert(demand_views(demands@)[i as int] == demands@[i as int]@);
        check_demand(repo, entries, reported, out, &demands[i], rule, refuting, own);
        i += 1;
    }
}

} // verus!
