//! The data of a shastra: mantras, bhasyas, anusrits and the configuration,
//! each with the mathematical value that the contracts speak of.

use crate::text::opt_text;
use vstd::prelude::*;

verus! {

/// What a shastra knows of one mantra.
#[derive(Debug, PartialEq, Eq)]
pub struct MantraInfo {
    /// Where the mantra was first defined; empty until a definition is seen.
    pub file: String,
    pub line: usize,
    /// Whether a mula bhasya explains the mantra with a commentary.
    pub has_explanation: bool,
    /// The bhasyas of kind `Mula` that define the mantra, by index.
    pub mula_bhasyas: Vec<usize>,
    /// The bhasyas whose text refers to the mantra, by index.
    pub anusrit_bhasyas: Vec<usize>,
}

pub struct MantraInfoView {
    pub file: Seq<char>,
    pub line: usize,
    pub has_explanation: bool,
    pub mula_bhasyas: Seq<usize>,
    pub anusrit_bhasyas: Seq<usize>,
}

impl View for MantraInfo {
    type V = MantraInfoView;

    open spec fn view(&self) -> MantraInfoView {
        MantraInfoView {
            file: self.file@,
            line: self.line,
            has_explanation: self.has_explanation,
            mula_bhasyas: self.mula_bhasyas@,
            anusrit_bhasyas: self.anusrit_bhasyas@,
        }
    }
}

/// A mantra that nothing is known of yet.
pub open spec fn blank_info() -> MantraInfoView {
    MantraInfoView {
        file: Seq::empty(),
        line: 0,
        has_explanation: false,
        mula_bhasyas: Seq::empty(),
        anusrit_bhasyas: Seq::empty(),
    }
}

impl MantraInfo {
    pub fn new() -> (r: MantraInfo)
        ensures
            r@ == blank_info(),
    {
        MantraInfo {
            file: String::new(),
            line: 0,
            has_explanation: false,
            mula_bhasyas: Vec::new(),
            anusrit_bhasyas: Vec::new(),
        }
    }
}

impl Default for MantraInfo {
    fn default() -> (r: MantraInfo)
        ensures
            r@ == blank_info(),
    {
        MantraInfo::new()
    }
}

/// What a bhasya is: exactly one of four.
#[derive(Debug, PartialEq, Eq)]
pub enum BhasyaKind {
    /// The shastra's own bhasya: it defines its mantras.
    Mula,
    /// It quotes the bhasya of the shastra named.
    Uddhrit(String),
    /// It refutes the bhasya of the shastra named.
    Khandita(String),
    /// It is withdrawn.
    Tyakta,
}

pub enum KindView {
    Mula,
    Uddhrit(Seq<char>),
    Khandita(Seq<char>),
    Tyakta,
}

impl View for BhasyaKind {
    type V = KindView;

    open spec fn view(&self) -> KindView {
        match self {
            BhasyaKind::Mula => KindView::Mula,
            BhasyaKind::Uddhrit(s) => KindView::Uddhrit(s@),
            BhasyaKind::Khandita(s) => KindView::Khandita(s@),
            BhasyaKind::Tyakta => KindView::Tyakta,
        }
    }
}

impl Clone for BhasyaKind {
    fn clone(&self) -> (r: Self)
        ensures
            r@ == self@,
    {
        match self {
            BhasyaKind::Mula => BhasyaKind::Mula,
            BhasyaKind::Uddhrit(s) => BhasyaKind::Uddhrit(s.clone()),
            BhasyaKind::Khandita(s) => BhasyaKind::Khandita(s.clone()),
            BhasyaKind::Tyakta => BhasyaKind::Tyakta,
        }
    }
}

/// A quote block that holds at least one mantra marker.
#[derive(Debug, PartialEq, Eq)]
pub struct Bhasya {
    /// The text of the block, without comment prefixes and quote signs, its
    /// lines joined by line feeds.
    pub paragraph: String,
    pub file: String,
    /// The number of the block's first line.
    pub line: usize,
    pub kind: BhasyaKind,
}

pub struct BhasyaView {
    pub paragraph: Seq<char>,
    pub file: Seq<char>,
    pub line: usize,
    pub kind: KindView,
}

impl View for Bhasya {
    type V = BhasyaView;

    open spec fn view(&self) -> BhasyaView {
        BhasyaView {
            paragraph: self.paragraph@,
            file: self.file@,
            line: self.line,
            kind: self.kind@,
        }
    }
}

impl Clone for Bhasya {
    fn clone(&self) -> (r: Self)
        ensures
            r@ == self@,
    {
        Bhasya {
            paragraph: self.paragraph.clone(),
            file: self.file.clone(),
            line: self.line,
            kind: self.kind.clone(),
        }
    }
}

/// A reference to a mantra that stands outside every bhasya.
#[derive(Debug, PartialEq, Eq)]
pub struct Anusrit {
    pub mantra_text: String,
    pub file: String,
    pub line: usize,
    /// The alias behind `@`, where the reference names a shastra.
    pub shastra: Option<String>,
}

pub struct AnusritView {
    pub mantra_text: Seq<char>,
    pub file: Seq<char>,
    pub line: usize,
    pub shastra: Option<Seq<char>>,
}

impl View for Anusrit {
    type V = AnusritView;

    open spec fn view(&self) -> AnusritView {
        AnusritView {
            mantra_text: self.mantra_text@,
            file: self.file@,
            line: self.line,
            shastra: opt_text(self.shastra),
        }
    }
}

impl Clone for Anusrit {
    fn clone(&self) -> (r: Self)
        ensures
            r@ == self@,
    {
        Anusrit {
            mantra_text: self.mantra_text.clone(),
            file: self.file.clone(),
            line: self.line,
            shastra: match &self.shastra {
                Some(s) => Some(s.clone()),
                None => None,
            },
        }
    }
}

/// The shastra's own configuration.
#[derive(Debug, PartialEq, Eq)]
pub struct Config {
    /// The name of this shastra.
    pub name: Option<String>,
}

impl Default for Config {
    fn default() -> (r: Config)
        ensures
            r.name.is_none(),
    {
        Config { name: None }
    }
}

/// The shastras that this one follows: each alias with the path it stands
/// for. No alias occurs twice.
#[derive(Debug, PartialEq, Eq)]
pub struct ShastraConfig {
    pub aliases: Vec<(String, String)>,
}

impl Default for ShastraConfig {
    fn default() -> (r: ShastraConfig)
        ensures
            r.aliases@.len() == 0,
    {
        ShastraConfig { aliases: Vec::new() }
    }
}

/// All that was drawn out of the files of one shastra.
#[derive(Debug, PartialEq, Eq)]
pub struct Repository {
    /// The mantras by their text, in the order in which they were first met.
    /// No text occurs twice.
    pub mantras: Vec<(String, MantraInfo)>,
    pub bhasyas: Vec<Bhasya>,
    /// The references outside bhasyas.
    pub anusrits: Vec<Anusrit>,
    pub config: Config,
    pub shastra_config: ShastraConfig,
}

pub struct RepositoryView {
    pub mantras: Seq<(Seq<char>, MantraInfoView)>,
    pub bhasyas: Seq<BhasyaView>,
    pub anusrits: Seq<AnusritView>,
    pub name: Option<Seq<char>>,
    pub aliases: Seq<(Seq<char>, Seq<char>)>,
}

pub open spec fn mantra_views(v: Seq<(String, MantraInfo)>) -> Seq<(Seq<char>, MantraInfoView)> {
    v.map_values(|e: (String, MantraInfo)| (e.0@, e.1@))
}

pub open spec fn bhasya_views(v: Seq<Bhasya>) -> Seq<BhasyaView> {
    v.map_values(|b: Bhasya| b@)
}

pub open spec fn anusrit_views(v: Seq<Anusrit>) -> Seq<AnusritView> {
    v.map_values(|a: Anusrit| a@)
}

pub open spec fn pair_views(v: Seq<(String, String)>) -> Seq<(Seq<char>, Seq<char>)> {
    v.map_values(|e: (String, String)| (e.0@, e.1@))
}

impl View for Repository {
    type V = RepositoryView;

    open spec fn view(&self) -> RepositoryView {
        RepositoryView {
            mantras: mantra_views(self.mantras@),
            bhasyas: bhasya_views(self.bhasyas@),
            anusrits: anusrit_views(self.anusrits@),
            name: opt_text(self.config.name),
            aliases: pair_views(self.shastra_config.aliases@),
        }
    }
}

/// A repository with nothing in it.
pub open spec fn empty_repository() -> RepositoryView {
    RepositoryView {
        mantras: Seq::empty(),
        bhasyas: Seq::empty(),
        anusrits: Seq::empty(),
        name: None,
        aliases: Seq::empty(),
    }
}

/// The first index at or after `i` whose key is `key`.
pub open spec fn lookup_from<V>(m: Seq<(Seq<char>, V)>, key: Seq<char>, i: int) -> Option<int>
    decreases m.len() - i,
{
    if i < 0 || i >= m.len() {
        None
    } else if m[i].0 == key {
        Some(i)
    } else {
        lookup_from(m, key, i + 1)
    }
}

/// The index of the entry with the key `key`.
pub open spec fn lookup<V>(m: Seq<(Seq<char>, V)>, key: Seq<char>) -> Option<int> {
    lookup_from(m, key, 0)
}

/// No key occurs twice.
pub open spec fn keys_unique<V>(m: Seq<(Seq<char>, V)>) -> bool {
    forall|i: int, j: int| 0 <= i < j < m.len() ==> (#[trigger] m[i]).0 != (#[trigger] m[j]).0
}

pub proof fn lemma_lookup_from<V>(m: Seq<(Seq<char>, V)>, key: Seq<char>, i: int)
    requires
        0 <= i,
    ensures
        match lookup_from(m, key, i) {
            Some(k) => i <= k < m.len() && m[k].0 == key && forall|j: int|
                i <= j < k ==> (#[trigger] m[j]).0 != key,
            None => forall|j: int| i <= j < m.len() ==> (#[trigger] m[j]).0 != key,
        },
    decreases m.len() - i,
{
    if i < m.len() && m[i].0 != key {
        lemma_lookup_from(m, key, i + 1);
    }
}

/// Where the keys are unique, the entry with a key is found at its index.
pub proof fn lemma_lookup_unique<V>(m: Seq<(Seq<char>, V)>, k: int)
    requires
        keys_unique(m),
        0 <= k < m.len(),
    ensures
        lookup(m, m[k].0) == Some(k),
{
    lemma_lookup_from(m, m[k].0, 0);
}

impl RepositoryView {
    /// The mantras are told apart by their text, every bhasya index that a
    /// mantra holds is the index of a bhasya, and the bhasyas that define a
    /// mantra are of kind `Mula`.
    pub open spec fn wf(self) -> bool {
        &&& keys_unique(self.mantras)
        &&& forall|i: int, k: int|
            0 <= i < self.mantras.len() && 0 <= k < self.mantras[i].1.mula_bhasyas.len() ==> {
                &&& (#[trigger] self.mantras[i].1.mula_bhasyas[k]) < self.bhasyas.len()
                &&& self.bhasyas[self.mantras[i].1.mula_bhasyas[k] as int].kind is Mula
            }
        &&& forall|i: int, k: int|
            0 <= i < self.mantras.len() && 0 <= k < self.mantras[i].1.anusrit_bhasyas.len()
                ==> (#[trigger] self.mantras[i].1.anusrit_bhasyas[k]) < self.bhasyas.len()
    }

    /// Whether a mula bhasya defines the mantra `text`.
    pub open spec fn defines(self, text: Seq<char>) -> bool {
        match lookup(self.mantras, text) {
            Some(i) => self.mantras[i].1.mula_bhasyas.len() > 0,
            None => false,
        }
    }
}

impl Repository {
    /// A repository with nothing in it.
    pub fn new() -> (r: Repository)
        ensures
            r@ == empty_repository(),
            r@.wf(),
    {
        let r = Repository {
            mantras: Vec::new(),
            bhasyas: Vec::new(),
            anusrits: Vec::new(),
            config: Config { name: None },
            shastra_config: ShastraConfig { aliases: Vec::new() },
        };
        assert(r@.mantras =~= Seq::empty());
        assert(r@.bhasyas =~= Seq::empty());
        assert(r@.anusrits =~= Seq::empty());
        assert(r@.aliases =~= Seq::empty());
        r
    }

    /// The index of the mantra `text`, if the repository holds it.
    pub fn find_mantra(&self, text: &String) -> (r: Option<usize>)
        ensures
            match r {
                Some(i) => lookup(self@.mantras, text@) == Some(i as int) && i < self.mantras@.len(),
                None => lookup(self@.mantras, text@).is_none(),
            },
    {
        let mut i: usize = 0;
        while i < self.mantras.len()
            invariant
                i <= self.mantras@.len(),
                lookup(self@.mantras, text@) == lookup_from(self@.mantras, text@, i as int),
            decreases self.mantras@.len() - i,
        {
            if self.mantras[i].0 == *text {
                return Some(i);
            }
            i += 1;
        }
        None
    }
}

impl Default for Repository {
    fn default() -> (r: Repository)
        ensures
            r@ == empty_repository(),
    {
        Repository::new()
    }
}

/// The index of the alias `name` among `aliases`.
pub fn find_alias(aliases: &Vec<(String, String)>, name: &String) -> (r: Option<usize>)
    ensures
        match r {
            Some(i) => lookup(pair_views(aliases@), name@) == Some(i as int) && i < aliases@.len(),
            None => lookup(pair_views(aliases@), name@).is_none(),
        },
{
    let mut i: usize = 0;
    while i < aliases.len()
        invariant
            i <= aliases@.len(),
            lookup(pair_views(aliases@), name@) == lookup_from(pair_views(aliases@), name@, i as int),
        decreases aliases@.len() - i,
    {
        if aliases[i].0 == *name {
            return Some(i);
        }
        i += 1;
    }
    None
}


/// The values of a list of mantras handed out by reference.
pub open spec fn entry_refs(v: Seq<(&str, &MantraInfo)>) -> Seq<(Seq<char>, MantraInfoView)> {
    v.map_values(|e: (&str, &MantraInfo)| (e.0@, e.1@))
}

/// The values of a list of mantras with a bhasya each, handed out by
/// reference.
pub open spec fn occurrence_refs(v: Seq<(&str, &Bhasya)>) -> Seq<(Seq<char>, BhasyaView)> {
    v.map_values(|e: (&str, &Bhasya)| (e.0@, e.1@))
}

/// The values of a list of bhasyas handed out by reference.
pub open spec fn bhasya_refs(v: Seq<&Bhasya>) -> Seq<BhasyaView> {
    v.map_values(|b: &Bhasya| b@)
}

/// Those of the first `n` mantras that no commentary explains.
pub open spec fn unexplained_upto(m: Seq<(Seq<char>, MantraInfoView)>, n: int) -> Seq<
    (Seq<char>, MantraInfoView),
>
    decreases n,
{
    if n <= 0 {
        Seq::empty()
    } else if m[n - 1].1.has_explanation {
        unexplained_upto(m, n - 1)
    } else {
        unexplained_upto(m, n - 1).push(m[n - 1])
    }
}

/// The bhasyas behind the first `n` of the indices `ids`; an index that is
/// no bhasya's is passed over.
pub open spec fn bhasyas_at(bhasyas: Seq<BhasyaView>, ids: Seq<usize>, n: int) -> Seq<BhasyaView>
    decreases n,
{
    if n <= 0 {
        Seq::empty()
    } else if ids[n - 1] < bhasyas.len() {
        bhasyas_at(bhasyas, ids, n - 1).push(bhasyas[ids[n - 1] as int])
    } else {
        bhasyas_at(bhasyas, ids, n - 1)
    }
}

/// `text` paired with each of `bs`.
pub open spec fn paired(text: Seq<char>, bs: Seq<BhasyaView>) -> Seq<(Seq<char>, BhasyaView)> {
    bs.map_values(|b: BhasyaView| (text, b))
}

impl RepositoryView {
    /// The mantras that no commentary explains, in their order.
    pub open spec fn unexplained(self) -> Seq<(Seq<char>, MantraInfoView)> {
        unexplained_upto(self.mantras, self.mantras.len() as int)
    }

    /// The mula bhasyas of the mantra at `i`.
    pub open spec fn mula_bhasyas_of(self, i: int) -> Seq<BhasyaView> {
        bhasyas_at(
            self.bhasyas,
            self.mantras[i].1.mula_bhasyas,
            self.mantras[i].1.mula_bhasyas.len() as int,
        )
    }

    /// Each of the first `n` mantras with each of its mula bhasyas.
    pub open spec fn mula_occurrences_upto(self, n: int) -> Seq<(Seq<char>, BhasyaView)>
        decreases n,
    {
        if n <= 0 {
            Seq::empty()
        } else {
            self.mula_occurrences_upto(n - 1) + paired(
                self.mantras[n - 1].0,
                self.mula_bhasyas_of(n - 1),
            )
        }
    }

    /// Each mantra with each of its mula bhasyas: mantra by mantra, and for
    /// each the bhasyas in the order in which they were entered.
    pub open spec fn mula_occurrences(self) -> Seq<(Seq<char>, BhasyaView)> {
        self.mula_occurrences_upto(self.mantras.len() as int)
    }

    /// The bhasyas of the mantra `text`: those that define it, then those
    /// that refer to it.
    pub open spec fn bhasyas_for(self, text: Seq<char>) -> Seq<BhasyaView> {
        match lookup(self.mantras, text) {
            Some(i) => self.mula_bhasyas_of(i) + bhasyas_at(
                self.bhasyas,
                self.mantras[i].1.anusrit_bhasyas,
                self.mantras[i].1.anusrit_bhasyas.len() as int,
            ),
            None => Seq::empty(),
        }
    }
}

impl Repository {
    /// The bhasyas behind the indices `ids`, put behind `out`.
    pub fn collect_bhasyas<'a>(&'a self, ids: &Vec<usize>, out: &mut Vec<&'a Bhasya>)
        ensures
            bhasya_refs(final(out)@) == bhasya_refs(old(out)@) + bhasyas_at(
                self@.bhasyas,
                ids@,
                ids@.len() as int,
            ),
    {
        let mut k: usize = 0;
        assert(bhasya_refs(out@) + Seq::<BhasyaView>::empty() =~= bhasya_refs(out@));
        while k < ids.len()
            invariant
                k <= ids@.len(),
                bhasya_refs(out@) == bhasya_refs(old(out)@) + bhasyas_at(
                    self@.bhasyas,
                    ids@,
                    k as int,
                ),
            decreases ids@.len() - k,
        {
            let idx = ids[k];
            if idx < self.bhasyas.len() {
                let ghost before = bhasya_refs(out@);
                let b = &self.bhasyas[idx];
                assert(self@.bhasyas[idx as int] == b@);
                out.push(b);
                assert(bhasya_refs(out@) =~= before.push(b@));
                assert(before.push(b@) =~= bhasya_refs(old(out)@) + bhasyas_at(
                    self@.bhasyas,
                    ids@,
                    k as int,
                ).push(b@));
            }
            k += 1;
        }
    }

    /// The mantras without an explanation, each with what is known of it.
    pub fn unexplained_mantras(&self) -> (r: Vec<(&str, &MantraInfo)>)
        ensures
            entry_refs(r@) == self@.unexplained(),
    {
        let mut r: Vec<(&str, &MantraInfo)> = Vec::new();
        let mut i: usize = 0;
        assert(entry_refs(r@) =~= Seq::empty());
        while i < self.mantras.len()
            invariant
                i <= self.mantras@.len(),
                entry_refs(r@) == unexplained_upto(self@.mantras, i as int),
            decreases self.mantras@.len() - i,
        {
            let e = &self.mantras[i];
            assert(self@.mantras[i as int] == (e.0@, e.1@));
            if !e.1.has_explanation {
                let ghost before = entry_refs(r@);
                r.push((e.0.as_str(), &e.1));
                assert(entry_refs(r@) =~= before.push((e.0@, e.1@)));
            }
            i += 1;
        }
        r
    }

    /// Each mantra with each of the mula bhasyas that define it.
    pub fn mula_mantras_with_bhasyas(&self) -> (r: Vec<(&str, &Bhasya)>)
        ensures
            occurrence_refs(r@) == self@.mula_occurrences(),
    {
        let mut r: Vec<(&str, &Bhasya)> = Vec::new();
        let mut i: usize = 0;
        assert(occurrence_refs(r@) =~= Seq::empty());
        while i < self.mantras.len()
            invariant
                i <= self.mantras@.len(),
                occurrence_refs(r@) == self@.mula_occurrences_upto(i as int),
            decreases self.mantras@.len() - i,
        {
            let e = &self.mantras[i];
            assert(self@.mantras[i as int] == (e.0@, e.1@));
            let mut found: Vec<&Bhasya> = Vec::new();
            assert(bhasya_refs(found@) =~= Seq::empty());
            self.collect_bhasyas(&e.1.mula_bhasyas, &mut found);
            assert(bhasya_refs(found@) =~= self@.mula_bhasyas_of(i as int));
            let ghost before = occurrence_refs(r@);
            let mut k: usize = 0;
            while k < found.len()
                invariant
                    k <= found@.len(),
                    occurrence_refs(r@) =~= before + paired(e.0@, bhasya_refs(found@)).take(k as int),
                decreases found@.len() - k,
            {
                let ghost sofar = occurrence_refs(r@);
                let ghost all = paired(e.0@, bhasya_refs(found@));
                r.push((e.0.as_str(), found[k]));
                assert(occurrence_refs(r@) =~= sofar.push((e.0@, found@[k as int]@)));
                assert(all.take(k + 1) =~= all.take(k as int).push(all[k as int]));
                k += 1;
            }
            assert(paired(e.0@, bhasya_refs(found@)).take(found@.len() as int) =~= paired(
                e.0@,
                bhasya_refs(found@),
            ));
            i += 1;
        }
        r
    }

    /// The bhasyas of a mantra: those that define it, then those that refer
    /// to it.
    pub fn bhasyas_for_mantra(&self, mantra_text: &str) -> (r: Vec<&Bhasya>)
        ensures
            bhasya_refs(r@) == self@.bhasyas_for(mantra_text@),
    {
        let mut r: Vec<&Bhasya> = Vec::new();
        assert(bhasya_refs(r@) =~= Seq::empty());
        let key = mantra_text.to_owned();
        match self.find_mantra(&key) {
            Some(i) => {
                let e = &self.mantras[i];
                assert(self@.mantras[i as int] == (e.0@, e.1@));
                self.collect_bhasyas(&e.1.mula_bhasyas, &mut r);
                self.collect_bhasyas(&e.1.anusrit_bhasyas, &mut r);
                assert(bhasya_refs(r@) =~= self@.bhasyas_for(mantra_text@));
            },
            None => {},
        }
        r
    }

    /// Whether a mula bhasya defines the mantra.
    pub fn has_any_bhasya_for_mantra(&self, mantra_text: &str) -> (r: bool)
        ensures
            r == self@.defines(mantra_text@),
    {
        let key = mantra_text.to_owned();
        match self.find_mantra(&key) {
            Some(i) => {
                assert(self@.mantras[i as int] == (self.mantras@[i as int].0@, self.mantras@[i as int].1@));
                self.mantras[i].1.mula_bhasyas.len() > 0
            },
            None => false,
        }
    }
}

} // verus!
