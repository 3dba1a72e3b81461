//! A shastra held against its canon: which mantras the canon accepts as they
//! stand, which are new, which have changed, and which the canon holds
//! though no file defines them.

use crate::canon::{Canon, CanonView, find_canon_entry};
use crate::model::{
    Bhasya, bhasya_refs, bhasya_views, BhasyaView, lookup, Repository, RepositoryView,
};
use crate::scan::{commentary, commentary_of};
use crate::text::{
    chars_of, is_space, is_space_char, join, joined, lemma_skip_spaces_bounds, same_text,
    skip_spaces, skip_spaces_from, slice, texts,
};
use vstd::prelude::*;

verus! {

/// How a mantra stands towards the canon.
#[derive(Debug, PartialEq, Eq)]
pub enum MantraStatus {
    /// The canon holds the mantra with the commentary of one of its bhasyas.
    Accepted,
    /// The canon does not hold the mantra.
    New,
    /// The canon holds the mantra with another commentary.
    Changed { canon_commentary: String },
    /// The canon holds the mantra, and no bhasya defines it.
    OrphanedInCanon { canon_commentary: String },
}

pub enum StatusView {
    Accepted,
    New,
    Changed(Seq<char>),
    OrphanedInCanon(Seq<char>),
}

impl View for MantraStatus {
    type V = StatusView;

    open spec fn view(&self) -> StatusView {
        match self {
            MantraStatus::Accepted => StatusView::Accepted,
            MantraStatus::New => StatusView::New,
            MantraStatus::Changed { canon_commentary } => StatusView::Changed(canon_commentary@),
            MantraStatus::OrphanedInCanon { canon_commentary } => StatusView::OrphanedInCanon(
                canon_commentary@,
            ),
        }
    }
}

/// A mantra with the mula bhasyas that define it and its status.
#[derive(Debug, PartialEq, Eq)]
pub struct MantraWithStatus {
    pub mantra_text: String,
    pub bhasyas: Vec<Bhasya>,
    pub status: MantraStatus,
}

pub struct MantraWithStatusView {
    pub mantra_text: Seq<char>,
    pub bhasyas: Seq<BhasyaView>,
    pub status: StatusView,
}

impl View for MantraWithStatus {
    type V = MantraWithStatusView;

    open spec fn view(&self) -> MantraWithStatusView {
        MantraWithStatusView {
            mantra_text: self.mantra_text@,
            bhasyas: bhasya_views(self.bhasyas@),
            status: self.status@,
        }
    }
}

pub open spec fn status_views(v: Seq<MantraWithStatus>) -> Seq<MantraWithStatusView> {
    v.map_values(|m: MantraWithStatus| m@)
}

/// The first index at or after `i` that holds white space, or the length.
pub open spec fn next_space(s: Seq<char>, i: int) -> int
    decreases s.len() - i,
{
    if 0 <= i < s.len() && !is_space(s[i]) {
        next_space(s, i + 1)
    } else {
        i
    }
}

pub proof fn lemma_next_space_bounds(s: Seq<char>, i: int)
    requires
        0 <= i <= s.len(),
    ensures
        i <= next_space(s, i) <= s.len(),
        i < s.len() && !is_space(s[i]) ==> i < next_space(s, i),
    decreases s.len() - i,
{
    if i < s.len() && !is_space(s[i]) {
        lemma_next_space_bounds(s, i + 1);
    }
}

/// The words of `s[i..]`: the runs of characters that are no white space.
pub open spec fn words_from(s: Seq<char>, i: int) -> Seq<Seq<char>>
    decreases s.len() - i,
    via words_decreases
{
    let a = skip_spaces(s, i);
    let b = next_space(s, a);
    if i < 0 || a >= s.len() {
        Seq::empty()
    } else {
        seq![s.subrange(a, b)] + words_from(s, b)
    }
}

#[via_fn]
proof fn words_decreases(s: Seq<char>, i: int) {
    if 0 <= i <= s.len() {
        lemma_skip_spaces_bounds(s, i);
        let a = skip_spaces(s, i);
        if a < s.len() {
            lemma_next_space_bounds(s, a);
        }
    }
}

/// A commentary as it is compared: its words with one space between each
/// two.
pub open spec fn normal_commentary(s: Seq<char>) -> Seq<char> {
    joined(words_from(s, 0), " "@)
}

/// Brings a commentary into the form in which it is compared.
pub fn normalize_commentary(s: &Vec<char>) -> (r: Vec<char>)
    ensures
        r@ == normal_commentary(s@),
{
    let n = s.len();
    let mut words: Vec<Vec<char>> = Vec::new();
    let mut i: usize = 0;
    let mut done = false;
    assert(texts(words@) =~= Seq::empty());
    while !done
        invariant
            i <= n,
            n == s@.len(),
            !done ==> words_from(s@, 0) == texts(words@) + words_from(s@, i as int),
            done ==> words_from(s@, 0) == texts(words@),
        decreases n - i + if done { 0int } else { 1int },
    {
        let a = skip_spaces_from(s, i);
        if a >= n {
            assert(texts(words@) + Seq::<Seq<char>>::empty() =~= texts(words@));
            done = true;
        } else {
            proof {
                lemma_skip_spaces_bounds(s@, i as int);
                lemma_next_space_bounds(s@, a as int);
            }
            let mut b: usize = a;
            while b < n && !is_space_char(s[b])
                invariant
                    a <= b <= n,
                    n == s@.len(),
                    next_space(s@, a as int) == next_space(s@, b as int),
                decreases n - b,
            {
                b += 1;
            }
            let ghost before = texts(words@);
            let ghost rest = words_from(s@, b as int);
            let w = slice(s, a, b);
            words.push(w);
            assert(texts(words@) =~= before.push(w@));
            assert(before.push(w@) + rest =~= before + (seq![w@] + rest));
            i = b;
        }
    }
    let space = chars_of(" ");
    join(&words, &space)
}

/// One of the first `n` bhasyas has the commentary `canon`, compared in
/// normal form.
pub open spec fn any_matches(bs: Seq<BhasyaView>, canon: Seq<char>, n: int) -> bool
    decreases n,
{
    n > 0 && (any_matches(bs, canon, n - 1) || normal_commentary(commentary_of(bs[n - 1].paragraph))
        == normal_commentary(canon))
}

/// The status of a mantra with the bhasyas `bs`.
pub open spec fn status_of(cv: CanonView, text: Seq<char>, bs: Seq<BhasyaView>) -> StatusView {
    match lookup(cv.entries, text) {
        Some(c) => if any_matches(bs, cv.entries[c].1.commentary, bs.len() as int) {
            StatusView::Accepted
        } else {
            StatusView::Changed(cv.entries[c].1.commentary)
        },
        None => StatusView::New,
    }
}

/// Those of the first `n` mantras that a mula bhasya defines, each with its
/// bhasyas and its status.
pub open spec fn defined_upto(rv: RepositoryView, cv: CanonView, n: int) -> Seq<MantraWithStatusView>
    decreases n,
{
    if n <= 0 {
        Seq::empty()
    } else if rv.mula_bhasyas_of(n - 1).len() > 0 {
        defined_upto(rv, cv, n - 1).push(
            MantraWithStatusView {
                mantra_text: rv.mantras[n - 1].0,
                bhasyas: rv.mula_bhasyas_of(n - 1),
                status: status_of(cv, rv.mantras[n - 1].0, rv.mula_bhasyas_of(n - 1)),
            },
        )
    } else {
        defined_upto(rv, cv, n - 1)
    }
}

/// Whether a mula bhasya of the repository defines the mantra `text`.
pub open spec fn has_bhasyas(rv: RepositoryView, text: Seq<char>) -> bool {
    match lookup(rv.mantras, text) {
        Some(i) => rv.mula_bhasyas_of(i).len() > 0,
        None => false,
    }
}

/// Those of the first `n` entries of the canon whose mantra no mula bhasya
/// defines.
pub open spec fn orphans_upto(rv: RepositoryView, cv: CanonView, n: int) -> Seq<MantraWithStatusView>
    decreases n,
{
    if n <= 0 {
        Seq::empty()
    } else if !has_bhasyas(rv, cv.entries[n - 1].0) {
        orphans_upto(rv, cv, n - 1).push(
            MantraWithStatusView {
                mantra_text: cv.entries[n - 1].0,
                bhasyas: Seq::empty(),
                status: StatusView::OrphanedInCanon(cv.entries[n - 1].1.commentary),
            },
        )
    } else {
        orphans_upto(rv, cv, n - 1)
    }
}

/// The mantras of the repository and of the canon with their status, before
/// they are put in order.
pub open spec fn unsorted_status(rv: RepositoryView, cv: CanonView) -> Seq<MantraWithStatusView> {
    defined_upto(rv, cv, rv.mantras.len() as int) + orphans_upto(rv, cv, cv.entries.len() as int)
}

/// `a` stands before `b` in the order of texts: at the first place where
/// they differ `a` has the smaller character, or `a` ends there and `b` does
/// not. This is the order of `String`.
pub open spec fn text_lt_from(a: Seq<char>, b: Seq<char>, i: int) -> bool
    decreases b.len() - i,
{
    if i < 0 || i >= b.len() {
        false
    } else if i >= a.len() {
        true
    } else if a[i] != b[i] {
        a[i] < b[i]
    } else {
        text_lt_from(a, b, i + 1)
    }
}

pub open spec fn text_lt(a: Seq<char>, b: Seq<char>) -> bool {
    text_lt_from(a, b, 0)
}

/// Where `x` goes among `s`: before the first from `i` on that stands
/// behind it in the order of texts.
pub open spec fn place_from(s: Seq<MantraWithStatusView>, x: Seq<char>, i: int) -> int
    decreases s.len() - i,
{
    if 0 <= i < s.len() && !text_lt(x, s[i].mantra_text) {
        place_from(s, x, i + 1)
    } else {
        i
    }
}

/// `s` with `x` put in at its place.
pub open spec fn put_in_order(s: Seq<MantraWithStatusView>, x: MantraWithStatusView) -> Seq<
    MantraWithStatusView,
> {
    s.insert(place_from(s, x.mantra_text, 0), x)
}

/// The first `n` of `items`, put in order one after the other.
pub open spec fn ordered_upto(items: Seq<MantraWithStatusView>, n: int) -> Seq<MantraWithStatusView>
    decreases n,
{
    if n <= 0 {
        Seq::empty()
    } else {
        put_in_order(ordered_upto(items, n - 1), items[n - 1])
    }
}

/// No mantra stands before one that stands before it in the order of texts.
pub open spec fn in_order(s: Seq<MantraWithStatusView>) -> bool {
    forall|i: int, j: int|
        0 <= i < j < s.len() ==> !text_lt((#[trigger] s[j]).mantra_text, (#[trigger] s[i]).mantra_text)
}

pub proof fn lemma_place_from(s: Seq<MantraWithStatusView>, x: Seq<char>, i: int)
    requires
        0 <= i <= s.len(),
    ensures
        i <= place_from(s, x, i) <= s.len(),
        forall|k: int| i <= k < place_from(s, x, i) ==> !text_lt(x, (#[trigger] s[k]).mantra_text),
        place_from(s, x, i) < s.len() ==> text_lt(x, s[place_from(s, x, i)].mantra_text),
    decreases s.len() - i,
{
    if i < s.len() && !text_lt(x, s[i].mantra_text) {
        lemma_place_from(s, x, i + 1);
    }
}

/// The order of texts is transitive, and nothing stands before itself in a
/// circle of two.
pub proof fn lemma_text_lt_trans(a: Seq<char>, b: Seq<char>, c: Seq<char>, i: int)
    requires
        0 <= i,
        forall|k: int| 0 <= k < i && k < a.len() && k < b.len() ==> a[k] == b[k],
        text_lt_from(a, b, i),
        text_lt_from(b, c, i),
    ensures
        text_lt_from(a, c, i),
    decreases c.len() - i,
{
    if i < a.len() && i < b.len() && i < c.len() && a[i] == b[i] && b[i] == c[i] {
        lemma_text_lt_trans(a, b, c, i + 1);
    }
}

pub proof fn lemma_text_lt_asym(a: Seq<char>, b: Seq<char>, i: int)
    requires
        0 <= i,
        text_lt_from(a, b, i),
    ensures
        !text_lt_from(b, a, i),
    decreases b.len() - i,
{
    if i < a.len() && i < b.len() && a[i] == b[i] {
        lemma_text_lt_asym(a, b, i + 1);
    }
}

/// Putting a mantra in at its place keeps the order.
pub proof fn put_in_order_keeps_order(s: Seq<MantraWithStatusView>, x: MantraWithStatusView)
    requires
        in_order(s),
    ensures
        in_order(put_in_order(s, x)),
{
    let p = place_from(s, x.mantra_text, 0);
    lemma_place_from(s, x.mantra_text, 0);
    let r = put_in_order(s, x);
    assert forall|i: int, j: int| 0 <= i < j < r.len() implies !text_lt(
        (#[trigger] r[j]).mantra_text,
        (#[trigger] r[i]).mantra_text,
    ) by {
        if j < p {
            assert(r[i] == s[i] && r[j] == s[j]);
        } else if j == p {
            assert(r[i] == s[i]);
            assert(!text_lt(x.mantra_text, s[i].mantra_text));
        } else if i == p {
            assert(r[j] == s[j - 1]);
            assert(text_lt(x.mantra_text, s[p].mantra_text));
            if j - 1 > p {
                assert(!text_lt(s[j - 1].mantra_text, s[p].mantra_text));
            }
            if text_lt(s[j - 1].mantra_text, x.mantra_text) {
                lemma_text_lt_trans(s[j - 1].mantra_text, x.mantra_text, s[p].mantra_text, 0);
                lemma_text_lt_asym(s[j - 1].mantra_text, s[p].mantra_text, 0);
            }
        } else if i > p {
            assert(r[i] == s[i - 1] && r[j] == s[j - 1]);
        } else {
            assert(r[i] == s[i] && r[j] == s[j - 1]);
            if i < j - 1 {
                assert(!text_lt(s[j - 1].mantra_text, s[i].mantra_text));
            }
        }
    }
}

/// What `compare_with_canon` hands out is in the order of the mantras'
/// texts.
pub proof fn ordered_is_in_order(items: Seq<MantraWithStatusView>, n: int)
    requires
        0 <= n <= items.len(),
    ensures
        in_order(ordered_upto(items, n)),
        ordered_upto(items, n).len() == n,
    decreases n,
{
    if n > 0 {
        ordered_is_in_order(items, n - 1);
        lemma_place_from(ordered_upto(items, n - 1), items[n - 1].mantra_text, 0);
        put_in_order_keeps_order(ordered_upto(items, n - 1), items[n - 1]);
    }
}

/// Whether `a` stands before `b` in the order of texts.
pub fn text_before(a: &Vec<char>, b: &Vec<char>) -> (r: bool)
    ensures
        r == text_lt(a@, b@),
{
    let mut i: usize = 0;
    while i < a.len() && i < b.len() && a[i] == b[i]
        invariant
            i <= a@.len(),
            i <= b@.len(),
            text_lt(a@, b@) == text_lt_from(a@, b@, i as int),
        decreases a@.len() - i,
    {
        i += 1;
    }
    if i >= b.len() {
        false
    } else if i >= a.len() {
        true
    } else {
        a[i] < b[i]
    }
}

/// Puts the mantras in the order of their texts.
pub fn sort_by_text(items: Vec<MantraWithStatus>) -> (r: Vec<MantraWithStatus>)
    ensures
        status_views(r@) == ordered_upto(status_views(items@), items@.len() as int),
        in_order(status_views(r@)),
{
    let ghost iv = status_views(items@);
    let n = items.len();
    let mut rest = items;
    let mut r: Vec<MantraWithStatus> = Vec::new();
    assert(status_views(r@) =~= Seq::empty());
    // the items are taken from the end, so they are first turned round
    let mut turned: Vec<MantraWithStatus> = Vec::new();
    let mut k: usize = 0;
    while k < n
        invariant
            k <= n,
            n == iv.len(),
            rest@.len() == n - k,
            turned@.len() == k,
            forall|j: int| 0 <= j < n - k ==> (#[trigger] rest@[j])@ == iv[j],
            forall|j: int| 0 <= j < k ==> (#[trigger] turned@[j])@ == iv[n - 1 - j],
        decreases n - k,
    {
        match rest.pop() {
            Some(x) => {
                turned.push(x);
            },
            None => {},
        }
        k += 1;
    }
    let mut i: usize = 0;
    while i < n
        invariant
            i <= n,
            n == iv.len(),
            turned@.len() == n - i,
            forall|j: int| 0 <= j < n - i ==> (#[trigger] turned@[j])@ == iv[n - 1 - j],
            status_views(r@) == ordered_upto(iv, i as int),
        decreases n - i,
    {
        proof {
            ordered_is_in_order(iv, i as int);
        }
        match turned.pop() {
            Some(x) => {
                assert(x@ == iv[i as int]);
                let key = chars_of(x.mantra_text.as_str());
                let ghost sv = status_views(r@);
                let mut p: usize = 0;
                while p < r.len() && !text_before(&key, &chars_of(r[p].mantra_text.as_str()))
                    invariant
                        p <= r@.len(),
                        sv == status_views(r@),
                        key@ == x@.mantra_text,
                        place_from(sv, key@, 0) == place_from(sv, key@, p as int),
                    decreases r@.len() - p,
                {
                    assert(sv[p as int] == r@[p as int]@);
                    p += 1;
                }
                assert(p < r@.len() ==> sv[p as int] == r@[p as int]@);
                let ghost xv = x@;
                r.insert(p, x);
                assert(status_views(r@) =~= sv.insert(p as int, xv));
            },
            None => {},
        }
        i += 1;
    }
    proof {
        ordered_is_in_order(iv, n as int);
    }
    r
}

/// Holds the mantras of a repository against a canon. Every mantra that a
/// mula bhasya defines comes with its bhasyas and is accepted, changed or
/// new; every mantra that only the canon holds is an orphan. They come in
/// the order of their texts.
pub fn compare_with_canon(repo: &Repository, canon: &Canon) -> (r: Vec<MantraWithStatus>)
    ensures
        status_views(r@) == ordered_upto(
            unsorted_status(repo@, canon@),
            unsorted_status(repo@, canon@).len() as int,
        ),
        in_order(status_views(r@)),
{
    let ghost rv = repo@;
    let ghost cv = canon@;
    let mut list: Vec<MantraWithStatus> = Vec::new();
    let mut i: usize = 0;
    assert(status_views(list@) =~= Seq::empty());
    while i < repo.mantras.len()
        invariant
            i <= repo.mantras@.len(),
            rv == repo@,
            cv == canon@,
            status_views(list@) == defined_upto(rv, cv, i as int),
        decreases repo.mantras@.len() - i,
    {
        let e = &repo.mantras[i];
        assert(rv.mantras[i as int] == (e.0@, e.1@));
        let mut found: Vec<&Bhasya> = Vec::new();
        assert(bhasya_refs(found@) =~= Seq::empty());
        repo.collect_bhasyas(&e.1.mula_bhasyas, &mut found);
        assert(bhasya_refs(found@) =~= rv.mula_bhasyas_of(i as int));
        if found.len() > 0 {
            let ghost bs = bhasya_refs(found@);
            let mut bhasyas: Vec<Bhasya> = Vec::new();
            let mut k: usize = 0;
            while k < found.len()
                invariant
                    k <= found@.len(),
                    bs == bhasya_refs(found@),
                    bhasyas@.len() == k,
                    forall|j: int| 0 <= j < k ==> (#[trigger] bhasyas@[j])@ == bs[j],
                decreases found@.len() - k,
            {
                assert(bs[k as int] == found@[k as int]@);
                bhasyas.push(found[k].clone());
                k += 1;
            }
            assert(bhasya_views(bhasyas@) =~= bs);
            let status = match find_canon_entry(&canon.entries, &e.0) {
                Some(c) => {
                    assert(cv.entries[c as int] == (
                        canon.entries@[c as int].0@,
                        canon.entries@[c as int].1@,
                    ));
                    let wanted = normalize_commentary(
                        &chars_of(canon.entries[c].1.commentary.as_str()),
                    );
                    let mut matches = false;
                    let mut k: usize = 0;
                    while k < found.len()
                        invariant
                            k <= found@.len(),
                            bs == bhasya_refs(found@),
                            wanted@ == normal_commentary(cv.entries[c as int].1.commentary),
                            matches == any_matches(bs, cv.entries[c as int].1.commentary, k as int),
                        decreases found@.len() - k,
                    {
                        assert(bs[k as int] == found@[k as int]@);
                        let own = normalize_commentary(
                            &commentary(&chars_of(found[k].paragraph.as_str())),
                        );
                        if same_text(&own, &wanted) {
                            matches = true;
                        }
                        k += 1;
                    }
                    if matches {
                        MantraStatus::Accepted
                    } else {
                        MantraStatus::Changed {
                            canon_commentary: canon.entries[c].1.commentary.clone(),
                        }
                    }
                },
                None => MantraStatus::New,
            };
            let ghost before = status_views(list@);
            let item = MantraWithStatus { mantra_text: e.0.clone(), bhasyas, status };
            let ghost item_view = item@;
            list.push(item);
            assert(status_views(list@) =~= before.push(item_view));
        }
        i += 1;
    }
    let ghost first = status_views(list@);
    let mut i: usize = 0;
    assert(first + Seq::<MantraWithStatusView>::empty() =~= first);
    while i < canon.entries.len()
        invariant
            i <= canon.entries@.len(),
            rv == repo@,
            cv == canon@,
            first == defined_upto(rv, cv, rv.mantras.len() as int),
            status_views(list@) == first + orphans_upto(rv, cv, i as int),
        decreases canon.entries@.len() - i,
    {
        let c = &canon.entries[i];
        assert(cv.entries[i as int] == (c.0@, c.1@));
        let known = match repo.find_mantra(&c.0) {
            Some(m) => {
                assert(rv.mantras[m as int] == (repo.mantras@[m as int].0@, repo.mantras@[m as int].1@));
                let mut found: Vec<&Bhasya> = Vec::new();
                assert(bhasya_refs(found@) =~= Seq::empty());
                repo.collect_bhasyas(&repo.mantras[m].1.mula_bhasyas, &mut found);
                assert(bhasya_refs(found@) =~= rv.mula_bhasyas_of(m as int));
                found.len() > 0
            },
            None => false,
        };
        if !known {
            let ghost before = status_views(list@);
            let ghost prev = orphans_upto(rv, cv, i as int);
            let item = MantraWithStatus {
                mantra_text: c.0.clone(),
                bhasyas: Vec::new(),
                status: MantraStatus::OrphanedInCanon { canon_commentary: c.1.commentary.clone() },
            };
            assert(bhasya_views(item.bhasyas@) =~= Seq::empty());
            let ghost item_view = item@;
            list.push(item);
            assert(status_views(list@) =~= before.push(item_view));
            assert(before.push(item_view) =~= first + prev.push(item_view));
        }
        i += 1;
    }
    sort_by_text(list)
}

} // verus!
