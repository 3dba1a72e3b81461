//! References to templated mantras: which mantra a reference means, and the
//! values that the references of a shastra give to the placeholders.

use crate::model::{AnusritView, MantraInfoView, Repository, RepositoryView};
use crate::template::{
    answers, has_placeholder, is_template, mantra_answers, match_template, matches_template,
    string_pairs, values_of,
};
use crate::text::{chars_of, same_text, slice, trim, trimmed};
use vstd::prelude::*;

verus! {

/// The first mantra at or after `i` that the reference `text` means.
pub open spec fn answering_from(m: Seq<(Seq<char>, MantraInfoView)>, text: Seq<char>, i: int) -> Option<
    int,
>
    decreases m.len() - i,
{
    if i < 0 || i >= m.len() {
        None
    } else if answers(m[i].0, text) {
        Some(i)
    } else {
        answering_from(m, text, i + 1)
    }
}

/// The first template at or after `i` that the reference `text` matches.
pub open spec fn template_from(m: Seq<(Seq<char>, MantraInfoView)>, text: Seq<char>, i: int) -> Option<
    int,
>
    decreases m.len() - i,
{
    if i < 0 || i >= m.len() {
        None
    } else if is_template(m[i].0) && matches_template(m[i].0, text) {
        Some(i)
    } else {
        template_from(m, text, i + 1)
    }
}

/// A value that a reference gives to a placeholder of a template.
#[derive(Debug, PartialEq, Eq)]
pub struct PlaceholderValue {
    pub template: String,
    pub key: String,
    pub value: String,
    /// Where the reference stands.
    pub file: String,
    pub line: usize,
}

pub struct ValueView {
    pub template: Seq<char>,
    pub key: Seq<char>,
    pub value: Seq<char>,
    pub file: Seq<char>,
    pub line: usize,
}

impl View for PlaceholderValue {
    type V = ValueView;

    open spec fn view(&self) -> ValueView {
        ValueView {
            template: self.template@,
            key: self.key@,
            value: self.value@,
            file: self.file@,
            line: self.line,
        }
    }
}

pub open spec fn value_views(v: Seq<PlaceholderValue>) -> Seq<ValueView> {
    v.map_values(|p: PlaceholderValue| p@)
}

/// The values `kv`, each as a value that the reference `a` gives to the
/// template `template`.
pub open spec fn placed(template: Seq<char>, a: AnusritView, kv: Seq<(Seq<char>, Seq<char>)>) -> Seq<
    ValueView,
> {
    kv.map_values(
        |p: (Seq<char>, Seq<char>)|
            ValueView { template, key: p.0, value: p.1, file: a.file, line: a.line },
    )
}

/// The values that one reference gives: those for the first template, in
/// the order of the mantras, that it matches.
pub open spec fn reference_values(m: Seq<(Seq<char>, MantraInfoView)>, a: AnusritView) -> Seq<ValueView> {
    match template_from(m, a.mantra_text, 0) {
        Some(i) => placed(m[i].0, a, values_of(m[i].0, a.mantra_text).unwrap()),
        None => Seq::empty(),
    }
}

/// The values that the first `n` references outside bhasyas give.
pub open spec fn values_upto(rv: RepositoryView, n: int) -> Seq<ValueView>
    decreases n,
{
    if n <= 0 {
        Seq::empty()
    } else {
        values_upto(rv, n - 1) + reference_values(rv.mantras, rv.anusrits[n - 1])
    }
}

/// The values that the references of a shastra give to the placeholders of
/// its templates.
pub open spec fn placeholder_values(rv: RepositoryView) -> Seq<ValueView> {
    values_upto(rv, rv.anusrits.len() as int)
}

/// A filter as it is typed: trimmed, and without the square brackets around
/// it, if it has them.
pub open spec fn unbracketed(f: Seq<char>) -> Seq<char> {
    let t = trimmed(f);
    if t.len() >= 2 && t[0] == '[' && t.last() == ']' {
        t.subrange(1, t.len() - 1)
    } else {
        t
    }
}

/// Whether a value passes the filters: its template is the one asked for,
/// and its key is.
pub open spec fn passes(v: ValueView, mantra: Option<Seq<char>>, key: Option<Seq<char>>) -> bool {
    &&& match mantra {
        Some(m) => v.template == unbracketed(m),
        None => true,
    }
    &&& match key {
        Some(k) => v.key == k,
        None => true,
    }
}

/// Those of the first `n` values that pass the filters.
pub open spec fn selected_upto(
    all: Seq<ValueView>,
    mantra: Option<Seq<char>>,
    key: Option<Seq<char>>,
    n: int,
) -> Seq<ValueView>
    decreases n,
{
    if n <= 0 {
        Seq::empty()
    } else if passes(all[n - 1], mantra, key) {
        selected_upto(all, mantra, key, n - 1).push(all[n - 1])
    } else {
        selected_upto(all, mantra, key, n - 1)
    }
}

impl Repository {
    /// The mantra that a reference means: the first, in the order of the
    /// mantras, that the reference repeats or, if it is a template, matches.
    pub fn resolve(&self, reference: &str) -> (r: Option<usize>)
        ensures
            match r {
                Some(i) => answering_from(self@.mantras, reference@, 0) == Some(i as int) && i
                    < self.mantras@.len(),
                None => answering_from(self@.mantras, reference@, 0).is_none(),
            },
    {
        let text = chars_of(reference);
        let mut i: usize = 0;
        while i < self.mantras.len()
            invariant
                i <= self.mantras@.len(),
                text@ == reference@,
                answering_from(self@.mantras, reference@, 0) == answering_from(
                    self@.mantras,
                    reference@,
                    i as int,
                ),
            decreases self.mantras@.len() - i,
        {
            assert(self@.mantras[i as int] == (self.mantras@[i as int].0@, self.mantras@[i as int].1@));
            let m = chars_of(self.mantras[i].0.as_str());
            if mantra_answers(&m, &text) {
                return Some(i);
            }
            i += 1;
        }
        None
    }

    /// The values that the references outside bhasyas give to the
    /// placeholders of the templates they match.
    pub fn extract_placeholder_values(&self) -> (r: Vec<PlaceholderValue>)
        ensures
            value_views(r@) == placeholder_values(self@),
    {
        let mut r: Vec<PlaceholderValue> = Vec::new();
        let mut i: usize = 0;
        assert(value_views(r@) =~= Seq::empty());
        while i < self.anusrits.len()
            invariant
                i <= self.anusrits@.len(),
                value_views(r@) == values_upto(self@, i as int),
            decreases self.anusrits@.len() - i,
        {
            let a = &self.anusrits[i];
            assert(self@.anusrits[i as int] == a@);
            let ghost before = value_views(r@);
            let mut k: usize = 0;
            let mut found = false;
            assert(before + Seq::<ValueView>::empty() =~= before);
            while k < self.mantras.len() && !found
                invariant
                    k <= self.mantras@.len(),
                    a@ == self@.anusrits[i as int],
                    found ==> value_views(r@) == before + reference_values(self@.mantras, a@),
                    !found ==> value_views(r@) == before && template_from(
                        self@.mantras,
                        a@.mantra_text,
                        0,
                    ) == template_from(self@.mantras, a@.mantra_text, k as int),
                decreases self.mantras@.len() - k + if found { 0int } else { 1int },
            {
                assert(self@.mantras[k as int] == (self.mantras@[k as int].0@, self.mantras@[k as int].1@));
                let m = &self.mantras[k].0;
                let mc = chars_of(m.as_str());
                let mut matched: Option<Vec<(String, String)>> = None;
                if has_placeholder(&mc) {
                    matched = match_template(m.as_str(), a.mantra_text.as_str());
                }
                match matched {
                    Some(kv) => {
                        let ghost all = placed(m@, a@, string_pairs(kv@));
                        let mut j: usize = 0;
                        while j < kv.len()
                            invariant
                                j <= kv@.len(),
                                all == placed(m@, a@, string_pairs(kv@)),
                                value_views(r@) =~= before + all.take(j as int),
                            decreases kv@.len() - j,
                        {
                            let ghost sofar = value_views(r@);
                            assert(string_pairs(kv@)[j as int] == (kv@[j as int].0@, kv@[j as int].1@));
                            let v = PlaceholderValue {
                                template: m.clone(),
                                key: kv[j].0.clone(),
                                value: kv[j].1.clone(),
                                file: a.file.clone(),
                                line: a.line,
                            };
                            let ghost vv = v@;
                            r.push(v);
                            assert(value_views(r@) =~= sofar.push(vv));
                            assert(all.take(j + 1) =~= all.take(j as int).push(all[j as int]));
                            j += 1;
                        }
                        assert(all.take(kv@.len() as int) =~= all);
                        found = true;
                    },
                    None => {
                        k += 1;
                    },
                }
            }
            i += 1;
        }
        r
    }
}

/// A filter as it is typed, without white space and square brackets around
/// it.
pub fn strip_brackets(filter: &str) -> (r: Vec<char>)
    ensures
        r@ == unbracketed(filter@),
{
    let t = trim(&chars_of(filter));
    if t.len() >= 2 && t[0] == '[' && t[t.len() - 1] == ']' {
        slice(&t, 1, t.len() - 1)
    } else {
        t
    }
}

impl Clone for PlaceholderValue {
    fn clone(&self) -> (r: Self)
        ensures
            r@ == self@,
    {
        PlaceholderValue {
            template: self.template.clone(),
            key: self.key.clone(),
            value: self.value.clone(),
            file: self.file.clone(),
            line: self.line,
        }
    }
}

/// Those of the values that pass the filters.
pub fn select_values(all: &Vec<PlaceholderValue>, mantra: Option<&str>, key: Option<&str>) -> (r: Vec<
    PlaceholderValue,
>)
    ensures
        value_views(r@) == selected_upto(
            value_views(all@),
            match mantra {
                Some(m) => Some(m@),
                None => None,
            },
            match key {
                Some(k) => Some(k@),
                None => None,
            },
            all@.len() as int,
        ),
{
    let ghost mv: Option<Seq<char>> = match mantra {
        Some(m) => Some(m@),
        None => None,
    };
    let ghost kv: Option<Seq<char>> = match key {
        Some(k) => Some(k@),
        None => None,
    };
    let ghost av = value_views(all@);
    let wanted = match mantra {
        Some(m) => Some(strip_brackets(m)),
        None => None,
    };
    let wanted_key = match key {
        Some(k) => Some(chars_of(k)),
        None => None,
    };
    let mut r: Vec<PlaceholderValue> = Vec::new();
    let mut i: usize = 0;
    assert(value_views(r@) =~= Seq::empty());
    while i < all.len()
        invariant
            i <= all@.len(),
            av == value_views(all@),
            match wanted {
                Some(w) => mv.is_some() && w@ == unbracketed(mv.unwrap()),
                None => mv.is_none(),
            },
            match wanted_key {
                Some(w) => kv.is_some() && w@ == kv.unwrap(),
                None => kv.is_none(),
            },
            value_views(r@) == selected_upto(av, mv, kv, i as int),
        decreases all@.len() - i,
    {
        let v = &all[i];
        assert(av[i as int] == v@);
        let fits = match &wanted {
            Some(w) => same_text(&chars_of(v.template.as_str()), w),
            None => true,
        };
        let fits_key = match &wanted_key {
            Some(w) => same_text(&chars_of(v.key.as_str()), w),
            None => true,
        };
        if fits && fits_key {
            let ghost before = value_views(r@);
            r.push(v.clone());
            assert(value_views(r@) =~= before.push(v@));
        }
        i += 1;
    }
    r
}

} // verus!
