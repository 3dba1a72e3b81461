//! The canon: the digest of the mantras that a shastra has accepted, each
//! with its commentary and the file it came from. A canon file holds
//! headings, file names and quote blocks, one paragraph each.

use crate::model::{keys_unique, lemma_lookup_from, lookup, lookup_from};
use crate::scan::{
    alias_end, alnum_mask, alphanumeric_mask, has_pair, lemma_alias_end_bounds,
    lemma_next_char_bounds, marker_at, marker_end, marker_text, pair_at, read_marker,
    starts_marker, strip_markers, unmarked,
};
use crate::text::{
    blank, chars_of, is_blank, join, joined, lines_of, opt_text, slice, split_lines, string_of,
    strip_prefix, texts, trim, trim_start, trimmed, trimmed_start, without_prefix,
};
use vstd::prelude::*;

verus! {

/// A mantra of the canon.
#[derive(Debug, PartialEq, Eq)]
pub struct CanonEntry {
    pub mantra: String,
    pub commentary: String,
    pub source_file: String,
    /// The shastra that the mantra was taken from, where it is not this one.
    pub external_kosha: Option<String>,
}

pub struct CanonEntryView {
    pub mantra: Seq<char>,
    pub commentary: Seq<char>,
    pub source_file: Seq<char>,
    pub external_kosha: Option<Seq<char>>,
}

impl View for CanonEntry {
    type V = CanonEntryView;

    open spec fn view(&self) -> CanonEntryView {
        CanonEntryView {
            mantra: self.mantra@,
            commentary: self.commentary@,
            source_file: self.source_file@,
            external_kosha: opt_text(self.external_kosha),
        }
    }
}

/// The canon of a shastra: its entries by mantra, in the order in which the
/// mantras were first met, and the file it was read from.
#[derive(Debug, PartialEq, Eq)]
pub struct Canon {
    pub entries: Vec<(String, CanonEntry)>,
    pub path: Option<String>,
    /// The number of a numbered canon file.
    pub version: Option<u32>,
}

pub struct CanonView {
    pub entries: Seq<(Seq<char>, CanonEntryView)>,
    pub path: Option<Seq<char>>,
    pub version: Option<u32>,
}

pub open spec fn canon_entry_views(v: Seq<(String, CanonEntry)>) -> Seq<(Seq<char>, CanonEntryView)> {
    v.map_values(|e: (String, CanonEntry)| (e.0@, e.1@))
}

impl View for Canon {
    type V = CanonView;

    open spec fn view(&self) -> CanonView {
        CanonView {
            entries: canon_entry_views(self.entries@),
            path: opt_text(self.path),
            version: self.version,
        }
    }
}

impl Default for Canon {
    fn default() -> (r: Canon)
        ensures
            r@.entries.len() == 0,
            r.path.is_none(),
            r.version.is_none(),
    {
        Canon { entries: Vec::new(), path: None, version: None }
    }
}

/// What looking for the canon of a shastra led to.
#[derive(Debug, PartialEq, Eq)]
pub enum CanonSearchResult {
    /// There is no canon file.
    NotFound,
    /// There is one, and this is what it holds.
    Found(Canon),
    /// There are several canon files, at the paths given.
    Multiple(Vec<String>),
    /// The canon file breaks the rules of the format.
    Invalid { path: String, errors: Vec<String> },
}

/// The paragraphs of a canon file, as it stands after the first `n` lines:
/// those that are closed, and the lines of the one that is open.
pub open spec fn canon_state(lines: Seq<Seq<char>>, n: int) -> (Seq<Seq<Seq<char>>>, Seq<Seq<char>>)
    decreases n,
{
    if n <= 0 {
        (Seq::empty(), Seq::empty())
    } else {
        let prev = canon_state(lines, n - 1);
        if !is_blank(lines[n - 1]) {
            (prev.0, prev.1.push(lines[n - 1]))
        } else if prev.1.len() > 0 {
            (prev.0.push(prev.1), Seq::empty())
        } else {
            prev
        }
    }
}

/// The paragraphs of a canon file: the runs of lines between blank lines.
pub open spec fn canon_paragraphs(lines: Seq<Seq<char>>) -> Seq<Seq<Seq<char>>> {
    let last = canon_state(lines, lines.len() as int);
    if last.1.len() > 0 {
        last.0.push(last.1)
    } else {
        last.0
    }
}

pub open spec fn paragraph_texts(v: Seq<Vec<Vec<char>>>) -> Seq<Seq<Seq<char>>> {
    v.map_values(|p: Vec<Vec<char>>| texts(p@))
}

/// Cuts the lines of a canon file into paragraphs.
pub fn extract_paragraphs(lines: &Vec<Vec<char>>) -> (r: Vec<Vec<Vec<char>>>)
    ensures
        paragraph_texts(r@) == canon_paragraphs(texts(lines@)),
{
    let mut done: Vec<Vec<Vec<char>>> = Vec::new();
    let mut open: Vec<Vec<char>> = Vec::new();
    let mut i: usize = 0;
    assert(paragraph_texts(done@) =~= Seq::empty());
    assert(texts(open@) =~= Seq::empty());
    while i < lines.len()
        invariant
            i <= lines@.len(),
            (paragraph_texts(done@), texts(open@)) == canon_state(texts(lines@), i as int),
        decreases lines@.len() - i,
    {
        assert(texts(lines@)[i as int] == lines@[i as int]@);
        if !blank(&lines[i]) {
            let ghost before = texts(open@);
            let line = slice(&lines[i], 0, lines[i].len());
            assert(line@ == lines@[i as int]@);
            open.push(line);
            assert(texts(open@) =~= before.push(lines@[i as int]@));
        } else if open.len() > 0 {
            let ghost before = paragraph_texts(done@);
            let ghost ov = texts(open@);
            done.push(open);
            assert(paragraph_texts(done@) =~= before.push(ov));
            open = Vec::new();
            assert(texts(open@) =~= Seq::empty());
        }
        i += 1;
    }
    assert(texts(lines@).len() == lines@.len());
    if open.len() > 0 {
        let ghost before = paragraph_texts(done@);
        let ghost ov = texts(open@);
        done.push(open);
        assert(paragraph_texts(done@) =~= before.push(ov));
    }
    done
}

/// A line of a quote block of the canon without its quote sign and the white
/// space around it.
pub open spec fn unquoted_canon(line: Seq<char>) -> Seq<char> {
    match without_prefix(trimmed_start(line), ">"@) {
        Some(rest) => trimmed_start(rest),
        None => trimmed_start(line),
    }
}

/// The text of a quote block of the canon without its quote signs.
pub open spec fn unquoted_block(para: Seq<Seq<char>>) -> Seq<char> {
    joined(para.map_values(|l: Seq<char>| unquoted_canon(l)), "\n"@)
}

/// The text of a quote block of the canon without its quote signs.
pub fn unquote_block(para: &Vec<Vec<char>>) -> (r: Vec<char>)
    ensures
        r@ == unquoted_block(texts(para@)),
{
    let sign = chars_of(">");
    let mut bare: Vec<Vec<char>> = Vec::new();
    let mut i: usize = 0;
    while i < para.len()
        invariant
            i <= para@.len(),
            sign@ == ">"@,
            bare@.len() == i,
            forall|k: int| 0 <= k < i ==> bare@[k]@ == unquoted_canon(para@[k]@),
        decreases para@.len() - i,
    {
        let t = trim_start(&para[i]);
        let u = match strip_prefix(&t, &sign) {
            Some(rest) => trim_start(&rest),
            None => t,
        };
        bare.push(u);
        i += 1;
    }
    assert(texts(bare@) =~= texts(para@).map_values(|l: Seq<char>| unquoted_canon(l)));
    let feed = chars_of("\n");
    join(&bare, &feed)
}

/// One step through the text of a quote block of the canon: where it goes
/// on, whether it is inside inline code there, and the mantra it passed, with
/// the shastra named behind it.
pub struct CanonToken {
    pub next: int,
    pub ticked: bool,
    pub found: Option<(Seq<char>, Option<Seq<char>>)>,
}

/// The step at `i`. A backtick opens or closes inline code. A mantra marker
/// with a text gives a mantra, and an `@` right behind the marker names the
/// shastra it is from.
pub open spec fn canon_token(s: Seq<char>, mask: Seq<bool>, i: int, ticked: bool) -> CanonToken {
    if s[i] == '`' {
        CanonToken { next: i + 1, ticked: !ticked, found: None }
    } else if ticked {
        CanonToken { next: i + 1, ticked: true, found: None }
    } else if starts_marker(s, i) {
        let text = marker_text(s, i);
        let end = marker_end(s, i);
        if text.len() == 0 {
            CanonToken { next: end, ticked: false, found: None }
        } else if 0 <= end < s.len() && s[end] == '@' {
            let e = alias_end(s, mask, end + 1);
            let kosha = s.subrange(end + 1, e);
            CanonToken {
                next: e,
                ticked: false,
                found: Some(
                    (
                        text,
                        if kosha.len() > 0 {
                            Some(kosha)
                        } else {
                            None
                        },
                    ),
                ),
            }
        } else {
            CanonToken { next: end, ticked: false, found: Some((text, None)) }
        }
    } else if pair_at(s, i, '*', '*') {
        CanonToken { next: i + 2, ticked: false, found: None }
    } else {
        CanonToken { next: i + 1, ticked: false, found: None }
    }
}

pub proof fn lemma_canon_token_advances(s: Seq<char>, mask: Seq<bool>, i: int, ticked: bool)
    requires
        0 <= i < s.len(),
    ensures
        i < canon_token(s, mask, i, ticked).next <= s.len(),
{
    if starts_marker(s, i) {
        lemma_next_char_bounds(s, '^', i + 3);
        let end = marker_end(s, i);
        if end < s.len() {
            lemma_alias_end_bounds(s, mask, end + 1);
        }
    }
}

/// The mantras of `s[i..]`, each with the shastra named behind it.
pub open spec fn canon_scan(s: Seq<char>, mask: Seq<bool>, i: int, ticked: bool) -> Seq<
    (Seq<char>, Option<Seq<char>>),
>
    decreases s.len() - i,
    via canon_scan_decreases
{
    if i < 0 || i >= s.len() {
        Seq::empty()
    } else {
        let t = canon_token(s, mask, i, ticked);
        let rest = canon_scan(s, mask, t.next, t.ticked);
        match t.found {
            Some(m) => seq![m] + rest,
            None => rest,
        }
    }
}

#[via_fn]
proof fn canon_scan_decreases(s: Seq<char>, mask: Seq<bool>, i: int, ticked: bool) {
    if 0 <= i < s.len() {
        lemma_canon_token_advances(s, mask, i, ticked);
    }
}

/// The mantras that the text of a quote block of the canon holds.
pub open spec fn canon_mantras(s: Seq<char>) -> Seq<(Seq<char>, Option<Seq<char>>)> {
    canon_scan(s, alnum_mask(s), 0, false)
}

pub open spec fn mantra_pairs(v: Seq<(String, Option<String>)>) -> Seq<(Seq<char>, Option<Seq<char>>)> {
    v.map_values(|m: (String, Option<String>)| (m.0@, opt_text(m.1)))
}

/// The mantras of the text of a quote block, given for each of its
/// characters whether it is alphanumeric.
pub fn scan_canon_mantras(s: &Vec<char>, mask: &Vec<bool>) -> (r: Vec<(String, Option<String>)>)
    requires
        mask@.len() == s@.len(),
    ensures
        mantra_pairs(r@) == canon_scan(s@, mask@, 0, false),
{
    let n = s.len();
    let mut r: Vec<(String, Option<String>)> = Vec::new();
    let mut i: usize = 0;
    let mut ticked = false;
    assert(mantra_pairs(r@) =~= Seq::empty());
    while i < n
        invariant
            i <= n,
            n == s@.len(),
            mask@.len() == s@.len(),
            canon_scan(s@, mask@, 0, false) == mantra_pairs(r@) + canon_scan(
                s@,
                mask@,
                i as int,
                ticked,
            ),
        decreases n - i,
    {
        proof {
            lemma_canon_token_advances(s@, mask@, i as int, ticked);
        }
        if s[i] == '`' {
            ticked = !ticked;
            i += 1;
        } else if ticked {
            i += 1;
        } else if marker_at(s, i) {
            let m = read_marker(s, i);
            if m.0.len() == 0 {
                i = m.1;
            } else {
                let ghost before = mantra_pairs(r@);
                let mut kosha: Option<String> = None;
                let mut next = m.1;
                if m.1 < n && s[m.1] == '@' {
                    let mut e: usize = m.1 + 1;
                    while e < n && (mask[e] || s[e] == '-' || s[e] == '_')
                        invariant
                            m.1 + 1 <= e <= n,
                            n == s@.len(),
                            mask@.len() == s@.len(),
                            alias_end(s@, mask@, m.1 + 1) == alias_end(s@, mask@, e as int),
                        decreases n - e,
                    {
                        e += 1;
                    }
                    let name = slice(s, m.1 + 1, e);
                    if name.len() > 0 {
                        kosha = Some(string_of(&name));
                    }
                    next = e;
                }
                let ghost rest = canon_scan(s@, mask@, next as int, false);
                let ghost item = (m.0@, opt_text(kosha));
                r.push((string_of(&m.0), kosha));
                assert(mantra_pairs(r@) =~= before.push(item));
                assert(before.push(item) + rest =~= before + (seq![item] + rest));
                i = next;
            }
        } else if has_pair(s, i, '*', '*') {
            i += 2;
        } else {
            i += 1;
        }
    }
    assert(mantra_pairs(r@) + Seq::empty() =~= mantra_pairs(r@));
    r
}

/// The mantras that the text of a quote block of the canon holds, each with
/// the shastra named behind it.
pub fn extract_mantras_with_kosha(paragraph: &Vec<char>) -> (r: Vec<(String, Option<String>)>)
    ensures
        mantra_pairs(r@) == canon_mantras(paragraph@),
{
    let mask = alphanumeric_mask(paragraph);
    scan_canon_mantras(paragraph, &mask)
}

/// The mantras that the text of a quote block of the canon holds.
pub fn extract_mantras(paragraph: &Vec<char>) -> (r: Vec<String>)
    ensures
        r@.len() == canon_mantras(paragraph@).len(),
        forall|k: int| 0 <= k < r@.len() ==> (#[trigger] r@[k])@ == canon_mantras(paragraph@)[k].0,
{
    let found = extract_mantras_with_kosha(paragraph);
    let mut r: Vec<String> = Vec::new();
    let mut i: usize = 0;
    while i < found.len()
        invariant
            i <= found@.len(),
            mantra_pairs(found@) == canon_mantras(paragraph@),
            r@.len() == i,
            forall|k: int| 0 <= k < i ==> (#[trigger] r@[k])@ == canon_mantras(paragraph@)[k].0,
        decreases found@.len() - i,
    {
        assert(mantra_pairs(found@)[i as int] == (found@[i as int].0@, opt_text(found@[i as int].1)));
        r.push(found[i].0.clone());
        i += 1;
    }
    assert(mantra_pairs(found@).len() == found@.len());
    r
}

/// The index of the first of the lines from `i` on that is not blank, or
/// the number of lines.
pub open spec fn first_solid(lines: Seq<Seq<char>>, i: int) -> int
    decreases lines.len() - i,
{
    if 0 <= i < lines.len() && is_blank(lines[i]) {
        first_solid(lines, i + 1)
    } else {
        i
    }
}

/// The index behind the last of the first `n` lines that is not blank.
pub open spec fn last_solid(lines: Seq<Seq<char>>, n: int) -> int
    decreases n,
{
    if 0 < n <= lines.len() && is_blank(lines[n - 1]) {
        last_solid(lines, n - 1)
    } else {
        n
    }
}

/// The lines without the blank ones at the start and at the end, each
/// trimmed.
pub open spec fn inner_lines(lines: Seq<Seq<char>>) -> Seq<Seq<char>> {
    let a = first_solid(lines, 0);
    let b = last_solid(lines, lines.len() as int);
    if a < b {
        lines.subrange(a, b).map_values(|l: Seq<char>| trimmed(l))
    } else {
        Seq::empty()
    }
}

/// The commentary of a quote block of the canon: its text without the
/// mantra markers, the lines trimmed, without blank lines at the start and
/// at the end, and without a leading `- `.
pub open spec fn canon_commentary_of(paragraph: Seq<char>) -> Seq<char> {
    let flat = joined(inner_lines(lines_of(unmarked(paragraph, 0, false))), "\n"@);
    match without_prefix(flat, "- "@) {
        Some(rest) => rest,
        None => flat,
    }
}

/// The commentary of a quote block of the canon.
pub fn extract_canon_commentary(paragraph: &Vec<char>) -> (r: Vec<char>)
    ensures
        r@ == canon_commentary_of(paragraph@),
{
    let bare = strip_markers(paragraph);
    let lines = split_lines(&bare);
    let ghost lv = texts(lines@);
    let n = lines.len();
    let mut a: usize = 0;
    while a < n && blank(&lines[a])
        invariant
            a <= n,
            n == lines@.len(),
            lv == texts(lines@),
            first_solid(lv, 0) == first_solid(lv, a as int),
        decreases n - a,
    {
        assert(lv[a as int] == lines@[a as int]@);
        a += 1;
    }
    assert(a < n ==> lv[a as int] == lines@[a as int]@);
    let mut b: usize = n;
    while b > 0 && blank(&lines[b - 1])
        invariant
            b <= n,
            n == lines@.len(),
            lv == texts(lines@),
            last_solid(lv, n as int) == last_solid(lv, b as int),
        decreases b,
    {
        assert(lv[b - 1] == lines@[b - 1]@);
        b -= 1;
    }
    assert(b > 0 ==> lv[b - 1] == lines@[b - 1]@);
    let mut kept: Vec<Vec<char>> = Vec::new();
    if a < b {
        let mut i: usize = a;
        while i < b
            invariant
                a <= i <= b <= n,
                n == lines@.len(),
                kept@.len() == i - a,
                forall|k: int| 0 <= k < i - a ==> kept@[k]@ == trimmed(lines@[a + k]@),
            decreases b - i,
        {
            kept.push(trim(&lines[i]));
            i += 1;
        }
        assert(texts(kept@) =~= lv.subrange(a as int, b as int).map_values(
            |l: Seq<char>| trimmed(l),
        ));
    } else {
        assert(texts(kept@) =~= Seq::<Seq<char>>::empty());
    }
    let feed = chars_of("\n");
    let flat = join(&kept, &feed);
    let dash = chars_of("- ");
    match strip_prefix(&flat, &dash) {
        Some(rest) => rest,
        None => flat,
    }
}

/// The entries with `e` for the mantra `k`: in the place of the entry that
/// the mantra had, or at the end.
pub open spec fn put_entry(
    m: Seq<(Seq<char>, CanonEntryView)>,
    k: Seq<char>,
    e: CanonEntryView,
) -> Seq<(Seq<char>, CanonEntryView)> {
    match lookup(m, k) {
        Some(i) => m.update(i, (k, e)),
        None => m.push((k, e)),
    }
}

/// The entries after the first `n` mantras of a quote block.
pub open spec fn block_entries(
    m: Seq<(Seq<char>, CanonEntryView)>,
    found: Seq<(Seq<char>, Option<Seq<char>>)>,
    commentary: Seq<char>,
    file: Seq<char>,
    n: int,
) -> Seq<(Seq<char>, CanonEntryView)>
    decreases n,
{
    if n <= 0 {
        m
    } else {
        put_entry(
            block_entries(m, found, commentary, file, n - 1),
            found[n - 1].0,
            CanonEntryView {
                mantra: found[n - 1].0,
                commentary,
                source_file: file,
                external_kosha: found[n - 1].1,
            },
        )
    }
}

/// Putting an entry in keeps the mantras apart.
pub proof fn put_entry_keeps_unique(m: Seq<(Seq<char>, CanonEntryView)>, k: Seq<char>, e: CanonEntryView)
    requires
        keys_unique(m),
    ensures
        keys_unique(put_entry(m, k, e)),
{
    let p = put_entry(m, k, e);
    lemma_lookup_from(m, k, 0);
    assert forall|a: int, b: int| 0 <= a < b < p.len() implies (#[trigger] p[a]).0 != (
    #[trigger] p[b]).0 by {
        if a < m.len() {
            assert(p[a].0 == m[a].0);
        }
        if b < m.len() {
            assert(p[b].0 == m[b].0);
        }
    }
}

proof fn lemma_block_entries_unique(
    m: Seq<(Seq<char>, CanonEntryView)>,
    found: Seq<(Seq<char>, Option<Seq<char>>)>,
    commentary: Seq<char>,
    file: Seq<char>,
    n: int,
)
    requires
        keys_unique(m),
    ensures
        keys_unique(block_entries(m, found, commentary, file, n)),
    decreases n,
{
    if n > 0 {
        lemma_block_entries_unique(m, found, commentary, file, n - 1);
        put_entry_keeps_unique(
            block_entries(m, found, commentary, file, n - 1),
            found[n - 1].0,
            CanonEntryView {
                mantra: found[n - 1].0,
                commentary,
                source_file: file,
                external_kosha: found[n - 1].1,
            },
        );
    }
}

/// A canon holds no mantra twice.
pub proof fn canon_keeps_mantras_apart(paras: Seq<Seq<Seq<char>>>, n: int)
    ensures
        keys_unique(canon_after(paras, n).0),
    decreases n,
{
    if n > 0 {
        canon_keeps_mantras_apart(paras, n - 1);
        let prev = canon_after(paras, n - 1);
        let block = unquoted_block(paras[n - 1]);
        let found = canon_mantras(block);
        lemma_block_entries_unique(
            prev.0,
            found,
            canon_commentary_of(block),
            match prev.1 {
                Some(f) => f,
                None => Seq::empty(),
            },
            found.len() as int,
        );
    }
}

/// The text of a paragraph: its lines, joined by line feeds and trimmed.
pub open spec fn paragraph_text(para: Seq<Seq<char>>) -> Seq<char> {
    trimmed(joined(para, "\n"@))
}

/// What a paragraph of a canon file is.
pub enum ParagraphKind {
    Heading,
    Quote,
    FileName,
}

/// A paragraph that starts with `#` is a heading, one that starts with `>`
/// is a quote block, and any other is the name of a file.
pub open spec fn kind_of_paragraph(text: Seq<char>) -> ParagraphKind {
    if text.len() > 0 && text[0] == '#' {
        ParagraphKind::Heading
    } else if text.len() > 0 && text[0] == '>' {
        ParagraphKind::Quote
    } else {
        ParagraphKind::FileName
    }
}

/// The entries of a canon and the file name that stands for the next quote
/// block, after the first `n` paragraphs. A quote block gives each of its
/// mantras an entry with the commentary of the block, under the file name
/// before it; a mantra that has an entry gets the new one in its place.
pub open spec fn canon_after(paras: Seq<Seq<Seq<char>>>, n: int) -> (
    Seq<(Seq<char>, CanonEntryView)>,
    Option<Seq<char>>,
)
    decreases n,
{
    if n <= 0 {
        (Seq::empty(), None)
    } else {
        let prev = canon_after(paras, n - 1);
        let text = paragraph_text(paras[n - 1]);
        match kind_of_paragraph(text) {
            ParagraphKind::Heading => prev,
            ParagraphKind::Quote => {
                let block = unquoted_block(paras[n - 1]);
                let found = canon_mantras(block);
                (
                    block_entries(
                        prev.0,
                        found,
                        canon_commentary_of(block),
                        match prev.1 {
                            Some(f) => f,
                            None => Seq::empty(),
                        },
                        found.len() as int,
                    ),
                    prev.1,
                )
            },
            ParagraphKind::FileName => (prev.0, Some(text)),
        }
    }
}

/// The entries of the canon that a text holds.
pub open spec fn canon_entries_of(content: Seq<char>) -> Seq<(Seq<char>, CanonEntryView)> {
    let paras = canon_paragraphs(lines_of(content));
    canon_after(paras, paras.len() as int).0
}

/// The kind of a paragraph, given its text.
pub fn paragraph_kind(text: &Vec<char>) -> (r: ParagraphKind)
    ensures
        r == kind_of_paragraph(text@),
{
    if text.len() > 0 && text[0] == '#' {
        ParagraphKind::Heading
    } else if text.len() > 0 && text[0] == '>' {
        ParagraphKind::Quote
    } else {
        ParagraphKind::FileName
    }
}

/// The text of a paragraph.
pub fn text_of_paragraph(para: &Vec<Vec<char>>) -> (r: Vec<char>)
    ensures
        r@ == paragraph_text(texts(para@)),
{
    let feed = chars_of("\n");
    trim(&join(para, &feed))
}

/// The index of the entry for `mantra`.
pub fn find_canon_entry(entries: &Vec<(String, CanonEntry)>, mantra: &String) -> (r: Option<usize>)
    ensures
        match r {
            Some(i) => lookup(canon_entry_views(entries@), mantra@) == Some(i as int) && i
                < entries@.len(),
            None => lookup(canon_entry_views(entries@), mantra@).is_none(),
        },
{
    let mut i: usize = 0;
    while i < entries.len()
        invariant
            i <= entries@.len(),
            lookup(canon_entry_views(entries@), mantra@) == lookup_from(
                canon_entry_views(entries@),
                mantra@,
                i as int,
            ),
        decreases entries@.len() - i,
    {
        if entries[i].0 == *mantra {
            return Some(i);
        }
        i += 1;
    }
    None
}

impl Canon {
    /// Reads the entries of a canon from the text of a canon file.
    pub fn parse(content: &str) -> (r: Canon)
        ensures
            r@.entries == canon_entries_of(content@),
            keys_unique(r@.entries),
            r.path.is_none(),
            r.version.is_none(),
    {
        proof {
            let paras = canon_paragraphs(lines_of(content@));
            canon_keeps_mantras_apart(paras, paras.len() as int);
        }
        let lines = split_lines(&chars_of(content));
        let paras = extract_paragraphs(&lines);
        let ghost pv = paragraph_texts(paras@);
        let mut entries: Vec<(String, CanonEntry)> = Vec::new();
        let mut current: Option<String> = None;
        let mut i: usize = 0;
        assert(canon_entry_views(entries@) =~= Seq::empty());
        while i < paras.len()
            invariant
                i <= paras@.len(),
                pv == paragraph_texts(paras@),
                pv == canon_paragraphs(lines_of(content@)),
                (canon_entry_views(entries@), opt_text(current)) == canon_after(pv, i as int),
            decreases paras@.len() - i,
        {
            assert(pv[i as int] == texts(paras@[i as int]@));
            let text = text_of_paragraph(&paras[i]);
            match paragraph_kind(&text) {
                ParagraphKind::Heading => {},
                ParagraphKind::Quote => {
                    let block = unquote_block(&paras[i]);
                    let found = extract_mantras_with_kosha(&block);
                    let commentary = string_of(&extract_canon_commentary(&block));
                    let file = match &current {
                        Some(f) => f.clone(),
                        None => String::new(),
                    };
                    let ghost start = canon_entry_views(entries@);
                    let ghost fv = mantra_pairs(found@);
                    let mut k: usize = 0;
                    while k < found.len()
                        invariant
                            k <= found@.len(),
                            fv == mantra_pairs(found@),
                            canon_entry_views(entries@) == block_entries(
                                start,
                                fv,
                                commentary@,
                                file@,
                                k as int,
                            ),
                        decreases found@.len() - k,
                    {
                        assert(fv[k as int] == (found@[k as int].0@, opt_text(found@[k as int].1)));
                        let kosha = match &found[k].1 {
                            Some(s) => Some(s.clone()),
                            None => None,
                        };
                        let e = CanonEntry {
                            mantra: found[k].0.clone(),
                            commentary: commentary.clone(),
                            source_file: file.clone(),
                            external_kosha: kosha,
                        };
                        let ghost ev = e@;
                        let ghost before = canon_entry_views(entries@);
                        match find_canon_entry(&entries, &found[k].0) {
                            Some(at) => {
                                entries[at].0 = found[k].0.clone();
                                entries[at].1 = e;
                                assert(canon_entry_views(entries@) =~= before.update(
                                    at as int,
                                    (fv[k as int].0, ev),
                                ));
                            },
                            None => {
                                entries.push((found[k].0.clone(), e));
                                assert(canon_entry_views(entries@) =~= before.push(
                                    (fv[k as int].0, ev),
                                ));
                            },
                        }
                        k += 1;
                    }
                    assert(fv.len() == found@.len());
                },
                ParagraphKind::FileName => {
                    current = Some(string_of(&text));
                },
            }
            i += 1;
        }
        assert(pv.len() == paras@.len());
        Canon { entries, path: None, version: None }
    }

    /// The entry of a mantra.
    pub fn get(&self, mantra: &str) -> (r: Option<&CanonEntry>)
        ensures
            match r {
                Some(e) => lookup(self@.entries, mantra@).is_some() && e@ == self@.entries[lookup(
                    self@.entries,
                    mantra@,
                ).unwrap()].1,
                None => lookup(self@.entries, mantra@).is_none(),
            },
    {
        let key = mantra.to_owned();
        match find_canon_entry(&self.entries, &key) {
            Some(i) => {
                assert(self@.entries[i as int] == (self.entries@[i as int].0@, self.entries@[i as int].1@));
                Some(&self.entries[i].1)
            },
            None => None,
        }
    }

    /// The entries whose mantra was taken from another shastra.
    pub fn external_entries(&self) -> (r: Vec<&CanonEntry>)
        ensures
            entry_refs(r@) == external_upto(self@.entries, self@.entries.len() as int),
    {
        let mut r: Vec<&CanonEntry> = Vec::new();
        let mut i: usize = 0;
        assert(entry_refs(r@) =~= Seq::empty());
        while i < self.entries.len()
            invariant
                i <= self.entries@.len(),
                entry_refs(r@) == external_upto(self@.entries, i as int),
            decreases self.entries@.len() - i,
        {
            assert(self@.entries[i as int] == (self.entries@[i as int].0@, self.entries@[i as int].1@));
            if self.entries[i].1.external_kosha.is_some() {
                let ghost before = entry_refs(r@);
                r.push(&self.entries[i].1);
                assert(entry_refs(r@) =~= before.push(self.entries@[i as int].1@));
            }
            i += 1;
        }
        r
    }
}

pub open spec fn entry_refs(v: Seq<&CanonEntry>) -> Seq<CanonEntryView> {
    v.map_values(|e: &CanonEntry| e@)
}

/// Those of the first `n` entries whose mantra is from another shastra.
pub open spec fn external_upto(m: Seq<(Seq<char>, CanonEntryView)>, n: int) -> Seq<CanonEntryView>
    decreases n,
{
    if n <= 0 {
        Seq::empty()
    } else if m[n - 1].1.external_kosha.is_some() {
        external_upto(m, n - 1).push(m[n - 1].1)
    } else {
        external_upto(m, n - 1)
    }
}

} // verus!
