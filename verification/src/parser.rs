//! The parser: it reads the paragraphs of a file, makes a bhasya of each
//! quote block that defines a mantra, and enters mantras and references into
//! the repository.

use crate::model::{
    Anusrit, anusrit_views, AnusritView, Bhasya, bhasya_views, BhasyaKind, BhasyaView, blank_info,
    Config, empty_repository, KindView, lemma_lookup_from, lookup, mantra_views, MantraInfo,
    MantraInfoView, pair_views, Repository, RepositoryView, ShastraConfig,
};
use crate::scan::{
    alnum_mask, commentary, commentary_of, find_references, line_subject, marker_at, Reference,
    reference_views, references_in, ReferenceView, starts_marker, subject_of,
};
use crate::segment::{
    comment_split, content, Directive, DirectiveView, extract_paragraphs, is_excluded, is_quote,
    line_content, LineView, mark_excluded, Paragraph, paragraph_views, paragraphs_of,
    ParagraphView, strip_comment_prefix,
};
use crate::text::{
    chars_of, join, joined, lines_of, opt_text, slice, split_lines, string_of, strip_prefix, texts,
    trim_start, trimmed_start, without_prefix,
};
use vstd::prelude::*;

verus! {

/// The mantras with an entry for `text`: a blank one at the end, where there
/// was none.
pub open spec fn with_entry(m: Seq<(Seq<char>, MantraInfoView)>, text: Seq<char>) -> Seq<
    (Seq<char>, MantraInfoView),
> {
    if lookup(m, text).is_some() {
        m
    } else {
        m.push((text, blank_info()))
    }
}

/// The index of the entry for `text` in `with_entry(m, text)`.
pub open spec fn entry_index(m: Seq<(Seq<char>, MantraInfoView)>, text: Seq<char>) -> int {
    match lookup(m, text) {
        Some(i) => i,
        None => m.len() as int,
    }
}

/// The repository after the bhasya `idx` was seen to define the mantra
/// `text`. The mantra gets an entry if it has none. An entry without a place
/// takes that of the bhasya. Only a bhasya of kind `Mula` is entered among
/// the defining ones, and only one with a commentary explains the mantra.
/// Where `idx` is no bhasya of the repository, the place is `file` and `line`.
pub open spec fn defined(
    rv: RepositoryView,
    text: Seq<char>,
    idx: usize,
    file: Seq<char>,
    line: usize,
) -> RepositoryView {
    let m = with_entry(rv.mantras, text);
    let k = entry_index(rv.mantras, text);
    let was = m[k].1;
    let known = idx < rv.bhasyas.len();
    let mula = known && rv.bhasyas[idx as int].kind is Mula;
    let explained = mula && commentary_of(rv.bhasyas[idx as int].paragraph).len() > 0;
    let unplaced = was.file.len() == 0;
    let now = MantraInfoView {
        file: if !unplaced {
            was.file
        } else if known {
            rv.bhasyas[idx as int].file
        } else {
            file
        },
        line: if !unplaced {
            was.line
        } else if known {
            rv.bhasyas[idx as int].line
        } else {
            line
        },
        has_explanation: was.has_explanation || explained,
        mula_bhasyas: if mula {
            was.mula_bhasyas.push(idx)
        } else {
            was.mula_bhasyas
        },
        anusrit_bhasyas: was.anusrit_bhasyas,
    };
    RepositoryView { mantras: m.update(k, (text, now)), ..rv }
}

/// The repository after the text of the bhasya `idx` was seen to refer to
/// the mantra `text`.
pub open spec fn referred(rv: RepositoryView, text: Seq<char>, idx: usize) -> RepositoryView {
    let m = with_entry(rv.mantras, text);
    let k = entry_index(rv.mantras, text);
    let was = m[k].1;
    let now = MantraInfoView { anusrit_bhasyas: was.anusrit_bhasyas.push(idx), ..was };
    RepositoryView { mantras: m.update(k, (text, now)), ..rv }
}

/// The repository after a reference outside every bhasya.
pub open spec fn cited(rv: RepositoryView, r: ReferenceView, file: Seq<char>, line: usize) -> RepositoryView {
    RepositoryView {
        anusrits: rv.anusrits.push(
            AnusritView { mantra_text: r.text, file, line, shastra: r.shastra },
        ),
        ..rv
    }
}

/// The bhasya `at`, if one is named, is a bhasya of the repository.
pub open spec fn in_range(rv: RepositoryView, at: Option<usize>) -> bool {
    match at {
        Some(idx) => idx < rv.bhasyas.len(),
        None => true,
    }
}

/// The repository after the first `n` references of a line: inside the
/// bhasya `at` each goes to its mantra, outside a bhasya each is an anusrit.
pub open spec fn references_applied(
    rv: RepositoryView,
    refs: Seq<ReferenceView>,
    n: int,
    file: Seq<char>,
    line: usize,
    at: Option<usize>,
) -> RepositoryView
    decreases n,
{
    if n <= 0 {
        rv
    } else {
        let prev = references_applied(rv, refs, n - 1, file, line, at);
        match at {
            Some(idx) => referred(prev, refs[n - 1].text, idx),
            None => cited(prev, refs[n - 1], file, line),
        }
    }
}

/// The repository after a line of a quote block: first the mantra that the
/// line defines, if the block is the bhasya `at`, then its references.
pub open spec fn line_in_bhasya(
    rv: RepositoryView,
    line: Seq<char>,
    file: Seq<char>,
    number: usize,
    at: Option<usize>,
) -> RepositoryView {
    let refs = references_in(line, alnum_mask(line), true);
    let start = match (at, subject_of(line)) {
        (Some(idx), Some(t)) => defined(rv, t, idx, file, number),
        _ => rv,
    };
    references_applied(start, refs, refs.len() as int, file, number, at)
}

/// The repository after a line outside quote blocks: its references only.
pub open spec fn line_for_anusrits(
    rv: RepositoryView,
    line: Seq<char>,
    file: Seq<char>,
    number: usize,
    at: Option<usize>,
) -> RepositoryView {
    let refs = references_in(line, alnum_mask(line), false);
    references_applied(rv, refs, refs.len() as int, file, number, at)
}

/// A line of a quote block without comment prefix, quote sign and
/// indentation.
pub open spec fn unquoted(line: Seq<char>) -> Seq<char> {
    let c = content(line);
    match without_prefix(c, ">"@) {
        Some(rest) => trimmed_start(rest),
        None => trimmed_start(c),
    }
}

/// A line without its comment prefix.
pub open spec fn uncommented(line: Seq<char>) -> Seq<char> {
    match comment_split(line) {
        Some(p) => p.0,
        None => line,
    }
}

pub open spec fn unquoted_lines(lines: Seq<LineView>) -> Seq<Seq<char>> {
    lines.map_values(|l: LineView| unquoted(l.text))
}

/// Whether one of the first `n` lines opens with a mantra marker.
pub open spec fn marked_upto(lines: Seq<LineView>, n: int) -> bool
    decreases n,
{
    n > 0 && (marked_upto(lines, n - 1) || starts_marker(unquoted(lines[n - 1].text), 0))
}

/// The kind of a bhasya under a directive.
pub open spec fn kind_under(d: Option<DirectiveView>) -> KindView {
    match d {
        Some(DirectiveView::Tyakta) => KindView::Tyakta,
        Some(DirectiveView::Shastra(n)) => KindView::Uddhrit(n),
        Some(DirectiveView::Khandita(n)) => KindView::Khandita(n),
        None => KindView::Mula,
    }
}

/// A quote block: its first line is a quote line.
pub open spec fn is_quote_block(p: ParagraphView) -> bool {
    p.lines.len() > 0 && is_quote(p.lines[0].text)
}

/// The bhasya that a quote block makes.
pub open spec fn bhasya_of(p: ParagraphView, file: Seq<char>) -> BhasyaView {
    BhasyaView {
        paragraph: joined(unquoted_lines(p.lines), "\n"@),
        file,
        line: p.lines[0].number,
        kind: kind_under(p.directive),
    }
}

/// The repository after the first `n` lines of a quote block.
pub open spec fn quote_lines_parsed(
    rv: RepositoryView,
    lines: Seq<LineView>,
    n: int,
    file: Seq<char>,
    at: Option<usize>,
) -> RepositoryView
    decreases n,
{
    if n <= 0 {
        rv
    } else {
        line_in_bhasya(
            quote_lines_parsed(rv, lines, n - 1, file, at),
            unquoted(lines[n - 1].text),
            file,
            lines[n - 1].number,
            at,
        )
    }
}

/// The repository after the first `n` lines of a plain paragraph.
pub open spec fn plain_lines_parsed(
    rv: RepositoryView,
    lines: Seq<LineView>,
    n: int,
    file: Seq<char>,
) -> RepositoryView
    decreases n,
{
    if n <= 0 {
        rv
    } else {
        line_for_anusrits(
            plain_lines_parsed(rv, lines, n - 1, file),
            uncommented(lines[n - 1].text),
            file,
            lines[n - 1].number,
            None,
        )
    }
}

/// The repository after a paragraph. A quote block with a mantra marker at
/// the start of one of its lines becomes a bhasya, whose kind its directive
/// gives, and its lines are read inside that bhasya. The lines of any other
/// paragraph only add anusrits.
pub open spec fn paragraph_parsed(rv: RepositoryView, p: ParagraphView, file: Seq<char>) -> RepositoryView {
    if is_quote_block(p) {
        if marked_upto(p.lines, p.lines.len() as int) {
            quote_lines_parsed(
                RepositoryView { bhasyas: rv.bhasyas.push(bhasya_of(p, file)), ..rv },
                p.lines,
                p.lines.len() as int,
                file,
                Some(rv.bhasyas.len() as usize),
            )
        } else {
            quote_lines_parsed(rv, p.lines, p.lines.len() as int, file, None)
        }
    } else {
        plain_lines_parsed(rv, p.lines, p.lines.len() as int, file)
    }
}

/// The repository after the first `n` paragraphs.
pub open spec fn paragraphs_parsed(
    rv: RepositoryView,
    paras: Seq<ParagraphView>,
    n: int,
    file: Seq<char>,
) -> RepositoryView
    decreases n,
{
    if n <= 0 {
        rv
    } else {
        paragraph_parsed(paragraphs_parsed(rv, paras, n - 1, file), paras[n - 1], file)
    }
}

/// Of each line, whether it is left out.
pub open spec fn exclusions(lines: Seq<Seq<char>>) -> Seq<bool> {
    Seq::new(lines.len(), |i: int| is_excluded(lines, i))
}

/// The repository after a file with the text `text`.
pub open spec fn file_parsed(rv: RepositoryView, text: Seq<char>, file: Seq<char>) -> RepositoryView {
    let lines = lines_of(text);
    let paras = paragraphs_of(lines, exclusions(lines));
    paragraphs_parsed(rv, paras, paras.len() as int, file)
}

/// The repository after the first `n` files, each a path with its text.
pub open spec fn files_parsed(rv: RepositoryView, files: Seq<(Seq<char>, Seq<char>)>, n: int) -> RepositoryView
    decreases n,
{
    if n <= 0 {
        rv
    } else {
        file_parsed(files_parsed(rv, files, n - 1), files[n - 1].1, files[n - 1].0)
    }
}

/// The repository of a corpus: its files read in their order into a
/// repository that holds the configuration and nothing else.
pub open spec fn corpus_parsed(
    files: Seq<(Seq<char>, Seq<char>)>,
    name: Option<Seq<char>>,
    aliases: Seq<(Seq<char>, Seq<char>)>,
) -> RepositoryView {
    files_parsed(RepositoryView { name, aliases, ..empty_repository() }, files, files.len() as int)
}

/// A repository stays well formed when the entry of one mantra is replaced
/// by one whose bhasya indices are in order.
pub proof fn lemma_entry_update_wf(rv: RepositoryView, text: Seq<char>, now: MantraInfoView)
    requires
        rv.wf(),
        forall|k: int|
            0 <= k < now.mula_bhasyas.len() ==> (#[trigger] now.mula_bhasyas[k]) < rv.bhasyas.len()
                && rv.bhasyas[now.mula_bhasyas[k] as int].kind is Mula,
        forall|k: int|
            0 <= k < now.anusrit_bhasyas.len() ==> (#[trigger] now.anusrit_bhasyas[k])
                < rv.bhasyas.len(),
    ensures
        (RepositoryView {
            mantras: with_entry(rv.mantras, text).update(
                entry_index(rv.mantras, text),
                (text, now),
            ),
            ..rv
        }).wf(),
{
    let m = with_entry(rv.mantras, text);
    let k = entry_index(rv.mantras, text);
    let after = RepositoryView { mantras: m.update(k, (text, now)), ..rv };
    lemma_lookup_from(rv.mantras, text, 0);
    assert(0 <= k < m.len());
    assert(m[k].0 == text);
    assert forall|i: int| 0 <= i < m.len() && i != k implies (#[trigger] after.mantras[i])
        == rv.mantras[i] && i < rv.mantras.len() by {}
    assert forall|i: int, j: int| 0 <= i < j < after.mantras.len() implies (
    #[trigger] after.mantras[i]).0 != (#[trigger] after.mantras[j]).0 by {
        if i < rv.mantras.len() {
            assert(after.mantras[i].0 == rv.mantras[i].0);
        }
        if j < rv.mantras.len() {
            assert(after.mantras[j].0 == rv.mantras[j].0);
        }
    }
    assert forall|i: int, j: int|
        0 <= i < after.mantras.len() && 0 <= j < after.mantras[i].1.mula_bhasyas.len() implies (
    #[trigger] after.mantras[i].1.mula_bhasyas[j]) < after.bhasyas.len()
        && after.bhasyas[after.mantras[i].1.mula_bhasyas[j] as int].kind is Mula by {
        if i != k {
            assert(after.mantras[i] == rv.mantras[i]);
            assert(rv.mantras[i].1.mula_bhasyas[j] < rv.bhasyas.len());
        }
    }
    assert forall|i: int, j: int|
        0 <= i < after.mantras.len() && 0 <= j < after.mantras[i].1.anusrit_bhasyas.len() implies (
    #[trigger] after.mantras[i].1.anusrit_bhasyas[j]) < after.bhasyas.len() by {
        if i != k {
            assert(after.mantras[i] == rv.mantras[i]);
            assert(rv.mantras[i].1.anusrit_bhasyas[j] < rv.bhasyas.len());
        }
    }
}

/// What a mantra's entry holds before it is changed keeps its indices in
/// order.
proof fn lemma_entry_was(rv: RepositoryView, text: Seq<char>)
    requires
        rv.wf(),
    ensures
        ({
            let was = with_entry(rv.mantras, text)[entry_index(rv.mantras, text)].1;
            &&& forall|k: int|
                0 <= k < was.mula_bhasyas.len() ==> (#[trigger] was.mula_bhasyas[k])
                    < rv.bhasyas.len() && rv.bhasyas[was.mula_bhasyas[k] as int].kind is Mula
            &&& forall|k: int|
                0 <= k < was.anusrit_bhasyas.len() ==> (#[trigger] was.anusrit_bhasyas[k])
                    < rv.bhasyas.len()
        }),
{
    lemma_lookup_from(rv.mantras, text, 0);
    let i = entry_index(rv.mantras, text);
    let was = with_entry(rv.mantras, text)[i].1;
    if lookup(rv.mantras, text).is_some() {
        assert(was == rv.mantras[i].1);
        assert forall|k: int| 0 <= k < was.mula_bhasyas.len() implies (
        #[trigger] was.mula_bhasyas[k]) < rv.bhasyas.len()
            && rv.bhasyas[was.mula_bhasyas[k] as int].kind is Mula by {
            assert(rv.mantras[i].1.mula_bhasyas[k] < rv.bhasyas.len());
        }
        assert forall|k: int| 0 <= k < was.anusrit_bhasyas.len() implies (
        #[trigger] was.anusrit_bhasyas[k]) < rv.bhasyas.len() by {
            assert(rv.mantras[i].1.anusrit_bhasyas[k] < rv.bhasyas.len());
        }
    }
}

/// A definition keeps a repository well formed.
pub proof fn defined_keeps_wf(rv: RepositoryView, text: Seq<char>, idx: usize, file: Seq<char>, line: usize)
    requires
        rv.wf(),
    ensures
        defined(rv, text, idx, file, line).wf(),
{
    lemma_entry_was(rv, text);
    let after = defined(rv, text, idx, file, line);
    let now = after.mantras[entry_index(rv.mantras, text)].1;
    lemma_lookup_from(rv.mantras, text, 0);
    lemma_entry_update_wf(rv, text, now);
}

/// A reference from a bhasya of the repository keeps it well formed.
pub proof fn referred_keeps_wf(rv: RepositoryView, text: Seq<char>, idx: usize)
    requires
        rv.wf(),
        idx < rv.bhasyas.len(),
    ensures
        referred(rv, text, idx).wf(),
{
    lemma_entry_was(rv, text);
    let after = referred(rv, text, idx);
    let now = after.mantras[entry_index(rv.mantras, text)].1;
    lemma_lookup_from(rv.mantras, text, 0);
    lemma_entry_update_wf(rv, text, now);
}

/// One more bhasya keeps a repository well formed.
pub proof fn bhasya_keeps_wf(rv: RepositoryView, b: BhasyaView)
    requires
        rv.wf(),
    ensures
        (RepositoryView { bhasyas: rv.bhasyas.push(b), ..rv }).wf(),
{
    let after = RepositoryView { bhasyas: rv.bhasyas.push(b), ..rv };
    assert forall|i: int, j: int|
        0 <= i < after.mantras.len() && 0 <= j < after.mantras[i].1.mula_bhasyas.len() implies (
    #[trigger] after.mantras[i].1.mula_bhasyas[j]) < after.bhasyas.len()
        && after.bhasyas[after.mantras[i].1.mula_bhasyas[j] as int].kind is Mula by {
        assert(rv.mantras[i].1.mula_bhasyas[j] < rv.bhasyas.len());
    }
    assert forall|i: int, j: int|
        0 <= i < after.mantras.len() && 0 <= j < after.mantras[i].1.anusrit_bhasyas.len() implies (
    #[trigger] after.mantras[i].1.anusrit_bhasyas[j]) < after.bhasyas.len() by {
        assert(rv.mantras[i].1.anusrit_bhasyas[j] < rv.bhasyas.len());
    }
}

impl Repository {
    /// The index of the entry for the mantra `text`, which is made if there
    /// is none.
    pub fn entry(&mut self, text: &String) -> (k: usize)
        ensures
            final(self)@ == (RepositoryView {
                mantras: with_entry(old(self)@.mantras, text@),
                ..old(self)@
            }),
            k == entry_index(old(self)@.mantras, text@),
            k < final(self).mantras@.len(),
    {
        match self.find_mantra(text) {
            Some(i) => i,
            None => {
                let k = self.mantras.len();
                self.mantras.push((text.clone(), MantraInfo::new()));
                assert(mantra_views(self.mantras@) =~= mantra_views(old(self).mantras@).push(
                    (text@, blank_info()),
                ));
                k
            },
        }
    }
}

/// Enters that the bhasya `idx` defines the mantra `text`.
pub fn register_definition(
    repo: &mut Repository,
    text: &Vec<char>,
    idx: usize,
    file_name: &str,
    line_num: usize,
)
    ensures
        final(repo)@ == defined(old(repo)@, text@, idx, file_name@, line_num),
        final(repo)@.bhasyas == old(repo)@.bhasyas,
        old(repo)@.wf() ==> final(repo)@.wf(),
{
    proof {
        if old(repo)@.wf() {
            defined_keeps_wf(old(repo)@, text@, idx, file_name@, line_num);
        }
    }
    let key = string_of(text);
    let known = idx < repo.bhasyas.len();
    let mut mula = false;
    let mut explained = false;
    let mut file = file_name.to_owned();
    let mut line = line_num;
    if known {
        let b = &repo.bhasyas[idx];
        assert(bhasya_views(repo.bhasyas@)[idx as int] == b@);
        mula = match &b.kind {
            BhasyaKind::Mula => true,
            _ => false,
        };
        if mula {
            let p = chars_of(b.paragraph.as_str());
            explained = commentary(&p).len() > 0;
        }
        file = b.file.clone();
        line = b.line;
    }
    let k = repo.entry(&key);
    let ghost m = repo@.mantras;
    assert(m == with_entry(old(repo)@.mantras, text@));
    assert(m[k as int] == (repo.mantras@[k as int].0@, repo.mantras@[k as int].1@));
    proof {
        lemma_lookup_from(old(repo)@.mantras, text@, 0);
    }
    if repo.mantras[k].1.file.as_str().is_empty() {
        repo.mantras[k].1.file = file;
        repo.mantras[k].1.line = line;
    }
    if explained {
        repo.mantras[k].1.has_explanation = true;
    }
    if mula {
        repo.mantras[k].1.mula_bhasyas.push(idx);
    }
    assert(repo@.mantras =~= defined(old(repo)@, text@, idx, file_name@, line_num).mantras);
}

/// Enters that the text of the bhasya `idx` refers to the mantra `text`.
pub fn register_reference(repo: &mut Repository, text: &Vec<char>, idx: usize)
    ensures
        final(repo)@ == referred(old(repo)@, text@, idx),
        final(repo)@.bhasyas == old(repo)@.bhasyas,
        old(repo)@.wf() && idx < old(repo)@.bhasyas.len() ==> final(repo)@.wf(),
{
    proof {
        if old(repo)@.wf() && idx < old(repo)@.bhasyas.len() {
            referred_keeps_wf(old(repo)@, text@, idx);
        }
    }
    let key = string_of(text);
    let k = repo.entry(&key);
    let ghost m = repo@.mantras;
    assert(m[k as int] == (repo.mantras@[k as int].0@, repo.mantras@[k as int].1@));
    proof {
        lemma_lookup_from(old(repo)@.mantras, text@, 0);
    }
    repo.mantras[k].1.anusrit_bhasyas.push(idx);
    assert(repo@.mantras =~= referred(old(repo)@, text@, idx).mantras);
}

/// Enters a reference that stands outside every bhasya.
pub fn register_anusrit(repo: &mut Repository, r: &Reference, file_name: &str, line_num: usize)
    ensures
        final(repo)@ == cited(old(repo)@, r@, file_name@, line_num),
        final(repo)@.bhasyas == old(repo)@.bhasyas,
        old(repo)@.wf() ==> final(repo)@.wf(),
{
    let shastra = match &r.shastra {
        Some(a) => Some(string_of(a)),
        None => None,
    };
    let a = Anusrit {
        mantra_text: string_of(&r.text),
        file: file_name.to_owned(),
        line: line_num,
        shastra,
    };
    let ghost av = a@;
    repo.anusrits.push(a);
    assert(anusrit_views(repo.anusrits@) =~= anusrit_views(old(repo).anusrits@).push(av));
}

/// Enters the references of a line.
fn apply_references(
    repo: &mut Repository,
    refs: &Vec<Reference>,
    file_name: &str,
    line_num: usize,
    at: Option<usize>,
)
    ensures
        final(repo)@ == references_applied(
            old(repo)@,
            reference_views(refs@),
            refs@.len() as int,
            file_name@,
            line_num,
            at,
        ),
        final(repo)@.bhasyas == old(repo)@.bhasyas,
        old(repo)@.wf() && in_range(old(repo)@, at) ==> final(repo)@.wf(),
{
    let mut i: usize = 0;
    while i < refs.len()
        invariant
            i <= refs@.len(),
            repo@.bhasyas == old(repo)@.bhasyas,
            old(repo)@.wf() && in_range(old(repo)@, at) ==> repo@.wf(),
            repo@ == references_applied(
                old(repo)@,
                reference_views(refs@),
                i as int,
                file_name@,
                line_num,
                at,
            ),
        decreases refs@.len() - i,
    {
        assert(reference_views(refs@)[i as int] == refs@[i as int]@);
        match at {
            Some(idx) => register_reference(repo, &refs[i].text, idx),
            None => register_anusrit(repo, &refs[i], file_name, line_num),
        }
        i += 1;
    }
}

/// Reads a line of a quote block, without its prefix: the mantra it defines
/// and the references in it.
pub fn parse_line_in_bhasya(
    line: &Vec<char>,
    file_name: &str,
    line_num: usize,
    repo: &mut Repository,
    bhasya_index: Option<usize>,
)
    ensures
        final(repo)@ == line_in_bhasya(old(repo)@, line@, file_name@, line_num, bhasya_index),
        final(repo)@.bhasyas == old(repo)@.bhasyas,
        old(repo)@.wf() && in_range(old(repo)@, bhasya_index) ==> final(repo)@.wf(),
{
    match bhasya_index {
        Some(idx) => match line_subject(line) {
            Some(t) => register_definition(repo, &t, idx, file_name, line_num),
            None => {},
        },
        None => {},
    }
    let refs = find_references(line, true);
    apply_references(repo, &refs, file_name, line_num, bhasya_index);
}

/// Reads a line outside quote blocks: the references in it.
pub fn parse_line_for_anusrits(
    line: &Vec<char>,
    file_name: &str,
    line_num: usize,
    repo: &mut Repository,
    bhasya_index: Option<usize>,
)
    ensures
        final(repo)@ == line_for_anusrits(old(repo)@, line@, file_name@, line_num, bhasya_index),
        final(repo)@.bhasyas == old(repo)@.bhasyas,
        old(repo)@.wf() && in_range(old(repo)@, bhasya_index) ==> final(repo)@.wf(),
{
    let refs = find_references(line, false);
    apply_references(repo, &refs, file_name, line_num, bhasya_index);
}

/// A line of a quote block without comment prefix, quote sign and
/// indentation.
pub fn strip_comment_and_quote(line: &Vec<char>) -> (r: Vec<char>)
    ensures
        r@ == unquoted(line@),
{
    let c = line_content(line);
    let sign = chars_of(">");
    match strip_prefix(&c, &sign) {
        Some(rest) => trim_start(&rest),
        None => trim_start(&c),
    }
}

/// Whether a paragraph is a quote block.
pub fn is_quote_paragraph(para: &Paragraph) -> (r: bool)
    ensures
        r == is_quote_block(para@),
{
    if para.lines.len() == 0 {
        return false;
    }
    let c = line_content(&para.lines[0].text);
    assert(para@.lines[0] == para.lines@[0]@);
    c.len() > 0 && c[0] == '>'
}

/// The kind of a bhasya under a directive.
pub fn kind_of(directive: &Option<Directive>) -> (r: BhasyaKind)
    ensures
        r@ == kind_under(
            match *directive {
                Some(d) => Some(d@),
                None => None,
            },
        ),
{
    match directive {
        Some(Directive::Tyakta) => BhasyaKind::Tyakta,
        Some(Directive::Shastra(n)) => BhasyaKind::Uddhrit(string_of(n)),
        Some(Directive::Khandita(n)) => BhasyaKind::Khandita(string_of(n)),
        None => BhasyaKind::Mula,
    }
}

/// Reads a paragraph into the repository.
pub fn parse_paragraph(para: &Paragraph, file_name: &str, repo: &mut Repository)
    ensures
        final(repo)@ == paragraph_parsed(old(repo)@, para@, file_name@),
        old(repo)@.wf() ==> final(repo)@.wf(),
{
    let n = para.lines.len();
    if !is_quote_paragraph(para) {
        let mut i: usize = 0;
        while i < n
            invariant
                i <= n,
                n == para.lines@.len(),
                repo@ == plain_lines_parsed(old(repo)@, para@.lines, i as int, file_name@),
                old(repo)@.wf() ==> repo@.wf(),
            decreases n - i,
        {
            assert(para@.lines[i as int] == para.lines@[i as int]@);
            let bare = match strip_comment_prefix(&para.lines[i].text) {
                Some(p) => p.0,
                None => slice(&para.lines[i].text, 0, para.lines[i].text.len()),
            };
            assert(bare@ == uncommented(para.lines@[i as int].text@));
            parse_line_for_anusrits(&bare, file_name, para.lines[i].number, repo, None);
            i += 1;
        }
        return;
    }
    let mut bare: Vec<Vec<char>> = Vec::new();
    let mut marked = false;
    let mut i: usize = 0;
    while i < n
        invariant
            i <= n,
            n == para.lines@.len(),
            bare@.len() == i,
            forall|k: int| 0 <= k < i ==> bare@[k]@ == unquoted(para.lines@[k].text@),
            marked == marked_upto(para@.lines, i as int),
        decreases n - i,
    {
        assert(para@.lines[i as int] == para.lines@[i as int]@);
        let u = strip_comment_and_quote(&para.lines[i].text);
        if marker_at(&u, 0) {
            marked = true;
        }
        bare.push(u);
        i += 1;
    }
    assert(texts(bare@) =~= unquoted_lines(para@.lines));
    let at = if marked {
        let feed = chars_of("\n");
        let idx = repo.bhasyas.len();
        let b = Bhasya {
            paragraph: string_of(&join(&bare, &feed)),
            file: file_name.to_owned(),
            line: para.lines[0].number,
            kind: kind_of(&para.directive),
        };
        assert(para@.lines[0] == para.lines@[0]@);
        assert(b@ == bhasya_of(para@, file_name@));
        repo.bhasyas.push(b);
        assert(bhasya_views(repo.bhasyas@) =~= bhasya_views(old(repo).bhasyas@).push(
            bhasya_of(para@, file_name@),
        ));
        proof {
            if old(repo)@.wf() {
                bhasya_keeps_wf(old(repo)@, bhasya_of(para@, file_name@));
            }
        }
        Some(idx)
    } else {
        None
    };
    let ghost start = repo@;
    let mut i: usize = 0;
    while i < n
        invariant
            i <= n,
            n == para.lines@.len(),
            bare@.len() == n,
            forall|k: int| 0 <= k < n ==> bare@[k]@ == unquoted(para.lines@[k].text@),
            repo@ == quote_lines_parsed(start, para@.lines, i as int, file_name@, at),
            repo@.bhasyas == start.bhasyas,
            in_range(start, at),
            old(repo)@.wf() ==> repo@.wf(),
        decreases n - i,
    {
        assert(para@.lines[i as int] == para.lines@[i as int]@);
        parse_line_in_bhasya(&bare[i], file_name, para.lines[i].number, repo, at);
        i += 1;
    }
}

/// Reads the text of a file into the repository.
pub fn parse_file(content: &str, file_name: &str, repo: &mut Repository)
    ensures
        final(repo)@ == file_parsed(old(repo)@, content@, file_name@),
        old(repo)@.wf() ==> final(repo)@.wf(),
{
    let text = chars_of(content);
    let lines = split_lines(&text);
    let skip = mark_excluded(&lines);
    assert(skip@ =~= exclusions(texts(lines@)));
    let paras = extract_paragraphs(&lines, &skip);
    let mut i: usize = 0;
    while i < paras.len()
        invariant
            i <= paras@.len(),
            paragraph_views(paras@) == paragraphs_of(lines_of(content@), exclusions(lines_of(content@))),
            repo@ == paragraphs_parsed(old(repo)@, paragraph_views(paras@), i as int, file_name@),
            old(repo)@.wf() ==> repo@.wf(),
        decreases paras@.len() - i,
    {
        assert(paragraph_views(paras@)[i as int] == paras@[i as int]@);
        parse_paragraph(&paras[i], file_name, repo);
        i += 1;
    }
}

impl Repository {
    /// Reads a corpus: the files, each a path with its text, in their order,
    /// under the configuration given.
    pub fn parse(files: &Vec<(String, String)>, config: Config, shastra_config: ShastraConfig) -> (r:
        Repository)
        ensures
            r@ == corpus_parsed(
                pair_views(files@),
                opt_text(config.name),
                pair_views(shastra_config.aliases@),
            ),
            r@.wf(),
    {
        let mut repo = Repository::new();
        repo.config = config;
        repo.shastra_config = shastra_config;
        let ghost start = repo@;
        assert(start.wf());
        let mut i: usize = 0;
        while i < files.len()
            invariant
                i <= files@.len(),
                repo@ == files_parsed(start, pair_views(files@), i as int),
                repo@.wf(),
            decreases files@.len() - i,
        {
            assert(pair_views(files@)[i as int] == (files@[i as int].0@, files@[i as int].1@));
            parse_file(files[i].1.as_str(), files[i].0.as_str(), &mut repo);
            i += 1;
        }
        repo
    }
}

} // verus!
