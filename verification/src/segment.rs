//! The segmenter: it cuts the lines of a file into paragraphs. It leaves out
//! fenced code, keeps a run of quote lines behind one comment prefix together,
//! and hands a directive line on to the quote block that follows it.

use crate::text::{
    blank, chars_of, is_blank, is_space, lemma_back_spaces_bounds, lemma_skip_spaces_bounds,
    same_text, skip_spaces, skip_spaces_from, slice, starts_with, strip_prefix, texts, trim,
    trim_start, trimmed, trimmed_start, without_prefix,
};
use vstd::prelude::*;

verus! {

/// A directive line: it says what the quote block after it is.
#[derive(Debug, PartialEq, Eq)]
pub enum Directive {
    /// `shastra: name`: the block quotes the shastra `name`.
    Shastra(Vec<char>),
    /// `khandita: name`: the block refutes a bhasya of the shastra `name`.
    Khandita(Vec<char>),
    /// `tyakta:`: the block is withdrawn.
    Tyakta,
}

pub enum DirectiveView {
    Shastra(Seq<char>),
    Khandita(Seq<char>),
    Tyakta,
}

impl View for Directive {
    type V = DirectiveView;

    open spec fn view(&self) -> DirectiveView {
        match self {
            Directive::Shastra(n) => DirectiveView::Shastra(n@),
            Directive::Khandita(n) => DirectiveView::Khandita(n@),
            Directive::Tyakta => DirectiveView::Tyakta,
        }
    }
}

/// A line of a paragraph, with its number in the file, counted from 1.
#[derive(Debug, PartialEq, Eq)]
pub struct Line {
    pub number: usize,
    pub text: Vec<char>,
}

pub struct LineView {
    pub number: usize,
    pub text: Seq<char>,
}

impl View for Line {
    type V = LineView;

    open spec fn view(&self) -> LineView {
        LineView { number: self.number, text: self.text@ }
    }
}

/// A paragraph: its lines as they stand in the file, and, for a quote block,
/// the directive that stood before it.
#[derive(Debug, PartialEq, Eq)]
pub struct Paragraph {
    pub lines: Vec<Line>,
    pub directive: Option<Directive>,
}

pub struct ParagraphView {
    pub lines: Seq<LineView>,
    pub directive: Option<DirectiveView>,
}

pub open spec fn line_views(v: Seq<Line>) -> Seq<LineView> {
    v.map_values(|l: Line| l@)
}

pub open spec fn opt_directive(o: Option<Directive>) -> Option<DirectiveView> {
    match o {
        Some(d) => Some(d@),
        None => None,
    }
}

pub open spec fn opt_chars(o: Option<Vec<char>>) -> Option<Seq<char>> {
    match o {
        Some(s) => Some(s@),
        None => None,
    }
}

impl View for Paragraph {
    type V = ParagraphView;

    open spec fn view(&self) -> ParagraphView {
        ParagraphView { lines: line_views(self.lines@), directive: opt_directive(self.directive) }
    }
}

pub open spec fn paragraph_views(v: Seq<Paragraph>) -> Seq<ParagraphView> {
    v.map_values(|p: Paragraph| p@)
}

/// The comment marker that `t` starts with: the first of `//`, `#`, `--`,
/// `;` and `%` that does.
pub open spec fn comment_marker(t: Seq<char>) -> Option<Seq<char>> {
    if "//"@.is_prefix_of(t) {
        Some("//"@)
    } else if "#"@.is_prefix_of(t) {
        Some("#"@)
    } else if "--"@.is_prefix_of(t) {
        Some("--"@)
    } else if ";"@.is_prefix_of(t) {
        Some(";"@)
    } else if "%"@.is_prefix_of(t) {
        Some("%"@)
    } else {
        None
    }
}

/// A line behind a comment marker, cut in two: what follows the marker, and
/// the prefix, which is the indentation together with the marker.
pub open spec fn comment_split(line: Seq<char>) -> Option<(Seq<char>, Seq<char>)> {
    let t = trimmed_start(line);
    match comment_marker(t) {
        Some(m) => Some(
            (t.subrange(m.len() as int, t.len() as int), line.subrange(0, line.len() - t.len() + m.len())),
        ),
        None => None,
    }
}

/// The comment prefix of a line, if it has one.
pub open spec fn comment_prefix(line: Seq<char>) -> Option<Seq<char>> {
    match comment_split(line) {
        Some(p) => Some(p.1),
        None => None,
    }
}

/// What a line says once its comment prefix and its indentation are gone.
pub open spec fn content(line: Seq<char>) -> Seq<char> {
    match comment_split(line) {
        Some(p) => trimmed_start(p.0),
        None => trimmed_start(line),
    }
}

/// A quote line: its content starts with `>`.
pub open spec fn is_quote(line: Seq<char>) -> bool {
    content(line).len() > 0 && content(line)[0] == '>'
}

/// A line that holds a comment marker and nothing more.
pub open spec fn is_comment_only(line: Seq<char>) -> bool {
    match comment_split(line) {
        Some(p) => is_blank(p.0),
        None => false,
    }
}

/// A line that ends a paragraph: blank, or a bare comment marker.
pub open spec fn is_empty_line(line: Seq<char>) -> bool {
    is_blank(line) || is_comment_only(line)
}

/// The name behind `key` in `c`: what follows `key`, trimmed, if any is left.
pub open spec fn named(c: Seq<char>, key: Seq<char>) -> Option<Seq<char>> {
    match without_prefix(c, key) {
        Some(rest) => if is_blank(rest) {
            None
        } else {
            Some(trimmed(rest))
        },
        None => None,
    }
}

/// The directive that a line's content spells: `shastra:` or `khandita:`
/// with a name, or `tyakta:` alone.
pub open spec fn directive_of(c: Seq<char>) -> Option<DirectiveView> {
    if named(c, "shastra:"@).is_some() {
        Some(DirectiveView::Shastra(named(c, "shastra:"@).unwrap()))
    } else if named(c, "khandita:"@).is_some() {
        Some(DirectiveView::Khandita(named(c, "khandita:"@).unwrap()))
    } else if trimmed(c) == "tyakta:"@ {
        Some(DirectiveView::Tyakta)
    } else {
        None
    }
}

/// A fence line: it opens or closes a block of code.
pub open spec fn is_fence(line: Seq<char>) -> bool {
    "```"@.is_prefix_of(trimmed(line))
}

/// Whether line `i` stands inside a block of code that a fence line before it
/// opened.
pub open spec fn in_code(lines: Seq<Seq<char>>, i: int) -> bool
    decreases i,
{
    if i <= 0 {
        false
    } else {
        in_code(lines, i - 1) != is_fence(lines[i - 1])
    }
}

/// Whether line `i` is left out: a fence line, or a line of fenced code.
pub open spec fn is_excluded(lines: Seq<Seq<char>>, i: int) -> bool {
    is_fence(lines[i]) || in_code(lines, i)
}

/// Where the segmenter stands between two lines.
pub enum ModeView {
    /// Outside a quote block, with no directive waiting.
    Idle,
    /// Outside a quote block; the directive waits for the next quote block.
    Pending(DirectiveView),
    /// Inside a quote block that runs under this directive and comment prefix.
    InQuote(Option<DirectiveView>, Option<Seq<char>>),
}

pub struct SegState {
    /// The paragraphs that are closed.
    pub done: Seq<ParagraphView>,
    /// The lines of the paragraph that is open, if one is.
    pub open: Seq<LineView>,
    pub mode: ModeView,
}

pub open spec fn initial_state() -> SegState {
    SegState { done: Seq::empty(), open: Seq::empty(), mode: ModeView::Idle }
}

/// The directive that an open paragraph carries when it closes.
pub open spec fn block_directive(mode: ModeView) -> Option<DirectiveView> {
    match mode {
        ModeView::InQuote(d, _) => d,
        _ => None,
    }
}

/// The directive that waits for the next quote block.
pub open spec fn pending_directive(mode: ModeView) -> Option<DirectiveView> {
    match mode {
        ModeView::Pending(d) => Some(d),
        _ => None,
    }
}

/// Closes the open paragraph, if one is open. The mode is `Idle` afterwards.
pub open spec fn closed(st: SegState) -> SegState {
    if st.open.len() == 0 {
        SegState { done: st.done, open: st.open, mode: ModeView::Idle }
    } else {
        SegState {
            done: st.done.push(
                ParagraphView { lines: st.open, directive: block_directive(st.mode) },
            ),
            open: Seq::empty(),
            mode: ModeView::Idle,
        }
    }
}

/// Whether `line` goes on with the quote block that is open.
pub open spec fn continues_quote(mode: ModeView, line: Seq<char>) -> bool {
    match mode {
        ModeView::InQuote(_, prefix) => is_quote(line) && prefix == comment_prefix(line),
        _ => false,
    }
}

/// The state after a line that does not go on with an open quote block.
pub open spec fn step_outside(base: SegState, number: usize, line: Seq<char>) -> SegState {
    let this = LineView { number, text: line };
    match directive_of(content(line)) {
        Some(d) => SegState { done: base.done, open: base.open, mode: ModeView::Pending(d) },
        None => if is_empty_line(line) {
            closed(base)
        } else if is_quote(line) {
            SegState {
                done: closed(base).done,
                open: seq![this],
                mode: ModeView::InQuote(pending_directive(base.mode), comment_prefix(line)),
            }
        } else {
            SegState { done: base.done, open: base.open.push(this), mode: ModeView::Idle }
        },
    }
}

/// The state after one more line. An excluded line and an empty line close
/// the open paragraph and drop a waiting directive; a quote line goes on with
/// the open quote block under the same comment prefix, or opens a block under
/// the waiting directive; a directive line is kept out of every paragraph and
/// waits; any other line goes into a plain paragraph and drops a waiting
/// directive.
pub open spec fn step(st: SegState, number: usize, line: Seq<char>, excluded: bool) -> SegState {
    if excluded {
        closed(st)
    } else if continues_quote(st.mode, line) {
        SegState { done: st.done, open: st.open.push(LineView { number, text: line }), mode: st.mode }
    } else if st.mode is InQuote {
        step_outside(closed(st), number, line)
    } else {
        step_outside(st, number, line)
    }
}

/// The state after the first `n` lines.
pub open spec fn state_after(lines: Seq<Seq<char>>, skip: Seq<bool>, n: int) -> SegState
    decreases n,
{
    if n <= 0 {
        initial_state()
    } else {
        step(state_after(lines, skip, n - 1), n as usize, lines[n - 1], skip[n - 1])
    }
}

/// The paragraphs of a file, given its lines and which of them are left out.
pub open spec fn paragraphs_of(lines: Seq<Seq<char>>, skip: Seq<bool>) -> Seq<ParagraphView> {
    closed(state_after(lines, skip, lines.len() as int)).done
}

/// A directive of any kind that stands before a blank line is lost: after
/// the blank line no directive waits, whatever the state before it was, so
/// a quote block further down opens under none.
pub proof fn blank_line_drops_directive(st: SegState, number: usize, line: Seq<char>)
    requires
        is_blank(line),
    ensures
        step(st, number, line, false).mode == ModeView::Idle,
        step(st, number, line, false).open.len() == 0,
        forall|n: usize, next: Seq<char>|
            is_quote(next) ==> #[trigger] step(step(st, number, line, false), n, next, false).mode
                == ModeView::InQuote(None, comment_prefix(next)),
{
    lemma_skip_spaces_bounds(line, 0);
    let t = trimmed_start(line);
    assert(t.len() == 0);
    assert(comment_marker(t).is_none()) by {
        reveal_strlit("//");
        reveal_strlit("#");
        reveal_strlit("--");
        reveal_strlit(";");
        reveal_strlit("%");
    }
    assert(content(line).len() == 0);
    assert(!is_quote(line));
    let c = content(line);
    assert(directive_of(c).is_none()) by {
        reveal_strlit("shastra:");
        reveal_strlit("khandita:");
        reveal_strlit("tyakta:");
        assert(trimmed(c).len() == 0);
    }
    let after = step(st, number, line, false);
    assert forall|n: usize, next: Seq<char>| is_quote(next) implies #[trigger] step(
        after,
        n,
        next,
        false,
    ).mode == ModeView::InQuote(None, comment_prefix(next)) by {
        lemma_quote_is_no_directive(next);
    }
}

/// A quote line spells no directive and is not empty.
pub proof fn lemma_quote_is_no_directive(line: Seq<char>)
    requires
        is_quote(line),
    ensures
        directive_of(content(line)).is_none(),
        !is_empty_line(line),
{
    let c = content(line);
    reveal_strlit("shastra:");
    reveal_strlit("khandita:");
    reveal_strlit("tyakta:");
    assert(!"shastra:"@.is_prefix_of(c)) by {
        if "shastra:"@.is_prefix_of(c) {
            assert(c.subrange(0, 8)[0] == 's');
        }
    }
    assert(!"khandita:"@.is_prefix_of(c)) by {
        if "khandita:"@.is_prefix_of(c) {
            assert(c.subrange(0, 9)[0] == 'k');
        }
    }
    lemma_skip_spaces_bounds(c, 0);
    lemma_back_spaces_bounds(trimmed_start(c), trimmed_start(c).len() as int);
    lemma_content_starts_solid(line);
    assert(trimmed_start(c) == c);
    assert(trimmed(c) != "tyakta:"@) by {
        if trimmed(c) == "tyakta:"@ {
            assert(trimmed(c)[0] == c[0]);
            assert("tyakta:"@[0] == 't');
        }
    }
    lemma_skip_spaces_bounds(line, 0);
    match comment_split(line) {
        Some(p) => {
            lemma_skip_spaces_bounds(p.0, 0);
        },
        None => {},
    }
}

/// The content of a line starts with no white space.
pub proof fn lemma_content_starts_solid(line: Seq<char>)
    ensures
        content(line).len() > 0 ==> !is_space(content(line)[0]),
        skip_spaces(content(line), 0) == 0,
{
    let src = match comment_split(line) {
        Some(p) => p.0,
        None => line,
    };
    lemma_skip_spaces_bounds(src, 0);
    assert(content(line) == trimmed_start(src));
}


/// The comment marker that `t` starts with.
pub fn marker_of(t: &Vec<char>) -> (r: Option<Vec<char>>)
    ensures
        opt_chars(r) == comment_marker(t@),
{
    let slashes = chars_of("//");
    if starts_with(t, &slashes) {
        return Some(slashes);
    }
    let hash = chars_of("#");
    if starts_with(t, &hash) {
        return Some(hash);
    }
    let dashes = chars_of("--");
    if starts_with(t, &dashes) {
        return Some(dashes);
    }
    let semicolon = chars_of(";");
    if starts_with(t, &semicolon) {
        return Some(semicolon);
    }
    let percent = chars_of("%");
    if starts_with(t, &percent) {
        return Some(percent);
    }
    None
}

/// Cuts a line that stands behind a comment marker in two: what follows the
/// marker, and the prefix up to the marker's end.
pub fn strip_comment_prefix(line: &Vec<char>) -> (r: Option<(Vec<char>, Vec<char>)>)
    ensures
        match r {
            Some(p) => comment_split(line@) == Some((p.0@, p.1@)),
            None => comment_split(line@).is_none(),
        },
{
    let start = skip_spaces_from(line, 0);
    let t = slice(line, start, line.len());
    match marker_of(&t) {
        Some(m) => {
            let rest = slice(&t, m.len(), t.len());
            let prefix = slice(line, 0, start + m.len());
            Some((rest, prefix))
        },
        None => None,
    }
}

/// What a line says once its comment prefix and its indentation are gone.
pub fn line_content(line: &Vec<char>) -> (r: Vec<char>)
    ensures
        r@ == content(line@),
{
    match strip_comment_prefix(line) {
        Some(p) => trim_start(&p.0),
        None => trim_start(line),
    }
}

/// Whether a line holds a comment marker and nothing more.
pub fn is_comment_only_line(line: &Vec<char>) -> (r: bool)
    ensures
        r == is_comment_only(line@),
{
    match strip_comment_prefix(line) {
        Some(p) => blank(&p.0),
        None => false,
    }
}

/// The name behind `key` in `c`.
fn name_after(c: &Vec<char>, key: &str) -> (r: Option<Vec<char>>)
    ensures
        opt_chars(r) == named(c@, key@),
{
    let k = chars_of(key);
    match strip_prefix(c, &k) {
        Some(rest) => {
            if blank(&rest) {
                None
            } else {
                Some(trim(&rest))
            }
        },
        None => None,
    }
}

/// The directive that a line's content spells, if it spells one.
pub fn parse_directive(c: &Vec<char>) -> (r: Option<Directive>)
    ensures
        opt_directive(r) == directive_of(c@),
{
    match name_after(c, "shastra:") {
        Some(name) => {
            return Some(Directive::Shastra(name));
        },
        None => {},
    }
    match name_after(c, "khandita:") {
        Some(name) => {
            return Some(Directive::Khandita(name));
        },
        None => {},
    }
    let t = trim(c);
    let word = chars_of("tyakta:");
    if same_text(&t, &word) {
        Some(Directive::Tyakta)
    } else {
        None
    }
}

/// Whether a line is a fence line.
pub fn is_fence_line(line: &Vec<char>) -> (r: bool)
    ensures
        r == is_fence(line@),
{
    let t = trim(line);
    let fence = chars_of("```");
    starts_with(&t, &fence)
}

/// Says of each line whether it is left out: a fence line or fenced code.
pub fn mark_excluded(lines: &Vec<Vec<char>>) -> (r: Vec<bool>)
    ensures
        r@.len() == lines@.len(),
        forall|i: int| 0 <= i < r@.len() ==> r@[i] == is_excluded(texts(lines@), i),
{
    let mut r: Vec<bool> = Vec::new();
    let mut inside = false;
    let mut i: usize = 0;
    while i < lines.len()
        invariant
            i <= lines@.len(),
            r@.len() == i,
            inside == in_code(texts(lines@), i as int),
            forall|k: int| 0 <= k < i ==> r@[k] == is_excluded(texts(lines@), k),
        decreases lines@.len() - i,
    {
        let fence = is_fence_line(&lines[i]);
        assert(texts(lines@)[i as int] == lines@[i as int]@);
        r.push(fence || inside);
        assert(in_code(texts(lines@), i + 1) == (inside != fence));
        if fence {
            inside = !inside;
        }
        i += 1;
    }
    r
}

/// Where the segmenter stands between two lines.
pub enum Mode {
    Idle,
    Pending(Directive),
    InQuote(Option<Directive>, Option<Vec<char>>),
}

impl View for Mode {
    type V = ModeView;

    open spec fn view(&self) -> ModeView {
        match self {
            Mode::Idle => ModeView::Idle,
            Mode::Pending(d) => ModeView::Pending(d@),
            Mode::InQuote(d, p) => ModeView::InQuote(opt_directive(*d), opt_chars(*p)),
        }
    }
}

/// The segmenter between two lines: the paragraphs that are closed, the one
/// that is open, and the mode.
pub struct Segmenter {
    pub done: Vec<Paragraph>,
    pub open: Vec<Line>,
    pub mode: Mode,
}

impl View for Segmenter {
    type V = SegState;

    open spec fn view(&self) -> SegState {
        SegState { done: paragraph_views(self.done@), open: line_views(self.open@), mode: self.mode@ }
    }
}

impl Segmenter {
    /// The segmenter before the first line.
    pub fn new() -> (r: Segmenter)
        ensures
            r@ == initial_state(),
    {
        let r = Segmenter { done: Vec::new(), open: Vec::new(), mode: Mode::Idle };
        assert(paragraph_views(r.done@) =~= Seq::empty());
        assert(line_views(r.open@) =~= Seq::empty());
        r
    }

    /// Closes the open paragraph, if one is open.
    pub fn close(self) -> (r: Segmenter)
        ensures
            r@ == closed(self@),
    {
        let mut done = self.done;
        let open = self.open;
        if open.len() == 0 {
            Segmenter { done, open, mode: Mode::Idle }
        } else {
            let directive = match self.mode {
                Mode::InQuote(d, _) => d,
                _ => None,
            };
            let ghost before = paragraph_views(done@);
            let para = Paragraph { lines: open, directive };
            let ghost pv = para@;
            done.push(para);
            assert(paragraph_views(done@) =~= before.push(pv));
            let r = Segmenter { done, open: Vec::new(), mode: Mode::Idle };
            assert(line_views(r.open@) =~= Seq::empty());
            r
        }
    }

    /// Puts a line at the end of the open paragraph.
    fn push_line(&mut self, number: usize, line: &Vec<char>)
        ensures
            final(self).done == old(self).done,
            final(self).mode == old(self).mode,
            line_views(final(self).open@) == line_views(old(self).open@).push(
                LineView { number, text: line@ },
            ),
    {
        let text = slice(line, 0, line.len());
        assert(text@ == line@);
        let ghost before = line_views(self.open@);
        self.open.push(Line { number, text });
        assert(line_views(self.open@) =~= before.push(LineView { number, text: line@ }));
    }

    /// Takes a line that does not go on with an open quote block.
    fn advance_outside(self, number: usize, line: &Vec<char>) -> (r: Segmenter)
        requires
            !(self.mode is InQuote),
        ensures
            r@ == step_outside(self@, number, line@),
    {
        let c = line_content(line);
        match parse_directive(&c) {
            Some(d) => {
                return Segmenter { done: self.done, open: self.open, mode: Mode::Pending(d) };
            },
            None => {},
        }
        if blank(line) || is_comment_only_line(line) {
            return self.close();
        }
        if c.len() > 0 && c[0] == '>' {
            let prefix = match strip_comment_prefix(line) {
                Some(p) => Some(p.1),
                None => None,
            };
            let ghost before = self@;
            let mut done = self.done;
            if self.open.len() > 0 {
                let ghost views = paragraph_views(done@);
                let para = Paragraph { lines: self.open, directive: None };
                let ghost pv = para@;
                done.push(para);
                assert(paragraph_views(done@) =~= views.push(pv));
            }
            let pending = match self.mode {
                Mode::Pending(d) => Some(d),
                _ => None,
            };
            let mut r = Segmenter { done, open: Vec::new(), mode: Mode::InQuote(pending, prefix) };
            assert(line_views(r.open@) =~= Seq::empty());
            r.push_line(number, line);
            assert(r@.open =~= seq![LineView { number, text: line@ }]);
            assert(r@.done == closed(before).done);
            return r;
        }
        let mut r = Segmenter { done: self.done, open: self.open, mode: Mode::Idle };
        r.push_line(number, line);
        r
    }

    /// Takes one more line.
    pub fn advance(self, number: usize, line: &Vec<char>, excluded: bool) -> (r: Segmenter)
        ensures
            r@ == step(self@, number, line@, excluded),
    {
        if excluded {
            return self.close();
        }
        let in_quote = match &self.mode {
            Mode::InQuote(_, _) => true,
            _ => false,
        };
        if !in_quote {
            return self.advance_outside(number, line);
        }
        let c = line_content(line);
        let quote = c.len() > 0 && c[0] == '>';
        let prefix = match strip_comment_prefix(line) {
            Some(p) => Some(p.1),
            None => None,
        };
        let same = match &self.mode {
            Mode::InQuote(_, Some(p)) => match &prefix {
                Some(q) => same_text(p, q),
                None => false,
            },
            Mode::InQuote(_, None) => prefix.is_none(),
            _ => false,
        };
        if quote && same {
            let mut r = self;
            r.push_line(number, line);
            r
        } else {
            let base = self.close();
            base.advance_outside(number, line)
        }
    }
}

/// Cuts the lines of a file into paragraphs. `skip` says of each line whether
/// it is left out.
pub fn extract_paragraphs(lines: &Vec<Vec<char>>, skip: &Vec<bool>) -> (r: Vec<Paragraph>)
    requires
        skip@.len() == lines@.len(),
    ensures
        paragraph_views(r@) == paragraphs_of(texts(lines@), skip@),
{
    let mut st = Segmenter::new();
    let mut i: usize = 0;
    while i < lines.len()
        invariant
            i <= lines@.len(),
            skip@.len() == lines@.len(),
            st@ == state_after(texts(lines@), skip@, i as int),
        decreases lines@.len() - i,
    {
        assert(texts(lines@)[i as int] == lines@[i as int]@);
        st = st.advance(i + 1, &lines[i], skip[i]);
        i += 1;
    }
    let st = st.close();
    st.done
}

} // verus!
