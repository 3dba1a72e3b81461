//! What holds of the paragraphs that the segmenter hands out, whatever the
//! file: which lines they hold, and of what kind a paragraph is.

use crate::segment::{
    block_directive, closed, comment_prefix, content, continues_quote, directive_of, initial_state,
    is_empty_line, is_quote, lemma_quote_is_no_directive, paragraphs_of, state_after, step,
    LineView, ModeView, ParagraphView, SegState,
};
use vstd::prelude::*;

verus! {

/// A line that goes into a paragraph: it is not left out, it spells no
/// directive, and it is not empty.
pub open spec fn is_kept(line: Seq<char>, excluded: bool) -> bool {
    !excluded && directive_of(content(line)).is_none() && !is_empty_line(line)
}

/// Those of the first `n` lines that go into a paragraph, each with its
/// number.
pub open spec fn kept_upto(lines: Seq<Seq<char>>, skip: Seq<bool>, n: int) -> Seq<LineView>
    decreases n,
{
    if n <= 0 {
        Seq::empty()
    } else if is_kept(lines[n - 1], skip[n - 1]) {
        kept_upto(lines, skip, n - 1).push(LineView { number: n as usize, text: lines[n - 1] })
    } else {
        kept_upto(lines, skip, n - 1)
    }
}

/// The lines of the first `n` paragraphs, one paragraph after the other.
pub open spec fn flat(paras: Seq<ParagraphView>, n: int) -> Seq<LineView>
    decreases n,
{
    if n <= 0 {
        Seq::empty()
    } else {
        flat(paras, n - 1) + paras[n - 1].lines
    }
}

/// All the lines that the segmenter holds: those of the closed paragraphs
/// and those of the open one.
pub open spec fn held(st: SegState) -> Seq<LineView> {
    flat(st.done, st.done.len() as int) + st.open
}

proof fn lemma_flat_prefix(paras: Seq<ParagraphView>, p: ParagraphView, n: int)
    requires
        0 <= n <= paras.len(),
    ensures
        flat(paras.push(p), n) == flat(paras, n),
    decreases n,
{
    if n > 0 {
        lemma_flat_prefix(paras, p, n - 1);
        assert(paras.push(p)[n - 1] == paras[n - 1]);
    }
}

proof fn lemma_closed_holds(st: SegState)
    ensures
        held(closed(st)) == held(st),
        closed(st).open.len() == 0,
{
    if st.open.len() > 0 {
        let p = ParagraphView { lines: st.open, directive: block_directive(st.mode) };
        lemma_flat_prefix(st.done, p, st.done.len() as int);
        assert(st.done.push(p)[st.done.len() as int] == p);
        assert(held(closed(st)) =~= held(st));
    } else {
        assert(held(closed(st)) =~= held(st));
    }
}

proof fn lemma_step_holds(st: SegState, number: usize, line: Seq<char>, excluded: bool)
    ensures
        held(step(st, number, line, excluded)) == if is_kept(line, excluded) {
            held(st).push(LineView { number, text: line })
        } else {
            held(st)
        },
{
    let this = LineView { number, text: line };
    let after = step(st, number, line, excluded);
    lemma_closed_holds(st);
    if excluded {
    } else if continues_quote(st.mode, line) {
        lemma_quote_is_no_directive(line);
        assert(held(after) =~= held(st).push(this));
    } else {
        let base = if st.mode is InQuote {
            closed(st)
        } else {
            st
        };
        assert(held(base) == held(st));
        lemma_closed_holds(base);
        if directive_of(content(line)).is_some() {
            assert(held(after) =~= held(st));
        } else if is_empty_line(line) {
        } else if is_quote(line) {
            assert(held(after) =~= held(closed(base)).push(this));
        } else {
            assert(held(after) =~= held(base).push(this));
        }
    }
}

proof fn lemma_state_holds(lines: Seq<Seq<char>>, skip: Seq<bool>, n: int)
    requires
        0 <= n,
    ensures
        held(state_after(lines, skip, n)) == kept_upto(lines, skip, n),
    decreases n,
{
    if n > 0 {
        lemma_state_holds(lines, skip, n - 1);
        lemma_step_holds(state_after(lines, skip, n - 1), n as usize, lines[n - 1], skip[n - 1]);
    } else {
        assert(held(initial_state()) =~= Seq::<LineView>::empty());
    }
}

/// The paragraphs hold every line that is not left out, spells no directive
/// and is not empty, each once and in the order of the file, and no other
/// line. So a fence line, a line of fenced code, a directive line and a
/// blank line stand in no paragraph.
pub proof fn paragraphs_hold_the_kept_lines(lines: Seq<Seq<char>>, skip: Seq<bool>)
    ensures
        flat(paragraphs_of(lines, skip), paragraphs_of(lines, skip).len() as int) == kept_upto(
            lines,
            skip,
            lines.len() as int,
        ),
{
    let last = state_after(lines, skip, lines.len() as int);
    lemma_state_holds(lines, skip, lines.len() as int);
    lemma_closed_holds(last);
    assert(held(closed(last)) =~= flat(closed(last).done, closed(last).done.len() as int));
}

/// Every one of the lines is a quote line behind the comment prefix
/// `prefix`.
pub open spec fn all_quoted(ls: Seq<LineView>, prefix: Option<Seq<char>>) -> bool {
    forall|k: int|
        0 <= k < ls.len() ==> is_quote((#[trigger] ls[k]).text) && comment_prefix(ls[k].text)
            == prefix
}

/// None of the lines is a quote line.
pub open spec fn none_quoted(ls: Seq<LineView>) -> bool {
    forall|k: int| 0 <= k < ls.len() ==> !is_quote((#[trigger] ls[k]).text)
}

/// A paragraph as the segmenter makes it: it is not empty, and it is either
/// a quote block, whose lines are all quote lines behind one comment prefix,
/// or a plain paragraph, which holds no quote line and carries no directive.
pub open spec fn is_sound(p: ParagraphView) -> bool {
    p.lines.len() > 0 && (all_quoted(p.lines, comment_prefix(p.lines[0].text)) || (none_quoted(
        p.lines,
    ) && p.directive.is_none()))
}

/// The state of the segmenter is in order: the closed paragraphs are sound,
/// and the open lines are those of a quote block if and only if the mode
/// says so.
pub open spec fn state_in_order(st: SegState) -> bool {
    &&& forall|i: int| 0 <= i < st.done.len() ==> is_sound(#[trigger] st.done[i])
    &&& match st.mode {
        ModeView::InQuote(_, prefix) => st.open.len() > 0 && all_quoted(st.open, prefix),
        _ => none_quoted(st.open),
    }
}

proof fn lemma_closed_in_order(st: SegState)
    requires
        state_in_order(st),
    ensures
        state_in_order(closed(st)),
{
    if st.open.len() > 0 {
        let p = ParagraphView { lines: st.open, directive: block_directive(st.mode) };
        assert(is_sound(p));
        assert forall|i: int| 0 <= i < closed(st).done.len() implies is_sound(
            #[trigger] closed(st).done[i],
        ) by {
            if i < st.done.len() {
                assert(closed(st).done[i] == st.done[i]);
            }
        }
    }
}

proof fn lemma_step_in_order(st: SegState, number: usize, line: Seq<char>, excluded: bool)
    requires
        state_in_order(st),
    ensures
        state_in_order(step(st, number, line, excluded)),
{
    let this = LineView { number, text: line };
    let after = step(st, number, line, excluded);
    lemma_closed_in_order(st);
    if excluded {
    } else if continues_quote(st.mode, line) {
        assert forall|k: int| 0 <= k < after.open.len() implies is_quote(
            (#[trigger] after.open[k]).text,
        ) && comment_prefix(after.open[k].text) == st.mode->InQuote_1 by {
            if k < st.open.len() {
                assert(after.open[k] == st.open[k]);
            }
        }
    } else {
        let base = if st.mode is InQuote {
            closed(st)
        } else {
            st
        };
        lemma_closed_in_order(base);
        if directive_of(content(line)).is_some() {
        } else if is_empty_line(line) {
        } else if is_quote(line) {
            assert(after.open[0] == this);
        } else {
            assert forall|k: int| 0 <= k < after.open.len() implies !is_quote(
                (#[trigger] after.open[k]).text,
            ) by {
                if k < base.open.len() {
                    assert(after.open[k] == base.open[k]);
                }
            }
        }
    }
}

proof fn lemma_state_in_order(lines: Seq<Seq<char>>, skip: Seq<bool>, n: int)
    requires
        0 <= n,
    ensures
        state_in_order(state_after(lines, skip, n)),
    decreases n,
{
    if n > 0 {
        lemma_state_in_order(lines, skip, n - 1);
        lemma_step_in_order(state_after(lines, skip, n - 1), n as usize, lines[n - 1], skip[n - 1]);
    }
}

/// Every paragraph is sound: none is empty, a quote block holds quote lines
/// behind one comment prefix and nothing else, and only a quote block
/// carries a directive.
pub proof fn paragraphs_are_sound(lines: Seq<Seq<char>>, skip: Seq<bool>)
    ensures
        forall|i: int|
            0 <= i < paragraphs_of(lines, skip).len() ==> is_sound(
                #[trigger] paragraphs_of(lines, skip)[i],
            ),
{
    lemma_state_in_order(lines, skip, lines.len() as int);
    lemma_closed_in_order(state_after(lines, skip, lines.len() as int));
}

} // verus!
