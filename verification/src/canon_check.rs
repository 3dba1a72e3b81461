//! The rules of the canon file: a heading has a space behind its `#`, a
//! file name looks like one and has a quote block behind it, and a quote
//! block holds a mantra and stands behind a file name.

use crate::canon::{
    Canon, canon_entries_of, canon_mantras, canon_paragraphs, CanonSearchResult, extract_mantras,
    extract_paragraphs, kind_of_paragraph, paragraph_kind, paragraph_text, paragraph_texts,
    ParagraphKind, text_of_paragraph, unquote_block, unquoted_block,
};
use crate::findings::name_views;
use crate::scan::{next_char, seek};
use crate::text::{
    append, chars_of, decimal, digits, lines_of, opt_text, slice, split_lines, string_of, texts,
};
use vstd::prelude::*;

verus! {

/// A text as it is shown in a message: cut after `max` characters, with
/// `...` behind it where it was cut.
pub open spec fn shortened(s: Seq<char>, max: int) -> Seq<char> {
    if s.len() > max {
        s.subrange(0, max) + "..."@
    } else {
        s
    }
}

/// The first index at or after `i` that does not hold `c`, or the length.
pub open spec fn skip_char(s: Seq<char>, c: char, i: int) -> int
    decreases s.len() - i,
{
    if 0 <= i < s.len() && s[i] == c {
        skip_char(s, c, i + 1)
    } else {
        i
    }
}

/// A heading is in order if nothing stands behind its `#`s, or a space.
pub open spec fn heading_in_order(text: Seq<char>) -> bool {
    let a = skip_char(text, '#', 0);
    a >= text.len() || text[a] == ' '
}

/// A file name has a `.` or a `/` in it.
pub open spec fn looks_like_file(text: Seq<char>) -> bool {
    next_char(text, '.', 0) < text.len() || next_char(text, '/', 0) < text.len()
}

/// The message on the paragraph with the number `n`: what is wrong, and,
/// where `text` is given, the paragraph in quotes, shortened.
pub open spec fn paragraph_message(n: nat, what: Seq<char>, text: Option<Seq<char>>) -> Seq<char> {
    "paragraph "@ + digits(n) + what + match text {
        Some(t) => shortened(t, 40) + "\""@,
        None => Seq::empty(),
    }
}

/// Where the check of a canon file stands between two paragraphs.
pub struct CheckState {
    pub errors: Seq<Seq<char>>,
    /// The last paragraph was a file name.
    pub expecting_quote: bool,
    /// The file name that waits for its quote block.
    pub last_file: Option<Seq<char>>,
}

/// The state after the paragraph with the index `i` and the text `text`,
/// which unquoted reads `block`.
pub open spec fn check_step(st: CheckState, i: int, text: Seq<char>, block: Seq<char>) -> CheckState {
    let n = (i + 1) as nat;
    match kind_of_paragraph(text) {
        ParagraphKind::Heading => CheckState {
            errors: if heading_in_order(text) {
                st.errors
            } else {
                st.errors.push(
                    paragraph_message(n, ": heading must have space after #: \""@, Some(text)),
                )
            },
            expecting_quote: false,
            last_file: st.last_file,
        },
        ParagraphKind::Quote => {
            let first = if canon_mantras(block).len() == 0 {
                st.errors.push(
                    paragraph_message(
                        n,
                        ": quote block must contain a mantra definition (**^mantra^**): \""@,
                        Some(text),
                    ),
                )
            } else {
                st.errors
            };
            CheckState {
                errors: if st.last_file.is_none() {
                    first.push(
                        paragraph_message(n, ": quote block must be preceded by a filename"@, None),
                    )
                } else {
                    first
                },
                expecting_quote: false,
                last_file: None,
            }
        },
        ParagraphKind::FileName => {
            let first = if st.expecting_quote {
                st.errors.push(
                    paragraph_message(
                        n,
                        ": expected a quote block (> ...) after filename, got: \""@,
                        Some(text),
                    ),
                )
            } else {
                st.errors
            };
            CheckState {
                errors: if looks_like_file(text) {
                    first
                } else {
                    first.push(
                        paragraph_message(
                            n,
                            ": expected a filename (e.g., docs/file.md): \""@,
                            Some(text),
                        ),
                    )
                },
                expecting_quote: true,
                last_file: Some(text),
            }
        },
    }
}

/// The state after the first `n` paragraphs.
pub open spec fn check_after(paras: Seq<Seq<Seq<char>>>, n: int) -> CheckState
    decreases n,
{
    if n <= 0 {
        CheckState { errors: Seq::empty(), expecting_quote: false, last_file: None }
    } else {
        check_step(
            check_after(paras, n - 1),
            n - 1,
            paragraph_text(paras[n - 1]),
            unquoted_block(paras[n - 1]),
        )
    }
}

/// What is wrong with the text of a canon file: a message for each rule
/// that a paragraph breaks, and one more where the last file name has no
/// quote block behind it.
pub open spec fn canon_errors(content: Seq<char>) -> Seq<Seq<char>> {
    let paras = canon_paragraphs(lines_of(content));
    let last = check_after(paras, paras.len() as int);
    if last.expecting_quote && last.last_file.is_some() {
        last.errors.push("missing quote block after filename: "@ + last.last_file.unwrap())
    } else {
        last.errors
    }
}

/// Writes the message on a paragraph.
fn message(n: usize, what: &str, text: Option<&Vec<char>>) -> (r: String)
    ensures
        r@ == paragraph_message(
            n as nat,
            what@,
            match text {
                Some(t) => Some(t@),
                None => None,
            },
        ),
{
    let mut m = chars_of("paragraph ");
    append(&mut m, &decimal(n));
    append(&mut m, &chars_of(what));
    match text {
        Some(t) => {
            if t.len() > 40 {
                append(&mut m, &slice(t, 0, 40));
                append(&mut m, &chars_of("..."));
            } else {
                append(&mut m, t);
            }
            append(&mut m, &chars_of("\""));
            assert(m@ =~= paragraph_message(n as nat, what@, Some(t@)));
        },
        None => {
            assert(m@ =~= paragraph_message(n as nat, what@, None));
        },
    }
    string_of(&m)
}

/// Puts a message behind `errors`.
fn report(errors: &mut Vec<String>, m: String)
    ensures
        name_views(final(errors)@) == name_views(old(errors)@).push(m@),
{
    errors.push(m);
    assert(name_views(errors@) =~= name_views(old(errors)@).push(m@));
}

/// Holds the text of a canon file against the rules of the format.
pub fn validate_canon_content(content: &str) -> (r: Vec<String>)
    ensures
        name_views(r@) == canon_errors(content@),
{
    let lines = split_lines(&chars_of(content));
    let paras = extract_paragraphs(&lines);
    let ghost pv = paragraph_texts(paras@);
    let mut errors: Vec<String> = Vec::new();
    let mut expecting = false;
    let mut last: Option<Vec<char>> = None;
    let mut i: usize = 0;
    assert(name_views(errors@) =~= Seq::empty());
    while i < paras.len()
        invariant
            i <= paras@.len(),
            pv == paragraph_texts(paras@),
            pv == canon_paragraphs(lines_of(content@)),
            (CheckState {
                errors: name_views(errors@),
                expecting_quote: expecting,
                last_file: match last {
                    Some(f) => Some(f@),
                    None => None,
                },
            }) == check_after(pv, i as int),
        decreases paras@.len() - i,
    {
        assert(pv[i as int] == texts(paras@[i as int]@));
        let text = text_of_paragraph(&paras[i]);
        match paragraph_kind(&text) {
            ParagraphKind::Heading => {
                let mut a: usize = 0;
                while a < text.len() && text[a] == '#'
                    invariant
                        a <= text@.len(),
                        skip_char(text@, '#', 0) == skip_char(text@, '#', a as int),
                    decreases text@.len() - a,
                {
                    a += 1;
                }
                if a < text.len() && text[a] != ' ' {
                    report(
                        &mut errors,
                        message(i + 1, ": heading must have space after #: \"", Some(&text)),
                    );
                }
                expecting = false;
            },
            ParagraphKind::Quote => {
                let block = unquote_block(&paras[i]);
                if extract_mantras(&block).len() == 0 {
                    report(
                        &mut errors,
                        message(
                            i + 1,
                            ": quote block must contain a mantra definition (**^mantra^**): \"",
                            Some(&text),
                        ),
                    );
                }
                if last.is_none() {
                    report(
                        &mut errors,
                        message(i + 1, ": quote block must be preceded by a filename", None),
                    );
                }
                expecting = false;
                last = None;
            },
            ParagraphKind::FileName => {
                if expecting {
                    report(
                        &mut errors,
                        message(
                            i + 1,
                            ": expected a quote block (> ...) after filename, got: \"",
                            Some(&text),
                        ),
                    );
                }
                if !(seek(&text, '.', 0) < text.len() || seek(&text, '/', 0) < text.len()) {
                    report(
                        &mut errors,
                        message(
                            i + 1,
                            ": expected a filename (e.g., docs/file.md): \"",
                            Some(&text),
                        ),
                    );
                }
                expecting = true;
                last = Some(text);
            },
        }
        i += 1;
    }
    assert(pv.len() == paras@.len());
    if expecting {
        match last {
            Some(f) => {
                let mut m = chars_of("missing quote block after filename: ");
                append(&mut m, &f);
                report(&mut errors, string_of(&m));
            },
            None => {},
        }
    }
    errors
}

/// The index of the canon file to go by, among numbered ones: the first of
/// those with the highest number.
pub open spec fn is_latest(versions: Seq<(u32, Seq<char>)>, i: int) -> bool {
    &&& 0 <= i < versions.len()
    &&& forall|j: int| 0 <= j < versions.len() ==> (#[trigger] versions[j]).0 <= versions[i].0
    &&& forall|j: int| 0 <= j < i ==> (#[trigger] versions[j]).0 < versions[i].0
}

pub open spec fn version_views(v: Seq<(u32, String)>) -> Seq<(u32, Seq<char>)> {
    v.map_values(|e: (u32, String)| (e.0, e.1@))
}

/// Picks the numbered canon file to go by: the one with the highest number,
/// and of several with that number the first.
pub fn latest_version(versions: &Vec<(u32, String)>) -> (r: Option<usize>)
    ensures
        match r {
            Some(i) => is_latest(version_views(versions@), i as int),
            None => versions@.len() == 0,
        },
{
    if versions.len() == 0 {
        return None;
    }
    let ghost vv = version_views(versions@);
    let mut best: usize = 0;
    let mut j: usize = 1;
    assert(vv[0] == (versions@[0].0, versions@[0].1@));
    while j < versions.len()
        invariant
            1 <= j <= versions@.len(),
            best < j,
            vv == version_views(versions@),
            forall|k: int| 0 <= k < j ==> (#[trigger] vv[k]).0 <= vv[best as int].0,
            forall|k: int| 0 <= k < best ==> (#[trigger] vv[k]).0 < vv[best as int].0,
        decreases versions@.len() - j,
    {
        assert(vv[j as int] == (versions@[j as int].0, versions@[j as int].1@));
        assert(vv[best as int] == (versions@[best as int].0, versions@[best as int].1@));
        if versions[j].0 > versions[best].0 {
            best = j;
        }
        j += 1;
    }
    Some(best)
}

impl Canon {
    /// Reads a canon file: its text is checked, and read if it is in order.
    pub fn load(content: &str, path: &str, version: Option<u32>) -> (r: CanonSearchResult)
        ensures
            match r {
                CanonSearchResult::Found(c) => canon_errors(content@).len() == 0 && c@.entries
                    == canon_entries_of(content@) && opt_text(c.path) == Some(path@) && c.version
                    == version,
                CanonSearchResult::Invalid { path: p, errors } => canon_errors(content@).len() > 0
                    && name_views(errors@) == canon_errors(content@) && p@ == path@,
                _ => false,
            },
    {
        let errors = validate_canon_content(content);
        assert(name_views(errors@).len() == errors@.len());
        if errors.len() > 0 {
            return CanonSearchResult::Invalid { path: path.to_owned(), errors };
        }
        let mut canon = Canon::parse(content);
        canon.path = Some(path.to_owned());
        canon.version = version;
        CanonSearchResult::Found(canon)
    }
}

} // verus!
