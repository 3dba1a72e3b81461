//! What the validator reports: findings, each under the rule that made it.

use vstd::prelude::*;

verus! {

/// The rules of the validator, in the order in which they are run.
#[derive(Debug, Clone, Copy, PartialEq, Eq, Structural)]
pub enum Rule {
    /// The shastra declares its name.
    Name,
    /// Every mantra is explained.
    Unexplained,
    /// No mula bhasya stands twice.
    Duplicates,
    /// A reference without alias means a mantra that is defined somewhere.
    Undefined,
    /// A reference without alias means a mantra of one shastra only.
    Ambiguous,
    /// A reference with an alias means a mantra of that shastra.
    ShastraAnusrits,
    /// A quoted bhasya stands in the shastra it is quoted from.
    ShastraQuotes,
    /// A refuted bhasya stands in the shastra it is refuted in.
    Khandita,
    /// No bhasya is both quoted and refuted.
    Conflicts,
    /// Where followed shastras disagree, this one takes a side.
    Unresolved,
}

/// What a finding says.
#[derive(Debug, Clone, Copy, PartialEq, Eq, Structural)]
pub enum FindingKind {
    /// The configuration declares no name.
    MissingName,
    /// The mantra has no mula bhasya with a commentary.
    Unexplained,
    /// Two or more mula bhasyas hold the same mantra in the same paragraph.
    Duplicate,
    /// The reference means no mantra, here or in a followed shastra.
    Undefined,
    /// The reference means mantras of two or more followed shastras.
    Ambiguous,
    /// The alias is not configured.
    UndefinedShastra,
    /// The alias stands for something that is no local folder.
    NotAFolder,
    /// The folder that the alias stands for is not there.
    MissingFolder,
    /// The shastra behind the alias could not be read.
    Unparseable,
    /// The shastra holds no such mantra.
    MantraNotFound,
    /// The shastra holds the mantra in no mula bhasya, only withdrawn.
    QuotedTyakta,
    /// The refuted mantra has no bhasya at all in the shastra named.
    KhanditaOfNothing,
    /// The refuted mantra is withdrawn in the shastra named. A note.
    KhanditaOfTyakta,
    /// The mantra is quoted from a shastra and refuted in it.
    Conflict,
    /// Followed shastras disagree on a mantra and this one takes no side.
    Unresolved,
}

/// A finding. The fields that a kind has no use for are empty.
#[derive(Debug, PartialEq, Eq)]
pub struct Finding {
    pub rule: Rule,
    pub kind: FindingKind,
    /// Where the offending mantra, bhasya or reference stands.
    pub file: String,
    pub line: usize,
    pub mantra: String,
    /// The shastra concerned, by alias.
    pub shastra: String,
    /// The path of the alias, or, of a duplicate, the paragraph.
    pub detail: String,
    /// The shastras that hold the mantra (ambiguous), or that refute it
    /// (unresolved).
    pub names: Vec<String>,
    /// The shastras that quote the mantra (unresolved).
    pub others: Vec<String>,
    /// All the places of a duplicate, or the place of the refutation that a
    /// quote is in conflict with.
    pub places: Vec<(String, usize)>,
}

pub struct FindingView {
    pub rule: Rule,
    pub kind: FindingKind,
    pub file: Seq<char>,
    pub line: usize,
    pub mantra: Seq<char>,
    pub shastra: Seq<char>,
    pub detail: Seq<char>,
    pub names: Seq<Seq<char>>,
    pub others: Seq<Seq<char>>,
    pub places: Seq<(Seq<char>, usize)>,
}

pub open spec fn name_views(v: Seq<String>) -> Seq<Seq<char>> {
    v.map_values(|s: String| s@)
}

pub open spec fn place_views(v: Seq<(String, usize)>) -> Seq<(Seq<char>, usize)> {
    v.map_values(|p: (String, usize)| (p.0@, p.1))
}

impl View for Finding {
    type V = FindingView;

    open spec fn view(&self) -> FindingView {
        FindingView {
            rule: self.rule,
            kind: self.kind,
            file: self.file@,
            line: self.line,
            mantra: self.mantra@,
            shastra: self.shastra@,
            detail: self.detail@,
            names: name_views(self.names@),
            others: name_views(self.others@),
            places: place_views(self.places@),
        }
    }
}

pub open spec fn finding_views(v: Seq<Finding>) -> Seq<FindingView> {
    v.map_values(|f: Finding| f@)
}

/// A finding without lists.
pub open spec fn plain_finding(
    rule: Rule,
    kind: FindingKind,
    file: Seq<char>,
    line: usize,
    mantra: Seq<char>,
    shastra: Seq<char>,
    detail: Seq<char>,
) -> FindingView {
    FindingView {
        rule,
        kind,
        file,
        line,
        mantra,
        shastra,
        detail,
        names: Seq::empty(),
        others: Seq::empty(),
        places: Seq::empty(),
    }
}

/// Whether a finding of this kind is an error. All are but one, which is a
/// note.
pub open spec fn is_error(kind: FindingKind) -> bool {
    kind != FindingKind::KhanditaOfTyakta
}

impl Finding {
    /// A finding without lists.
    pub fn plain(
        rule: Rule,
        kind: FindingKind,
        file: &String,
        line: usize,
        mantra: &String,
        shastra: &String,
        detail: &String,
    ) -> (f: Finding)
        ensures
            f@ == plain_finding(rule, kind, file@, line, mantra@, shastra@, detail@),
    {
        let f = Finding {
            rule,
            kind,
            file: file.clone(),
            line,
            mantra: mantra.clone(),
            shastra: shastra.clone(),
            detail: detail.clone(),
            names: Vec::new(),
            others: Vec::new(),
            places: Vec::new(),
        };
        assert(f@.names =~= Seq::empty());
        assert(f@.others =~= Seq::empty());
        assert(f@.places =~= Seq::empty());
        f
    }

    /// Whether the finding is an error and not a note.
    pub fn is_error(&self) -> (r: bool)
        ensures
            r == is_error(self.kind),
    {
        self.kind != FindingKind::KhanditaOfTyakta
    }
}

/// Whether one of the findings is an error.
pub open spec fn any_error(f: Seq<FindingView>) -> bool {
    exists|i: int| 0 <= i < f.len() && is_error(#[trigger] f[i].kind)
}

/// How many of the first `n` findings are errors under `rule`.
pub open spec fn errors_under(f: Seq<FindingView>, rule: Rule, n: int) -> nat
    decreases n,
{
    if n <= 0 {
        0
    } else if f[n - 1].rule == rule && is_error(f[n - 1].kind) {
        errors_under(f, rule, n - 1) + 1
    } else {
        errors_under(f, rule, n - 1)
    }
}

/// Counts the errors under a rule.
pub fn count_errors(findings: &Vec<Finding>, rule: Rule) -> (r: usize)
    ensures
        r == errors_under(finding_views(findings@), rule, findings@.len() as int),
{
    let mut r: usize = 0;
    let mut i: usize = 0;
    while i < findings.len()
        invariant
            i <= findings@.len(),
            r <= i,
            r == errors_under(finding_views(findings@), rule, i as int),
        decreases findings@.len() - i,
    {
        assert(finding_views(findings@)[i as int] == findings@[i as int]@);
        if findings[i].rule == rule && findings[i].is_error() {
            r += 1;
        }
        i += 1;
    }
    r
}

/// Whether one of the findings is an error: then the validation fails.
pub fn has_errors(findings: &Vec<Finding>) -> (r: bool)
    ensures
        r == any_error(finding_views(findings@)),
{
    let mut i: usize = 0;
    while i < findings.len()
        invariant
            i <= findings@.len(),
            forall|k: int| 0 <= k < i ==> !is_error(#[trigger] finding_views(findings@)[k].kind),
        decreases findings@.len() - i,
    {
        assert(finding_views(findings@)[i as int] == findings@[i as int]@);
        if findings[i].is_error() {
            assert(is_error(finding_views(findings@)[i as int].kind));
            return true;
        }
        i += 1;
    }
    false
}

} // verus!
