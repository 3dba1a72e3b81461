//! The whole validation: every rule in turn, and the result in one line for
//! each rule that was broken.

use crate::findings::{
    any_error, count_errors, errors_under, Finding, finding_views, FindingKind, FindingView,
    has_errors, plain_finding, Rule,
};
use crate::followed::{check_unresolved_shastra_conflicts, unresolved_findings};
use crate::model::{Repository, RepositoryView};
use crate::own_rules::{
    check_duplicate_bhasyas, check_khandita_uddhrit_conflicts, check_unexplained,
    conflict_findings, duplicate_findings, unexplained_findings,
};
use crate::rules::{
    check_khandita, check_shastra_anusrits, check_shastra_quotes, check_undefined_anusrits,
    khandita_findings, shastra_anusrit_findings, shastra_quote_findings, undefined_findings,
};
use crate::text::{append, chars_of, decimal, digits, join, joined, string_of, texts};
use crate::validate::{Acc, CacheView, ShastraCache};
use vstd::prelude::*;

verus! {

/// The finding on a shastra without a name.
pub open spec fn missing_name() -> FindingView {
    plain_finding(
        Rule::Name,
        FindingKind::MissingName,
        Seq::empty(),
        0,
        Seq::empty(),
        Seq::empty(),
        Seq::empty(),
    )
}

/// All that the validator finds. A shastra without a name gets that one
/// finding and no other. Else every rule is run, none stops another, and
/// the findings stand rule by rule; the three rules that ask a followed
/// shastra for a mantra share the memory of which unreadable shastras were
/// named.
pub open spec fn all_findings(rv: RepositoryView, cv: CacheView) -> Acc {
    if rv.name.is_none() {
        Acc { findings: seq![missing_name()], reported: cv.reported }
    } else {
        let a = shastra_anusrit_findings(rv, cv.entries, cv.reported);
        let q = shastra_quote_findings(rv, cv.entries, a.reported);
        let k = khandita_findings(rv, cv.entries, q.reported);
        Acc {
            findings: unexplained_findings(rv) + duplicate_findings(rv) + undefined_findings(
                rv,
                cv.entries,
            ) + a.findings + q.findings + k.findings + conflict_findings(rv) + unresolved_findings(
                rv,
                cv.entries,
            ),
            reported: k.reported,
        }
    }
}

/// Puts the findings `more` behind those in `out`.
fn add_all(out: &mut Vec<Finding>, more: Vec<Finding>)
    ensures
        finding_views(final(out)@) == finding_views(old(out)@) + finding_views(more@),
{
    let mut more = more;
    let ghost added = more@;
    out.append(&mut more);
    assert(finding_views(out@) =~= finding_views(old(out)@) + finding_views(added));
}

/// Runs every rule on the repository, with the followed shastras that the
/// cache holds.
pub fn validate(repo: &Repository, cache: &mut ShastraCache) -> (r: Vec<Finding>)
    ensures
        final(cache)@.entries == old(cache)@.entries,
        (Acc { findings: finding_views(r@), reported: final(cache)@.reported }) == all_findings(
            repo@,
            old(cache)@,
        ),
{
    let mut out: Vec<Finding> = Vec::new();
    if repo.config.name.is_none() {
        let empty = String::new();
        let f = Finding::plain(
            Rule::Name,
            FindingKind::MissingName,
            &empty,
            0,
            &empty,
            &empty,
            &empty,
        );
        let ghost fv = f@;
        out.push(f);
        assert(finding_views(out@) =~= seq![fv]);
        return out;
    }
    assert(finding_views(out@) =~= Seq::empty());
    add_all(&mut out, check_unexplained(repo));
    add_all(&mut out, check_duplicate_bhasyas(repo));
    add_all(&mut out, check_undefined_anusrits(repo, cache));
    let a = check_shastra_anusrits(repo, cache);
    add_all(&mut out, a);
    let q = check_shastra_quotes(repo, cache);
    add_all(&mut out, q);
    let k = check_khandita(repo, cache);
    add_all(&mut out, k);
    add_all(&mut out, check_khandita_uddhrit_conflicts(repo));
    add_all(&mut out, check_unresolved_shastra_conflicts(repo, cache));
    assert(finding_views(out@) =~= all_findings(repo@, old(cache)@).findings);
    out
}

/// What a rule is called in the summary.
pub open spec fn label(rule: Rule) -> Seq<char> {
    match rule {
        Rule::Name => "missing name"@,
        Rule::Unexplained => "unexplained mantras"@,
        Rule::Duplicates => "duplicate bhasyas"@,
        Rule::Undefined => "undefined anusrits"@,
        Rule::Ambiguous => "ambiguous anusrits"@,
        Rule::ShastraAnusrits => "shastra anusrit errors"@,
        Rule::ShastraQuotes => "shastra quote errors"@,
        Rule::Khandita => "khandita errors"@,
        Rule::Conflicts => "khandita/uddhrit conflicts"@,
        Rule::Unresolved => "unresolved shastra conflicts"@,
    }
}

/// `lines` with the line of a rule behind them, if the rule was broken: the
/// number of its errors, a space and what the rule is called.
pub open spec fn with_line(lines: Seq<Seq<char>>, f: Seq<FindingView>, rule: Rule) -> Seq<Seq<char>> {
    let count = errors_under(f, rule, f.len() as int);
    if count == 0 {
        lines
    } else {
        lines.push(digits(count) + " "@ + label(rule))
    }
}

/// The lines of the summary: one for each rule that was broken, in the
/// order of the rules.
pub open spec fn summary_lines(f: Seq<FindingView>) -> Seq<Seq<char>> {
    with_line(
        with_line(
            with_line(
                with_line(
                    with_line(
                        with_line(
                            with_line(
                                with_line(
                                    with_line(
                                        with_line(Seq::empty(), f, Rule::Name),
                                        f,
                                        Rule::Unexplained,
                                    ),
                                    f,
                                    Rule::Duplicates,
                                ),
                                f,
                                Rule::Undefined,
                            ),
                            f,
                            Rule::Ambiguous,
                        ),
                        f,
                        Rule::ShastraAnusrits,
                    ),
                    f,
                    Rule::ShastraQuotes,
                ),
                f,
                Rule::Khandita,
            ),
            f,
            Rule::Conflicts,
        ),
        f,
        Rule::Unresolved,
    )
}

/// The summary: its lines, joined by line feeds.
pub open spec fn summary_of(f: Seq<FindingView>) -> Seq<char> {
    joined(summary_lines(f), "\n"@)
}

/// What a rule is called in the summary.
pub fn rule_label(rule: Rule) -> (r: Vec<char>)
    ensures
        r@ == label(rule),
{
    match rule {
        Rule::Name => chars_of("missing name"),
        Rule::Unexplained => chars_of("unexplained mantras"),
        Rule::Duplicates => chars_of("duplicate bhasyas"),
        Rule::Undefined => chars_of("undefined anusrits"),
        Rule::Ambiguous => chars_of("ambiguous anusrits"),
        Rule::ShastraAnusrits => chars_of("shastra anusrit errors"),
        Rule::ShastraQuotes => chars_of("shastra quote errors"),
        Rule::Khandita => chars_of("khandita errors"),
        Rule::Conflicts => chars_of("khandita/uddhrit conflicts"),
        Rule::Unresolved => chars_of("unresolved shastra conflicts"),
    }
}

/// Puts the line of a rule behind `lines`, if the rule was broken.
fn add_line(lines: &mut Vec<Vec<char>>, findings: &Vec<Finding>, rule: Rule)
    ensures
        texts(final(lines)@) == with_line(texts(old(lines)@), finding_views(findings@), rule),
{
    let count = count_errors(findings, rule);
    assert(finding_views(findings@).len() == findings@.len());
    if count > 0 {
        let mut line = decimal(count);
        append(&mut line, &chars_of(" "));
        append(&mut line, &rule_label(rule));
        let ghost lv = line@;
        let ghost before = texts(lines@);
        lines.push(line);
        assert(texts(lines@) =~= before.push(lv));
    }
}

/// The summary of the findings: a line for each rule that was broken.
pub fn summary(findings: &Vec<Finding>) -> (r: String)
    ensures
        r@ == summary_of(finding_views(findings@)),
{
    let mut lines: Vec<Vec<char>> = Vec::new();
    assert(texts(lines@) =~= Seq::empty());
    add_line(&mut lines, findings, Rule::Name);
    add_line(&mut lines, findings, Rule::Unexplained);
    add_line(&mut lines, findings, Rule::Duplicates);
    add_line(&mut lines, findings, Rule::Undefined);
    add_line(&mut lines, findings, Rule::Ambiguous);
    add_line(&mut lines, findings, Rule::ShastraAnusrits);
    add_line(&mut lines, findings, Rule::ShastraQuotes);
    add_line(&mut lines, findings, Rule::Khandita);
    add_line(&mut lines, findings, Rule::Conflicts);
    add_line(&mut lines, findings, Rule::Unresolved);
    let feed = chars_of("\n");
    string_of(&join(&lines, &feed))
}

/// The result of a validation: it fails if and only if one of the findings
/// is an error, and then it carries the summary.
pub fn outcome(findings: &Vec<Finding>) -> (r: Result<(), String>)
    ensures
        r.is_err() == any_error(finding_views(findings@)),
        match r {
            Err(s) => s@ == summary_of(finding_views(findings@)),
            Ok(_) => true,
        },
{
    if has_errors(findings) {
        Err(summary(findings))
    } else {
        Ok(())
    }
}

} // verus!
