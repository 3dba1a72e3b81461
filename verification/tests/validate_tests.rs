use vyasa::findings::{Finding, FindingKind, Rule};
use vyasa::model::{Config, Repository, ShastraConfig};
use vyasa::report::{outcome, summary, validate};
use vyasa::rules::{check_khandita, check_shastra_anusrits, check_shastra_quotes, check_undefined_anusrits};
use vyasa::followed::check_unresolved_shastra_conflicts;
use vyasa::own_rules::{check_duplicate_bhasyas, check_khandita_uddhrit_conflicts, check_unexplained};
use vyasa::validate::{Shastra, ShastraCache};

fn shastra(name: &str, text: &str) -> Repository {
    let files = vec![(format!("{}/doc.md", name), text.to_string())];
    Repository::parse(&files, Config { name: Some(name.to_string()) }, ShastraConfig { aliases: vec![] })
}

fn parent(text: &str, aliases: &[(&str, &str)]) -> Repository {
    let files = vec![("doc.md".to_string(), text.to_string())];
    let aliases = aliases.iter().map(|(a, p)| (a.to_string(), p.to_string())).collect();
    Repository::parse(&files, Config { name: Some("me".to_string()) }, ShastraConfig { aliases })
}

fn cache(entries: Vec<(&str, Shastra)>) -> ShastraCache {
    let mut c = ShastraCache::new();
    for (name, s) in entries {
        c.insert(name.to_string(), s);
    }
    c
}

fn kinds(f: &[Finding]) -> Vec<FindingKind> {
    f.iter().map(|x| x.kind).collect()
}

#[test]
fn shastra_without_name_gets_one_finding() {
    let files = vec![("doc.md".to_string(), "> **^alone^**\n_| nothing |_\n".to_string())];
    let repo = Repository::parse(&files, Config { name: None }, ShastraConfig { aliases: vec![] });
    let mut c = ShastraCache::new();
    let f = validate(&repo, &mut c);
    assert_eq!(kinds(&f), vec![FindingKind::MissingName]);
    assert_eq!(outcome(&f), Err("1 missing name".to_string()));
}

#[test]
fn clean_shastra_passes() {
    let repo = parent("> **^fire is hot^** - keep away\n\nsee _| fire is hot |_\n", &[]);
    let mut c = ShastraCache::new();
    let f = validate(&repo, &mut c);
    assert!(f.is_empty());
    assert_eq!(outcome(&f), Ok(()));
    assert_eq!(summary(&f), "");
}

#[test]
fn unexplained_mantra_is_reported() {
    let repo = parent("> **^alone^**\n", &[]);
    let f = check_unexplained(&repo);
    assert_eq!(f.len(), 1);
    assert_eq!(f[0].kind, FindingKind::Unexplained);
    assert_eq!(f[0].mantra, "alone");
    assert_eq!(f[0].file, "doc.md");
    assert_eq!(f[0].line, 1);
}

#[test]
fn duplicate_mula_bhasyas_are_reported_once_with_all_places() {
    let repo = parent("> **^a^** same text\n\nwords\n\n>   **^a^** same text  \n\n> **^a^** other text\n", &[]);
    let f = check_duplicate_bhasyas(&repo);
    assert_eq!(f.len(), 1);
    assert_eq!(f[0].kind, FindingKind::Duplicate);
    assert_eq!(f[0].mantra, "a");
    assert_eq!(f[0].places, vec![("doc.md".to_string(), 1), ("doc.md".to_string(), 5)]);
}

#[test]
fn quoted_bhasyas_are_no_duplicates() {
    let repo = parent("shastra: base\n> **^a^** same text\n\nshastra: base\n> **^a^** same text\n", &[]);
    assert!(check_duplicate_bhasyas(&repo).is_empty());
}

#[test]
fn reference_defined_nowhere_is_undefined() {
    let repo = parent("see _| ghost |_\n", &[("foo", "./foo")]);
    let c = cache(vec![("foo", Shastra::Loaded(shastra("foo", "> **^other^** text\n")))]);
    let f = check_undefined_anusrits(&repo, &c);
    assert_eq!(kinds(&f), vec![FindingKind::Undefined]);
    assert_eq!(f[0].rule, Rule::Undefined);
    assert_eq!(f[0].mantra, "ghost");
    assert_eq!(f[0].line, 1);
}

#[test]
fn reference_found_in_one_followed_shastra_is_in_order() {
    let repo = parent("see _| shared |_\n", &[("foo", "./foo"), ("bar", "../bar")]);
    let c = cache(vec![
        ("foo", Shastra::Loaded(shastra("foo", "> **^shared^** text\n"))),
        ("bar", Shastra::Loaded(shastra("bar", "> **^other^** text\n"))),
    ]);
    assert!(check_undefined_anusrits(&repo, &c).is_empty());
}

#[test]
fn reference_found_in_two_followed_shastras_is_ambiguous() {
    let repo = parent("see _| shared |_\n", &[("foo", "./foo"), ("bar", "../bar")]);
    let c = cache(vec![
        ("foo", Shastra::Loaded(shastra("foo", "> **^shared^** text\n"))),
        ("bar", Shastra::Loaded(shastra("bar", "> **^shared^** words\n"))),
    ]);
    let f = check_undefined_anusrits(&repo, &c);
    assert_eq!(kinds(&f), vec![FindingKind::Ambiguous]);
    assert_eq!(f[0].rule, Rule::Ambiguous);
    assert_eq!(f[0].names, vec!["foo".to_string(), "bar".to_string()]);
    let mut c = c;
    let all = validate(&repo, &mut c);
    assert_eq!(outcome(&all), Err("1 ambiguous anusrits".to_string()));
}

#[test]
fn alias_that_is_no_folder_is_not_searched() {
    let repo = parent("see _| shared |_\n", &[("foo", "https://example.org/foo"), ("bar", "/bar")]);
    let c = cache(vec![
        ("foo", Shastra::Loaded(shastra("foo", "> **^shared^** text\n"))),
        ("bar", Shastra::Loaded(shastra("bar", "> **^shared^** words\n"))),
    ]);
    assert!(check_undefined_anusrits(&repo, &c).is_empty());
}

#[test]
fn reference_may_match_a_template() {
    let repo = parent("> **^[user: {name}]^** - a user of the system\n\nsee _| [user: amitu] |_\n", &[]);
    let c = ShastraCache::new();
    assert!(check_undefined_anusrits(&repo, &c).is_empty());
}

#[test]
fn aliased_reference_failure_modes() {
    let text = "_| m |_@nowhere\n_| m |_@web\n_| m |_@gone\n_| m |_@broken\n_| m |_@broken\n_| absent |_@foo\n_| old |_@foo\n_| m |_@foo\n";
    let repo = parent(
        text,
        &[("web", "https://example.org"), ("gone", "./gone"), ("broken", "./broken"), ("foo", "./foo")],
    );
    let mut c = cache(vec![
        ("gone", Shastra::Missing),
        ("broken", Shastra::Unavailable),
        ("foo", Shastra::Loaded(shastra("foo", "> **^m^** text\n\ntyakta:\n> **^old^** text\n"))),
    ]);
    let f = check_shastra_anusrits(&repo, &mut c);
    assert_eq!(
        kinds(&f),
        vec![
            FindingKind::UndefinedShastra,
            FindingKind::NotAFolder,
            FindingKind::MissingFolder,
            FindingKind::Unparseable,
            FindingKind::MantraNotFound,
            FindingKind::QuotedTyakta,
        ]
    );
    assert_eq!(f[1].detail, "https://example.org");
    assert_eq!(f[3].shastra, "broken");
    assert_eq!(f[3].line, 4);
    assert_eq!(c.reported, vec!["broken".to_string()]);
    assert_eq!(summary(&f), "6 shastra anusrit errors");
}

#[test]
fn unreadable_shastra_is_named_once_over_all_rules() {
    let text = "_| m |_@broken\n\nshastra: broken\n> **^q^** text\n\nkhandita: broken\n> **^k^** text\n";
    let repo = parent(text, &[("broken", "./broken")]);
    let mut c = cache(vec![("broken", Shastra::Unavailable)]);
    let f = validate(&repo, &mut c);
    let unreadable: Vec<_> = f.iter().filter(|x| x.kind == FindingKind::Unparseable).collect();
    assert_eq!(unreadable.len(), 1);
    assert_eq!(unreadable[0].rule, Rule::ShastraAnusrits);
}

#[test]
fn quote_has_to_stand_in_the_shastra_quoted() {
    let text = "shastra: foo\n> **^m^** text\n\nshastra: foo\n> **^absent^** text\n\nshastra: foo\n> **^old^** text\n";
    let repo = parent(text, &[("foo", "./foo")]);
    let mut c = cache(vec![(
        "foo",
        Shastra::Loaded(shastra("foo", "> **^m^** text\n\ntyakta:\n> **^old^** text\n")),
    )]);
    let f = check_shastra_quotes(&repo, &mut c);
    assert_eq!(kinds(&f), vec![FindingKind::MantraNotFound, FindingKind::QuotedTyakta]);
    assert_eq!(f[0].mantra, "absent");
    assert_eq!(f[0].line, 5);
    assert_eq!(f[1].mantra, "old");
}

#[test]
fn quote_of_oneself_is_held_against_oneself() {
    let text = "> **^m^** text\n\nshastra: me\n> **^m^** text\n\nshastra: me\n> **^absent^** text\n";
    let repo = parent(text, &[]);
    let mut c = ShastraCache::new();
    let f = check_shastra_quotes(&repo, &mut c);
    assert_eq!(kinds(&f), vec![FindingKind::MantraNotFound]);
    assert_eq!(f[0].mantra, "absent");
}

#[test]
fn khandita_of_a_mantra_without_bhasya_is_rejected() {
    let repo = parent("khandita: foo\n> **^m^** is wrong\n", &[("foo", "./foo")]);
    let mut c = cache(vec![("foo", Shastra::Loaded(shastra("foo", "> **^other^** text\n")))]);
    let f = check_khandita(&repo, &mut c);
    assert_eq!(kinds(&f), vec![FindingKind::KhanditaOfNothing]);
    assert!(f[0].is_error());
    assert_eq!(outcome(&f), Err("1 khandita errors".to_string()));
}

#[test]
fn khandita_of_a_withdrawn_mantra_earns_a_note() {
    let repo = parent("khandita: foo\n> **^m^** is wrong\n", &[("foo", "./foo")]);
    let mut c = cache(vec![("foo", Shastra::Loaded(shastra("foo", "tyakta:\n> **^m^** text\n")))]);
    let f = check_khandita(&repo, &mut c);
    assert_eq!(kinds(&f), vec![FindingKind::KhanditaOfTyakta]);
    assert!(!f[0].is_error());
    assert_eq!(outcome(&f), Ok(()));
}

#[test]
fn khandita_of_a_live_mantra_is_in_order() {
    let repo = parent("khandita: foo\n> **^m^** is wrong\n", &[("foo", "./foo")]);
    let mut c = cache(vec![("foo", Shastra::Loaded(shastra("foo", "> **^m^** text\n")))]);
    assert!(check_khandita(&repo, &mut c).is_empty());
}

#[test]
fn quoting_and_refuting_the_same_is_a_conflict() {
    let text = "khandita: foo\n> **^m^** is wrong\n\nshastra: foo\n> **^m^** text\n\nshastra: bar\n> **^m^** text\n";
    let repo = parent(text, &[]);
    let f = check_khandita_uddhrit_conflicts(&repo);
    assert_eq!(kinds(&f), vec![FindingKind::Conflict]);
    assert_eq!(f[0].line, 5);
    assert_eq!(f[0].shastra, "foo");
    assert_eq!(f[0].places, vec![("doc.md".to_string(), 2)]);
}

#[test]
fn disagreement_of_followed_shastras_has_to_be_resolved() {
    let foo = shastra("foo", "shastra: base\n> **^M^** text\n");
    let bar = shastra("bar", "khandita: base\n> **^M^** is wrong\n");
    let repo = parent("nothing here\n", &[("foo", "./foo"), ("bar", "./bar")]);
    let mut c = cache(vec![("foo", Shastra::Loaded(foo)), ("bar", Shastra::Loaded(bar))]);
    let f = check_unresolved_shastra_conflicts(&repo, &c);
    assert_eq!(kinds(&f), vec![FindingKind::Unresolved]);
    assert_eq!(f[0].mantra, "M");
    assert_eq!(f[0].shastra, "base");
    assert_eq!(f[0].names, vec!["bar".to_string()]);
    assert_eq!(f[0].others, vec!["foo".to_string()]);
    let all = validate(&repo, &mut c);
    assert_eq!(outcome(&all), Err("1 unresolved shastra conflicts".to_string()));
}

#[test]
fn taking_a_side_resolves_the_disagreement() {
    let foo = shastra("foo", "shastra: base\n> **^M^** text\n");
    let bar = shastra("bar", "khandita: base\n> **^M^** is wrong\n");
    let repo = parent("khandita: base\n> **^M^** I agree with bar\n", &[("foo", "./foo"), ("bar", "./bar")]);
    let c = cache(vec![("foo", Shastra::Loaded(foo)), ("bar", Shastra::Loaded(bar))]);
    assert!(check_unresolved_shastra_conflicts(&repo, &c).is_empty());
}

#[test]
fn one_shastra_alone_does_not_disagree() {
    let foo = shastra("foo", "shastra: base\n> **^M^** text\n\nkhandita: base\n> **^M^** no\n");
    let repo = parent("nothing here\n", &[("foo", "./foo")]);
    let c = cache(vec![("foo", Shastra::Loaded(foo))]);
    assert!(check_unresolved_shastra_conflicts(&repo, &c).is_empty());
}

#[test]
fn summary_counts_errors_rule_by_rule() {
    let repo = parent("> **^a^**\n\n> **^b^**\n\n_| ghost |_\n", &[]);
    let mut c = ShastraCache::new();
    let f = validate(&repo, &mut c);
    assert_eq!(summary(&f), "2 unexplained mantras\n1 undefined anusrits");
    assert_eq!(outcome(&f), Err("2 unexplained mantras\n1 undefined anusrits".to_string()));
}

#[test]
fn first_entry_of_the_cache_stands() {
    let mut c = ShastraCache::new();
    c.insert("foo".to_string(), Shastra::Missing);
    c.insert("foo".to_string(), Shastra::Unavailable);
    assert_eq!(c.entries.len(), 1);
    assert_eq!(c.entries[0].1, Shastra::Missing);
}
