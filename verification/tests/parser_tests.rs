use vyasa::model::{BhasyaKind, Config, Repository, ShastraConfig};
use vyasa::parser::parse_file;
use vyasa::segment::{extract_paragraphs, mark_excluded, Directive};
use vyasa::text::{chars_of, split_lines};

fn parsed(text: &str) -> Repository {
    let mut repo = Repository::new();
    parse_file(text, "doc.md", &mut repo);
    repo
}

fn entry<'a>(repo: &'a Repository, text: &str) -> &'a vyasa::model::MantraInfo {
    &repo.mantras.iter().find(|e| e.0 == text).expect("mantra").1
}

#[test]
fn mula_bhasya_defines_and_explains() {
    let repo = parsed("intro\n\n> **^fire is hot^** - so do not touch it\n> and keep away\n");
    assert_eq!(repo.bhasyas.len(), 1);
    assert_eq!(repo.bhasyas[0].kind, BhasyaKind::Mula);
    assert_eq!(repo.bhasyas[0].line, 3);
    assert_eq!(repo.bhasyas[0].file, "doc.md");
    assert_eq!(repo.bhasyas[0].paragraph, "**^fire is hot^** - so do not touch it\nand keep away");
    let info = entry(&repo, "fire is hot");
    assert!(info.has_explanation);
    assert_eq!(info.mula_bhasyas, vec![0]);
    assert_eq!(info.file, "doc.md");
    assert_eq!(info.line, 3);
    assert!(repo.anusrits.is_empty());
}

#[test]
fn marker_without_commentary_is_unexplained() {
    let repo = parsed("> **^alone^**\n");
    let info = entry(&repo, "alone");
    assert!(!info.has_explanation);
    assert_eq!(info.mula_bhasyas, vec![0]);
}

#[test]
fn directives_set_the_kind() {
    let repo = parsed(
        "shastra: base\n> **^a^** one\n\nkhandita: base\n> **^b^** two\n\ntyakta:\n> **^c^** three\n",
    );
    assert_eq!(repo.bhasyas.len(), 3);
    assert_eq!(repo.bhasyas[0].kind, BhasyaKind::Uddhrit("base".to_string()));
    assert_eq!(repo.bhasyas[1].kind, BhasyaKind::Khandita("base".to_string()));
    assert_eq!(repo.bhasyas[2].kind, BhasyaKind::Tyakta);
    assert!(entry(&repo, "a").mula_bhasyas.is_empty());
    assert!(!entry(&repo, "a").has_explanation);
    assert_eq!(entry(&repo, "a").line, 2);
}

#[test]
fn tyakta_before_blank_line_does_not_reach_later_block() {
    let repo = parsed("tyakta:\n\n> **^kept^** still good\n");
    assert_eq!(repo.bhasyas.len(), 1);
    assert_eq!(repo.bhasyas[0].kind, BhasyaKind::Mula);
    assert!(entry(&repo, "kept").has_explanation);
}

#[test]
fn directive_is_dropped_by_plain_line() {
    let repo = parsed("shastra: base\nsome words\n> **^m^** text\n");
    assert_eq!(repo.bhasyas[0].kind, BhasyaKind::Mula);
}

#[test]
fn references_outside_bhasyas_become_anusrits() {
    let repo = parsed("see _| fire is hot |_ and _|water|_@base-2 but not `_| code |_`\n");
    assert_eq!(repo.anusrits.len(), 2);
    assert_eq!(repo.anusrits[0].mantra_text, "fire is hot");
    assert_eq!(repo.anusrits[0].shastra, None);
    assert_eq!(repo.anusrits[0].line, 1);
    assert_eq!(repo.anusrits[1].mantra_text, "water");
    assert_eq!(repo.anusrits[1].shastra, Some("base-2".to_string()));
}

#[test]
fn reference_inside_bhasya_goes_to_the_mantra() {
    let repo = parsed("> **^a^** builds on _| b |_\n");
    assert!(repo.anusrits.is_empty());
    assert_eq!(entry(&repo, "b").anusrit_bhasyas, vec![0]);
    assert!(entry(&repo, "b").mula_bhasyas.is_empty());
}

#[test]
fn fenced_code_is_left_out() {
    let repo = parsed("```\n> **^hidden^** text\n_| x |_\n```\n> **^seen^** text\n");
    assert_eq!(repo.mantras.len(), 1);
    assert_eq!(repo.mantras[0].0, "seen");
    assert!(repo.anusrits.is_empty());
}

#[test]
fn quote_blocks_behind_comment_prefixes() {
    let text = "// > **^in rust^** said here\n// > more\n# > **^in shell^** other\n";
    let repo = parsed(text);
    assert_eq!(repo.bhasyas.len(), 2);
    assert_eq!(repo.bhasyas[0].paragraph, "**^in rust^** said here\nmore");
    assert_eq!(repo.bhasyas[1].paragraph, "**^in shell^** other");
    assert_eq!(repo.bhasyas[1].line, 3);
}

#[test]
fn marker_in_mid_line_defines_nothing() {
    let repo = parsed("> text **^late^** more\n");
    assert!(repo.bhasyas.is_empty());
    assert!(repo.mantras.is_empty());
}

#[test]
fn segmenter_keeps_directive_lines_out() {
    let lines = split_lines(&chars_of("a\nshastra: x\n> q\n\nb"));
    let skip = mark_excluded(&lines);
    let paras = extract_paragraphs(&lines, &skip);
    assert_eq!(paras.len(), 3);
    assert_eq!(paras[0].lines.len(), 1);
    assert_eq!(paras[0].directive, None);
    assert_eq!(paras[1].lines[0].number, 3);
    assert_eq!(paras[1].directive, Some(Directive::Shastra(chars_of("x"))));
    assert_eq!(paras[2].lines[0].number, 5);
}

#[test]
fn parsing_twice_gives_the_same() {
    let files = vec![
        ("a.md".to_string(), "> **^one^** first\n\n_| one |_ and _| two |_\n".to_string()),
        ("b.md".to_string(), "tyakta:\n> **^two^** second\n".to_string()),
    ];
    let first = Repository::parse(&files, Config { name: Some("me".to_string()) }, ShastraConfig { aliases: vec![] });
    let second = Repository::parse(&files, Config { name: Some("me".to_string()) }, ShastraConfig { aliases: vec![] });
    assert_eq!(first, second);
    assert_eq!(first.mantras.len(), 2);
    assert_eq!(first.bhasyas.len(), 2);
    assert_eq!(first.anusrits.len(), 2);
}
