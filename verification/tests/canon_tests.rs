use vyasa::canon::{extract_canon_commentary, extract_mantras_with_kosha, Canon, CanonSearchResult};
use vyasa::canon_check::{latest_version, validate_canon_content};
use vyasa::model::{Config, Repository, ShastraConfig};
use vyasa::status::{compare_with_canon, normalize_commentary, sort_by_text, text_before, MantraStatus, MantraWithStatus};
use vyasa::text::chars_of;

const CANON: &str = "# Canon\n\ndocs/fire.md\n\n> **^fire is hot^** - keep away\n> from it\n\ndocs/water.md\n\n> **^water is wet^**@base - so they say\n";

#[test]
fn canon_is_read_paragraph_by_paragraph() {
    let canon = Canon::parse(CANON);
    assert_eq!(canon.entries.len(), 2);
    let fire = canon.get("fire is hot").expect("entry");
    assert_eq!(fire.commentary, "keep away\nfrom it");
    assert_eq!(fire.source_file, "docs/fire.md");
    assert_eq!(fire.external_kosha, None);
    let water = canon.get("water is wet").expect("entry");
    assert_eq!(water.commentary, "@base - so they say");
    assert_eq!(water.source_file, "docs/water.md");
    assert_eq!(water.external_kosha, Some("base".to_string()));
    assert!(canon.get("unknown").is_none());
    let external = canon.external_entries();
    assert_eq!(external.len(), 1);
    assert_eq!(external[0].mantra, "water is wet");
}

#[test]
fn later_entry_takes_the_place_of_an_earlier_one() {
    let canon = Canon::parse("a.md\n\n> **^m^** one\n\nb.md\n\n> **^n^** x\n\n> **^m^** two\n");
    assert_eq!(canon.entries.len(), 2);
    assert_eq!(canon.entries[0].0, "m");
    assert_eq!(canon.entries[0].1.commentary, "two");
    assert_eq!(canon.entries[0].1.source_file, "b.md");
}

#[test]
fn mantras_of_a_canon_block() {
    let found = extract_mantras_with_kosha(&chars_of("**^a^**@k1 and `**^no^**` then **^ b ^** **^^** x**^c^**@"));
    assert_eq!(
        found,
        vec![
            ("a".to_string(), Some("k1".to_string())),
            ("b".to_string(), None),
            ("c".to_string(), None),
        ]
    );
    let text: String = extract_canon_commentary(&chars_of("\n**^a^**\n - first \n\n second\n\n")).iter().collect();
    assert_eq!(text, "first\n\nsecond");
    let text: String = extract_canon_commentary(&chars_of("**^a^** - first")).iter().collect();
    assert_eq!(text, "first");
}

#[test]
fn canon_in_order_has_no_errors() {
    assert_eq!(validate_canon_content(CANON), Vec::<String>::new());
    assert_eq!(validate_canon_content(""), Vec::<String>::new());
}

#[test]
fn canon_errors_name_the_paragraph() {
    let text = "#Heading\n\n> **^m^** text\n\nnotafile\n\nb.md\n\n> no mantra here, and this quote block goes on for quite a while\n\nc.md\n";
    assert_eq!(
        validate_canon_content(text),
        vec![
            "paragraph 1: heading must have space after #: \"#Heading\"",
            "paragraph 2: quote block must be preceded by a filename",
            "paragraph 3: expected a filename (e.g., docs/file.md): \"notafile\"",
            "paragraph 4: expected a quote block (> ...) after filename, got: \"b.md\"",
            "paragraph 5: quote block must contain a mantra definition (**^mantra^**): \"> no mantra here, and this quote block g...\"",
            "missing quote block after filename: c.md",
        ]
    );
}

#[test]
fn canon_file_is_checked_before_it_is_read() {
    match Canon::load(CANON, "canon.md", None) {
        CanonSearchResult::Found(c) => {
            assert_eq!(c.path, Some("canon.md".to_string()));
            assert_eq!(c.version, None);
            assert_eq!(c.entries.len(), 2);
        }
        other => panic!("{:?}", other),
    }
    match Canon::load("> **^m^** x\n", "003.md", Some(3)) {
        CanonSearchResult::Invalid { path, errors } => {
            assert_eq!(path, "003.md");
            assert_eq!(errors, vec!["paragraph 1: quote block must be preceded by a filename"]);
        }
        other => panic!("{:?}", other),
    }
}

#[test]
fn highest_number_is_the_latest() {
    let v = |n: u32, p: &str| (n, p.to_string());
    assert_eq!(latest_version(&vec![v(1, "001.md"), v(3, "003.md"), v(2, "002.md"), v(3, "3.md")]), Some(1));
    assert_eq!(latest_version(&vec![v(0, "0.md")]), Some(0));
    assert_eq!(latest_version(&vec![]), None);
}

#[test]
fn commentary_is_compared_word_by_word() {
    let n = |t: &str| normalize_commentary(&chars_of(t)).iter().collect::<String>();
    assert_eq!(n("  keep   away\nfrom\tit "), "keep away from it");
    assert_eq!(n(""), "");
    assert_eq!(n(" \n "), "");
    assert_eq!(n("one"), "one");
}

#[test]
fn order_of_texts_is_that_of_strings() {
    let words = ["", "a", "ab", "b", "B", "a b", "\u{e9}", "z", "ab\u{0}", "aa"];
    for a in words {
        for b in words {
            assert_eq!(text_before(&chars_of(a), &chars_of(b)), a < b, "{:?} {:?}", a, b);
        }
    }
}

#[test]
fn shastra_against_its_canon() {
    let files = vec![(
        "doc.md".to_string(),
        "> **^fire is hot^** - keep   away from it\n\n> **^earth is round^** - mostly\n\n> **^air is thin^** - up there\n\nshastra: base\n> **^quoted^** - text\n".to_string(),
    )];
    let repo = Repository::parse(&files, Config { name: Some("me".to_string()) }, ShastraConfig { aliases: vec![] });
    let canon = Canon::parse(
        "doc.md\n\n> **^fire is hot^** - keep away\n> from it\n\ndoc.md\n\n> **^earth is round^** - it is flat\n\nold.md\n\n> **^water is wet^** - so they say\n",
    );
    let list = compare_with_canon(&repo, &canon);
    let seen: Vec<(&str, &MantraStatus, usize)> =
        list.iter().map(|m| (m.mantra_text.as_str(), &m.status, m.bhasyas.len())).collect();
    assert_eq!(
        seen,
        vec![
            ("air is thin", &MantraStatus::New, 1),
            ("earth is round", &MantraStatus::Changed { canon_commentary: "it is flat".to_string() }, 1),
            ("fire is hot", &MantraStatus::Accepted, 1),
            ("water is wet", &MantraStatus::OrphanedInCanon { canon_commentary: "so they say".to_string() }, 0),
        ]
    );
}

#[test]
fn sorting_keeps_equal_texts_in_their_order() {
    let item = |text: &str, status: MantraStatus| MantraWithStatus { mantra_text: text.to_string(), bhasyas: vec![], status };
    let sorted = sort_by_text(vec![
        item("b", MantraStatus::New),
        item("a", MantraStatus::Accepted),
        item("b", MantraStatus::Accepted),
        item("", MantraStatus::New),
    ]);
    let seen: Vec<(&str, &MantraStatus)> = sorted.iter().map(|m| (m.mantra_text.as_str(), &m.status)).collect();
    assert_eq!(
        seen,
        vec![("", &MantraStatus::New), ("a", &MantraStatus::Accepted), ("b", &MantraStatus::New), ("b", &MantraStatus::Accepted)]
    );
}
