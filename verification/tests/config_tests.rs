use vyasa::config::{aliases_from, config_from, load_config, load_shastra_config, merge_aliases};
use vyasa::files::{find_repo_root, is_skipped_extension, should_skip_file};
use vyasa::model::{Config, Repository, ShastraConfig};
use vyasa::values::{select_values, strip_brackets, PlaceholderValue};

fn pairs(v: &[(&str, &str)]) -> Vec<(String, String)> {
    v.iter().map(|(a, b)| (a.to_string(), b.to_string())).collect()
}

#[test]
fn name_is_read_from_the_configuration() {
    assert_eq!(load_config("{ \"name\": \"me\" }").name, Some("me".to_string()));
    assert_eq!(load_config("{ \"other\": 1, \"name\": \"x y\" }").name, Some("x y".to_string()));
    assert_eq!(load_config("{ \"name\": 7 }").name, None);
    assert_eq!(load_config("{ \"title\": \"me\" }").name, None);
    assert_eq!(load_config("[\"name\"]").name, None);
    assert_eq!(load_config("not json").name, None);
    assert_eq!(load_config("").name, None);
}

#[test]
fn name_among_members() {
    let members = vec![("a".to_string(), None), ("name".to_string(), Some("n".to_string()))];
    assert_eq!(config_from(&members), Config { name: Some("n".to_string()) });
    assert_eq!(config_from(&vec![]), Config { name: None });
}

#[test]
fn aliases_want_text_throughout() {
    let good = vec![("a".to_string(), Some("./a".to_string())), ("b".to_string(), Some("/b".to_string()))];
    assert_eq!(aliases_from(&good), Some(pairs(&[("a", "./a"), ("b", "/b")])));
    let bad = vec![("a".to_string(), Some("./a".to_string())), ("b".to_string(), None)];
    assert_eq!(aliases_from(&bad), None);
}

#[test]
fn local_alias_wins() {
    let merged = merge_aliases(pairs(&[("a", "./a"), ("b", "./b")]), &pairs(&[("b", "/local/b"), ("c", "./c")]));
    assert_eq!(merged.aliases, pairs(&[("a", "./a"), ("b", "/local/b"), ("c", "./c")]));
}

#[test]
fn alias_files_are_merged() {
    let shared = "{ \"foo\": \"./foo\", \"bar\": \"./bar\" }";
    let local = "{ \"foo\": \"/home/me/foo\" }";
    let both = load_shastra_config(Some(shared), Some(local));
    assert_eq!(both.aliases, pairs(&[("bar", "./bar"), ("foo", "/home/me/foo")]));
    assert_eq!(load_shastra_config(Some(shared), None).aliases, pairs(&[("bar", "./bar"), ("foo", "./foo")]));
    assert_eq!(load_shastra_config(None, Some(local)).aliases, pairs(&[("foo", "/home/me/foo")]));
    assert_eq!(load_shastra_config(None, None), ShastraConfig { aliases: vec![] });
    assert_eq!(load_shastra_config(Some("{ \"foo\": 1 }"), Some("broken")).aliases, vec![]);
}

#[test]
fn files_that_are_left_out() {
    assert!(should_skip_file("png"));
    assert!(should_skip_file("PNG"));
    assert!(should_skip_file("Lock"));
    assert!(should_skip_file("woff2"));
    assert!(should_skip_file("7z"));
    assert!(!should_skip_file("md"));
    assert!(!should_skip_file("rs"));
    assert!(!should_skip_file(""));
    assert!(is_skipped_extension("pdf"));
    assert!(!is_skipped_extension("PDF"));
}

#[test]
fn root_is_the_nearest_marked_folder() {
    let chain = vec![
        ("/a/b/c".to_string(), false),
        ("/a/b".to_string(), true),
        ("/a".to_string(), true),
        ("/".to_string(), false),
    ];
    assert_eq!(find_repo_root(&chain), Some("/a/b".to_string()));
    assert_eq!(find_repo_root(&vec![("/x".to_string(), false)]), None);
    assert_eq!(find_repo_root(&vec![]), None);
}

fn shastra(text: &str) -> Repository {
    let files = vec![("doc.md".to_string(), text.to_string())];
    Repository::parse(&files, Config { name: Some("me".to_string()) }, ShastraConfig { aliases: vec![] })
}

#[test]
fn references_give_values_to_the_first_template() {
    let repo = shastra(
        "> **^[user: {name}]^** - a user\n\n> **^[{kind}: {name}]^** - anything\n\n_| [user: amitu] |_\n_| [team: core] |_\n_| plain |_\n",
    );
    let values = repo.extract_placeholder_values();
    let value = |template: &str, key: &str, value: &str, line: usize| PlaceholderValue {
        template: template.to_string(),
        key: key.to_string(),
        value: value.to_string(),
        file: "doc.md".to_string(),
        line,
    };
    assert_eq!(
        values,
        vec![
            value("[user: {name}]", "name", "amitu", 5),
            value("[{kind}: {name}]", "kind", "team", 6),
            value("[{kind}: {name}]", "name", "core", 6),
        ]
    );
    assert_eq!(select_values(&values, Some(" [[user: {name}]] "), None), vec![value("[user: {name}]", "name", "amitu", 5)]);
    assert_eq!(select_values(&values, None, Some("name")).len(), 2);
    assert_eq!(select_values(&values, Some("[{kind}: {name}]"), Some("kind")), vec![]);
    assert_eq!(select_values(&values, Some("{kind}: {name}"), Some("kind")), vec![]);
    assert_eq!(select_values(&values, None, None), values);
}

#[test]
fn filter_loses_its_brackets() {
    let plain = |f: &str| strip_brackets(f).iter().collect::<String>();
    assert_eq!(plain(" [x] "), "x");
    assert_eq!(plain("[x"), "[x");
    assert_eq!(plain("[]"), "");
    assert_eq!(plain("["), "[");
    assert_eq!(plain("x"), "x");
}

#[test]
fn reference_means_the_first_mantra_that_answers() {
    let repo = shastra("> **^[{a}]^** - x\n\n> **^[b]^** - y\n\n> **^c^** - z\n");
    assert_eq!(repo.resolve("[b]"), Some(0));
    assert_eq!(repo.resolve("c"), Some(2));
    assert_eq!(repo.resolve("d"), None);
}
