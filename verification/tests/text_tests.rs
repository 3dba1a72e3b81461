use vyasa::scan::{commentary, find_references, subjects, Reference};
use vyasa::segment::{is_fence_line, line_content, parse_directive, strip_comment_prefix, Directive};
use vyasa::text::{chars_of, decimal, join, split_lines, trim, trim_end, trim_start, truncate};

fn s(v: &[char]) -> String {
    v.iter().collect()
}

fn lines(text: &str) -> Vec<String> {
    split_lines(&chars_of(text)).iter().map(|l| s(l)).collect()
}

#[test]
fn lines_end_at_line_feeds() {
    assert_eq!(lines("a\nb\n"), vec!["a", "b"]);
    assert_eq!(lines("a\nb"), vec!["a", "b"]);
    assert_eq!(lines("a\n\nb"), vec!["a", "", "b"]);
    assert_eq!(lines(""), Vec::<String>::new());
    assert_eq!(lines("\n"), vec![""]);
}

#[test]
fn carriage_return_goes_with_the_line_feed_only() {
    assert_eq!(lines("foo\r\nbar\n\r\nbaz\r"), vec!["foo", "bar", "", "baz\r"]);
    assert_eq!(lines("a\r\r\nb"), vec!["a\r", "b"]);
    assert_eq!(lines("a\rb\n"), vec!["a\rb"]);
}

#[test]
fn lines_agree_with_std() {
    for text in ["", "\n", "a", "a\n", "\r\n", "x\r\n\r\ny", "\n\n", "q\r", "ab\ncd\r\n\nef\r\n"] {
        let std_lines: Vec<String> = text.lines().map(|l| l.to_string()).collect();
        assert_eq!(lines(text), std_lines, "{:?}", text);
    }
}

#[test]
fn trimming_agrees_with_std() {
    for text in ["", " ", "  a b  ", "\t\u{a0}x\u{3000}\n", "\u{2003}y", "z\u{85}", "\u{200b}w "] {
        let t = chars_of(text);
        assert_eq!(s(&trim(&t)), text.trim());
        assert_eq!(s(&trim_start(&t)), text.trim_start());
        assert_eq!(s(&trim_end(&t)), text.trim_end());
    }
    for c in (0u32..0x3100).filter_map(char::from_u32) {
        assert_eq!(vyasa::text::is_space_char(c), c.is_whitespace(), "{:?}", c);
    }
}

#[test]
fn join_puts_the_separator_between() {
    let parts = vec![chars_of("a"), chars_of(""), chars_of("b")];
    assert_eq!(s(&join(&parts, &chars_of(", "))), "a, , b");
    assert_eq!(s(&join(&vec![], &chars_of(", "))), "");
    assert_eq!(s(&join(&vec![chars_of("x")], &chars_of(", "))), "x");
}

#[test]
fn numbers_in_decimal() {
    assert_eq!(s(&decimal(0)), "0");
    assert_eq!(s(&decimal(7)), "7");
    assert_eq!(s(&decimal(10)), "10");
    assert_eq!(s(&decimal(40961)), "40961");
    assert_eq!(s(&decimal(usize::MAX)), usize::MAX.to_string());
}

#[test]
fn truncate_keeps_the_first_line() {
    assert_eq!(s(&truncate(&chars_of("short"), 10)), "short");
    assert_eq!(s(&truncate(&chars_of("a long line"), 6)), "a long...");
    assert_eq!(s(&truncate(&chars_of("one\ntwo"), 10)), "one...");
    assert_eq!(s(&truncate(&chars_of("exactly"), 7)), "exactly");
    assert_eq!(s(&truncate(&chars_of(""), 3)), "");
}

#[test]
fn comment_prefixes_in_their_order() {
    let cut = |text: &str| strip_comment_prefix(&chars_of(text)).map(|p| (s(&p.0), s(&p.1)));
    assert_eq!(cut("  // > x"), Some((" > x".to_string(), "  //".to_string())));
    assert_eq!(cut("# y"), Some((" y".to_string(), "#".to_string())));
    assert_eq!(cut("-- z"), Some((" z".to_string(), "--".to_string())));
    assert_eq!(cut("; z"), Some((" z".to_string(), ";".to_string())));
    assert_eq!(cut("%z"), Some(("z".to_string(), "%".to_string())));
    assert_eq!(cut("- z"), None);
    assert_eq!(cut("/ z"), None);
    assert_eq!(s(&line_content(&chars_of("   #   > q"))), "> q");
}

#[test]
fn directives_are_spelled_exactly() {
    let d = |text: &str| parse_directive(&chars_of(text));
    assert_eq!(d("shastra: base"), Some(Directive::Shastra(chars_of("base"))));
    assert_eq!(d("shastra:base  "), Some(Directive::Shastra(chars_of("base"))));
    assert_eq!(d("khandita:  other one"), Some(Directive::Khandita(chars_of("other one"))));
    assert_eq!(d("tyakta:"), Some(Directive::Tyakta));
    assert_eq!(d("tyakta:  "), Some(Directive::Tyakta));
    assert_eq!(d("tyakta: because"), None);
    assert_eq!(d("shastra:"), None);
    assert_eq!(d("shastra:   "), None);
    assert_eq!(d("Shastra: base"), None);
    assert_eq!(d("the shastra: base"), None);
}

#[test]
fn fence_lines() {
    assert!(is_fence_line(&chars_of("```")));
    assert!(is_fence_line(&chars_of("   ```rust")));
    assert!(!is_fence_line(&chars_of("`` `")));
    assert!(!is_fence_line(&chars_of("x ```")));
}

fn reference(text: &str, shastra: Option<&str>) -> Reference {
    Reference { text: chars_of(text), shastra: shastra.map(chars_of) }
}

#[test]
fn references_in_a_line() {
    let find = |text: &str, markers: bool| find_references(&chars_of(text), markers);
    assert_eq!(find("a _| one |_ b _|two|_", false), vec![reference("one", None), reference("two", None)]);
    assert_eq!(find("_| open to the end", false), vec![reference("open to the end", None)]);
    assert_eq!(find("_|  |_ and _||_", false), vec![]);
    assert_eq!(find("`_| code |_` _| text |_", false), vec![reference("text", None)]);
    assert_eq!(find("_| a | b |_", false), vec![reference("a | b", None)]);
}

#[test]
fn alias_runs_as_far_as_its_characters_go() {
    let find = |text: &str| find_references(&chars_of(text), false);
    assert_eq!(find("_| m |_@foo bar"), vec![reference("m", Some("foo"))]);
    assert_eq!(find("_| m |_@foo-bar_2."), vec![reference("m", Some("foo-bar_2"))]);
    assert_eq!(find("_| m |_@ foo"), vec![reference("m", None)]);
    assert_eq!(find("_| m |_ @foo"), vec![reference("m", None)]);
    assert_eq!(find("_| m |_@\u{e9}t\u{e9}!"), vec![reference("m", Some("\u{e9}t\u{e9}"))]);
    assert_eq!(find("_| m |_@a`_| n |_`"), vec![reference("m", Some("a"))]);
    assert_eq!(find("_| m |_@a _| n |_@b"), vec![reference("m", Some("a")), reference("n", Some("b"))]);
}

#[test]
fn markers_are_passed_over_in_quote_blocks() {
    let find = |text: &str, markers: bool| find_references(&chars_of(text), markers);
    assert_eq!(find("**^a _| x |_ b^** _| y |_", true), vec![reference("y", None)]);
    assert_eq!(find("**^a _| x |_ b^** _| y |_", false), vec![reference("x", None), reference("y", None)]);
}

#[test]
fn subjects_and_commentary_of_a_block() {
    let block = chars_of("**^one^** - first\n  more of it\n\n**^ two ^** second\n**^^** none\ntext **^late^**");
    let found: Vec<String> = subjects(&block).iter().map(|t| s(t)).collect();
    assert_eq!(found, vec!["one", "two"]);
    assert_eq!(s(&commentary(&block)), "first more of it second none text");
    assert_eq!(s(&commentary(&chars_of("**^alone^**"))), "");
    assert_eq!(s(&commentary(&chars_of("**^open to the end"))), "");
    assert_eq!(s(&commentary(&chars_of("- **^a^** b"))), " b");
    assert_eq!(s(&commentary(&chars_of("**^a^** - b"))), "b");
}
