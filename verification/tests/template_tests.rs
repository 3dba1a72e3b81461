use vyasa::template::{has_placeholder, mantra_answers, match_template, synthesize};
use vyasa::text::chars_of;

fn pairs(v: &[(&str, &str)]) -> Vec<(String, String)> {
    v.iter().map(|(a, b)| (a.to_string(), b.to_string())).collect()
}

#[test]
fn reference_gives_the_value_of_a_placeholder() {
    assert_eq!(match_template("[user: {name}]", "[user: amitu]"), Some(pairs(&[("name", "amitu")])));
}

#[test]
fn template_matches_its_own_text() {
    assert_eq!(match_template("[user: {name}]", "[user: {name}]"), Some(vec![]));
}

#[test]
fn same_placeholder_wants_the_same_value() {
    assert_eq!(match_template("{x} equals {x}", "a equals b"), None);
    assert_eq!(match_template("{x} equals {x}", "a equals a"), Some(pairs(&[("x", "a")])));
}

#[test]
fn partly_filled_reference_matches() {
    assert_eq!(match_template("{x} equals {x}", "a equals {x}"), Some(pairs(&[("x", "a")])));
    assert_eq!(match_template("{x} equals {x}", "{x} equals b"), Some(pairs(&[("x", "b")])));
}

#[test]
fn literal_text_has_to_be_repeated() {
    assert_eq!(match_template("[user: {name}]", "[role: amitu]"), None);
    assert_eq!(match_template("[user: {name}]", "[user: amitu"), None);
    assert_eq!(match_template("[user: {name}]", "x[user: amitu]"), None);
}

#[test]
fn captures_are_as_short_as_can_be() {
    assert_eq!(
        match_template("{a}-{b}", "1-2-3"),
        Some(pairs(&[("a", "1"), ("b", "2-3")]))
    );
}

#[test]
fn example_in_the_text_is_a_capture_point() {
    let t = "port {p=8080} (default 8080)";
    assert_eq!(match_template(t, "port 9090 (default 9090)"), Some(pairs(&[("p", "9090")])));
    assert_eq!(match_template(t, "port 9090 (default 8080)"), Some(pairs(&[("p", "9090")])));
    assert_eq!(match_template(t, "port 9090 (default 7070)"), None);
    assert_eq!(match_template(t, "port {p=8080} (default 7070)"), Some(pairs(&[("p", "7070")])));
    let p = synthesize(&chars_of(t));
    assert_eq!(p.points.len(), 2);
    assert_eq!(p.lits, vec![chars_of("port "), chars_of(" (default "), chars_of(")")]);
    assert_eq!(p.points[0].name, chars_of("p"));
    assert_eq!(p.points[0].own, chars_of("{p=8080}"));
    assert_eq!(p.points[1].name, chars_of("p"));
    assert_eq!(p.points[1].own, chars_of("8080"));
}

#[test]
fn text_without_placeholder_is_no_template() {
    assert!(!has_placeholder(&chars_of("plain words")));
    assert!(!has_placeholder(&chars_of("open { only")));
    assert!(!has_placeholder(&chars_of("} before {")));
    assert!(has_placeholder(&chars_of("a {b} c")));
    assert_eq!(match_template("plain", "plain"), Some(vec![]));
    assert_eq!(match_template("plain", "other"), None);
}

#[test]
fn a_mantra_is_answered_word_for_word_or_by_its_pattern() {
    assert!(mantra_answers(&chars_of("fire is hot"), &chars_of("fire is hot")));
    assert!(!mantra_answers(&chars_of("fire is hot"), &chars_of("fire is  hot")));
    assert!(mantra_answers(&chars_of("[user: {name}]"), &chars_of("[user: amitu]")));
    assert!(!mantra_answers(&chars_of("[user: {name}]"), &chars_of("user: amitu")));
}

#[test]
fn template_with_two_equal_placeholders_matches_itself() {
    assert_eq!(match_template("{x} equals {x}", "{x} equals {x}"), Some(vec![]));
    assert_eq!(match_template("{a=1} and {b}", "{a=1} and {b}"), Some(vec![]));
}

#[test]
fn literal_inside_a_placeholder_is_found_first() {
    assert_eq!(match_template("{xx}x{xx}", "{xx}x{xx}"), None);
    assert_eq!(match_template("{xx}x{yy}", "{xx}x{yy}"), Some(pairs(&[("xx", "{"), ("yy", "x}x{yy}")])));
}

#[test]
fn empty_reference_and_empty_captures() {
    assert_eq!(match_template("{a}", ""), Some(pairs(&[("a", "")])));
    assert_eq!(match_template("{a}{b}", "xy"), Some(pairs(&[("a", ""), ("b", "xy")])));
    assert_eq!(match_template("x{a}", ""), None);
}
