use maven_uploader::order::sort;
use maven_uploader::text;

fn strings(parts: &[&str]) -> Vec<String> {
    parts.iter().map(|p| p.to_string()).collect()
}

#[test]
fn finds_and_splits() {
    assert!(text::contains("a中b", "中"));
    assert!(text::contains("abc", ""));
    assert!(!text::contains("abc", "ac"));
    assert_eq!(text::split("a,,b", ","), vec!["a", "", "b"]);
    assert_eq!(text::split("", ","), vec![""]);
    assert_eq!(text::split_once("a::b::c", "::").unwrap(), ("a".to_string(), "b::c".to_string()));
    assert_eq!(text::rsplit_once("a.b.c", '.').unwrap(), ("a.b".to_string(), "c".to_string()));
    assert!(text::rsplit_once("abc", '.').is_none());
    assert_eq!(text::fields(" a\tb\r\n\u{c}c "), vec!["a", "b", "c"]);
    assert_eq!(text::join(&strings(&["a", "b", "c"]), "::"), "a::b::c");
    assert_eq!(text::strip_prefix("abc", "a").as_deref(), Some("bc"));
    assert_eq!(text::strip_suffix("abc", "bc").as_deref(), Some("a"));
    assert!(text::strip_suffix("abc", "ab").is_none());
}

#[test]
fn trims_and_compares() {
    assert_eq!(text::trim(" \u{3000}a b\n"), "a b");
    assert_eq!(text::trim(" "), "");
    assert_eq!(text::trim_end_matches("a///", '/'), "a");
    assert_eq!(text::trim_end_matches("//", '/'), "");
    assert!(text::equals_ignoring_case("Keep-ALIVE", "keep-alive"));
    assert!(!text::equals_ignoring_case("é", "É"));
    assert!(text::equals("中", "中"));
    assert!(!text::equals("a", "ab"));
}

#[test]
fn writes_numbers() {
    let mut number = "n=".to_string();
    text::push_decimal(&mut number, 0);
    text::push_decimal(&mut number, 1090);
    assert_eq!(number, "n=01090");
    assert_eq!(text::hex_digit(11), 'b');
    assert_eq!(text::upper_hex_digit(15), 'F');
}

#[test]
fn sorts_texts_like_bytes() {
    let sorted = sort(strings(&["b", "a", "10", "9", "", "中", "\u{10000}", "\u{ffff}", "a"]));
    let mut expected =
        vec!["b", "a", "10", "9", "", "中", "\u{10000}", "\u{ffff}", "a"];
    expected.sort();
    assert_eq!(sorted, expected);
}
