use serde_json::Value;
use streamdeck_emotes::records::RecordMap;
use streamdeck_emotes::text::{
    ascii_upper, chars_of, find, push_capitalized, push_decimal, str_eq,
};

fn chars(text: &str) -> Vec<char> {
    text.chars().collect()
}

#[test]
fn decimal_numerals_have_no_leading_zeros() {
    for (n, expected) in [
        (0usize, "0"),
        (7, "7"),
        (10, "10"),
        (99, "99"),
        (100, "100"),
        (1024, "1024"),
        (usize::MAX, "18446744073709551615"),
    ] {
        let mut text = "n=".to_owned();
        push_decimal(&mut text, n);
        assert_eq!(text, format!("n={}", expected));
    }
}

#[test]
fn only_ascii_lower_case_letters_are_raised() {
    assert_eq!(ascii_upper('a'), 'A');
    assert_eq!(ascii_upper('z'), 'Z');
    assert_eq!(ascii_upper('A'), 'A');
    assert_eq!(ascii_upper('`'), '`');
    assert_eq!(ascii_upper('{'), '{');
    assert_eq!(ascii_upper('é'), 'é');
    assert_eq!(ascii_upper('5'), '5');
    let mut text = "x".to_owned();
    push_capitalized(&mut text, "hello World");
    assert_eq!(text, "xHello World");
    push_capitalized(&mut text, "");
    assert_eq!(text, "xHello World");
    push_capitalized(&mut text, "ß");
    assert_eq!(text, "xHello Worldß");
}

#[test]
fn texts_are_compared_by_their_characters() {
    assert!(str_eq("", ""));
    assert!(str_eq("héllo", "héllo"));
    assert!(!str_eq("hello", "hellO"));
    assert!(!str_eq("hello", "hell"));
    assert!(!str_eq("", " "));
    assert_eq!(chars_of("aé𝄞"), vec!['a', 'é', '𝄞']);
}

#[test]
fn search_finds_the_first_place() {
    assert_eq!(find(&chars("abcabc"), &chars("bc"), 0), Some(1));
    assert_eq!(find(&chars("abcabc"), &chars("bc"), 1), Some(1));
    assert_eq!(find(&chars("abcabc"), &chars("bc"), 2), Some(4));
    assert_eq!(find(&chars("abcabc"), &chars("bc"), 5), None);
    assert_eq!(find(&chars("abcabc"), &chars("bd"), 0), None);
    assert_eq!(find(&chars("abc"), &chars("abcd"), 0), None);
    assert_eq!(find(&chars("abc"), &chars(""), 0), Some(0));
    assert_eq!(find(&chars("abc"), &chars(""), 3), Some(3));
    assert_eq!(find(&chars("abc"), &chars(""), 4), None);
    assert_eq!(find(&chars(""), &chars(""), 0), Some(0));
    assert_eq!(find(&chars("aaa"), &chars("aa"), 0), Some(0));
    assert_eq!(find(&chars("ééa"), &chars("a"), 0), Some(2));
}

#[test]
fn records_keep_the_first_value_under_a_key() {
    let mut records = RecordMap::new();
    assert_eq!(records.len(), 0);
    assert!(records.insert_new("a".to_owned(), Value::from(1)));
    assert!(records.insert_new("b".to_owned(), Value::from("two")));
    assert!(!records.insert_new("a".to_owned(), Value::from(3)));
    assert_eq!(records.len(), 2);
    assert_eq!(records.get("a"), Some(&Value::from(1)));
    assert_eq!(records.get("b"), Some(&Value::from("two")));
    assert_eq!(records.get("c"), None);
    assert!(records.contains_key("b"));
    assert!(!records.contains_key("B"));
    let keys: Vec<&str> = records.entries().iter().map(|(k, _)| k.as_str()).collect();
    assert_eq!(keys, vec!["a", "b"]);
    assert_eq!(records.into_entries().len(), 2);
}
