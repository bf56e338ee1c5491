//! Texts, maps with text keys and JSON documents.

use plexus::json::{parse, str_or_empty, Json};
use plexus::strmap::StrMap;
use plexus::text;

fn strings(v: &[&str]) -> Vec<String> {
    v.iter().map(|s| s.to_string()).collect()
}

#[test]
fn trimming_keeps_what_stands_between_white_space() {
    assert_eq!(text::trim(" \t a b \r\n"), "a b");
    assert_eq!(text::trim("\u{a0}x\u{2003}"), "x");
    assert_eq!(text::trim("   "), "");
    assert_eq!(text::trim_end_matches("src//", '/'), "src");
    assert_eq!(text::trim_matches("\"\"name\"", '"'), "name");
    assert_eq!(text::trim_matches("\"", '"'), "");
}

#[test]
fn lines_and_words_are_found() {
    assert_eq!(text::lines("a\r\nb\n\nc\n"), strings(&["a", "b", "", "c"]));
    assert_eq!(text::lines("a\rb"), strings(&["a\rb"]));
    assert_eq!(text::lines("last\r"), strings(&["last\r"]));
    assert_eq!(text::lines(""), strings(&[]));
    assert_eq!(text::split_whitespace("  a  b\tc "), strings(&["a", "b", "c"]));
}

#[test]
fn texts_are_searched_and_changed() {
    assert!(text::starts_with("link:../a", "link:"));
    assert!(!text::starts_with("lin", "link:"));
    assert!(text::contains("a/node_modules/b", "node_modules"));
    assert!(!text::contains("abc", "abd"));
    assert!(text::contains("abc", ""));
    assert_eq!(text::replace_char("a\\b\\c", '\\', '/'), "a/b/c");
    assert_eq!(text::pad_right("ab", 4), "ab  ");
    assert_eq!(text::pad_right("abcde", 4), "abcde");
    assert_eq!(text::concat3("a", "b", "c"), "abc");
}

#[test]
fn numbers_are_written_out() {
    assert_eq!(text::decimal_text(0), "0");
    assert_eq!(text::decimal_text(18446744073709551615), "18446744073709551615");
    assert_eq!(text::signed_text(-42), "-42");
    assert_eq!(text::signed_text(i64::MIN), "-9223372036854775808");
}

#[test]
fn texts_have_the_order_of_a_dictionary() {
    assert!(text::text_before("a", "ab"));
    assert!(text::text_before("Z", "a"));
    assert!(!text::text_before("b", "ab"));
    assert!(!text::text_before("a", "a"));
}

#[test]
fn a_map_remembers_the_order_of_its_keys() {
    let mut m: StrMap<u8> = StrMap::new();
    m.insert("b".into(), 1);
    m.insert("a".into(), 2);
    m.insert("b".into(), 3);
    assert_eq!(m.len(), 2);
    assert_eq!(m.key_at(0), "b");
    assert_eq!(m.get("b"), Some(&3));
    *m.get_mut("a").unwrap() = 9;
    assert_eq!(m.value_at(1), &9);
    assert_eq!(m.remove("b"), Some(3));
    assert_eq!(m.remove("b"), None);
    assert!(!m.contains_key("b"));
    assert_eq!(m.key_at(0), "a");
}

#[test]
fn a_line_goes_to_a_list_that_is_there() {
    let mut m: StrMap<Vec<String>> = StrMap::new();
    m.insert("a".into(), vec![]);
    m.push_known("a", "x".into());
    m.push_known("b", "y".into());
    assert_eq!(m.get("a"), Some(&strings(&["x"])));
    assert_eq!(m.len(), 1);
}

#[test]
fn documents_are_read() {
    let j = parse(r#"{"name": "web", "n": 1.5, "list": [true, null, "x"], "name2": {"k": []}}"#)
        .unwrap();
    assert_eq!(str_or_empty(j.field("name")), "web");
    assert_eq!(str_or_empty(j.field("n")), "");
    assert_eq!(str_or_empty(j.field("missing")), "");
    match j.field("list") {
        Some(Json::Array(v)) => {
            assert_eq!(v.len(), 3);
            assert!(matches!(v[0], Json::Bool(true)));
            assert!(matches!(v[1], Json::Null));
            assert!(matches!(&v[2], Json::Str(s) if s == "x"));
        },
        _ => panic!("no list"),
    }
    assert!(parse("{").is_none());
    assert!(parse("").is_none());
}

#[test]
fn documents_are_printed() {
    assert_eq!(Json::Str("a\"b".into()).render(), "\"a\\\"b\"");
    assert_eq!(Json::Str("plain".into()).render(), "\"plain\"");
    let j = parse(r#" { "b" : 1, "a" : [ "x" , null ] } "#).unwrap();
    assert_eq!(j.render(), r#"{"a":["x",null],"b":1}"#);
}
