//! Text, numbers and names.

use llm_orch::json::{flag, quote_all, text_of, unsigned_or_zero, Json};
use llm_orch::names::NameMap;
use llm_orch::numbers::{parse_u64, to_decimal, to_decimal_padded, to_hex_padded};
use llm_orch::text::{
    chars_of, find_subslice, is_whitespace, join_strings, lines_of, replace_str, same_text,
    string_of, trim_str,
};

#[test]
fn whitespace_is_that_of_the_standard() {
    for c in (0..=0x10ffffu32).filter_map(char::from_u32) {
        assert_eq!(is_whitespace(c), c.is_whitespace(), "{:?}", c);
    }
}

#[test]
fn text_functions_agree_with_the_standard() {
    for s in ["", " a ", "\u{3000}x\t", "a{b}a{b}", "ééa", "\r\nq\r\n"] {
        assert_eq!(trim_str(s), s.trim());
        assert_eq!(replace_str(s, "{b}", "--"), s.replace("{b}", "--"));
        assert_eq!(replace_str(s, "a", "{a}"), s.replace("a", "{a}"));
        assert_eq!(string_of(&chars_of(s)), s);
        let lines: Vec<String> = lines_of(&chars_of(s)).iter().map(|l| string_of(l)).collect();
        assert_eq!(lines, s.lines().collect::<Vec<_>>());
        assert!(same_text(s, s));
        assert!(!same_text(s, "other"));
    }
    assert_eq!(find_subslice(b"abcabc", b"ca"), Some(2));
    assert_eq!(find_subslice(b"abc", b"x"), None);
    assert_eq!(
        join_strings(&vec!["a".to_owned(), "b".to_owned()], ", "),
        "a, b"
    );
}

#[test]
fn numbers_agree_with_the_standard() {
    for n in [0u64, 7, 10, 99, 1024, u64::MAX] {
        assert_eq!(to_decimal(n), n.to_string());
        assert_eq!(parse_u64(&n.to_string()), Some(n));
        assert_eq!(to_decimal_padded(n, 4), format!("{n:04}"));
        assert_eq!(to_hex_padded(n, 4), format!("{n:04x}"));
    }
    for s in ["", "-1", "+1", "1 ", "18446744073709551616", "x"] {
        assert_eq!(parse_u64(s), s.parse::<u64>().ok(), "{s}");
    }
}

#[test]
fn names_map_to_values() {
    let mut m: NameMap<u32> = NameMap::new();
    m.insert("a", 1);
    m.insert("b", 2);
    m.insert("a", 3);
    assert_eq!(m.get("a"), Some(&3));
    assert_eq!(m.entries.len(), 2);
    *m.get_mut("b").unwrap() = 5;
    assert_eq!(m.remove("b"), Some(5));
    assert!(!m.contains("b"));
    assert_eq!(m.position("a"), Some(0));
}

#[test]
fn json_values_are_read() {
    assert_eq!(unsigned_or_zero(Json::Unsigned(4)), 4);
    assert_eq!(unsigned_or_zero(Json::Number), 0);
    assert!(flag(Json::Bool(true)));
    assert!(!flag(Json::Text("true".to_owned())));
    assert_eq!(text_of(Json::Text("x".to_owned())).as_deref(), Some("x"));
    assert_eq!(text_of(Json::Null), None);
    assert_eq!(quote_all(&vec!["a\n\"".to_owned()]), vec!["\"a\\n\\\"\""]);
}
