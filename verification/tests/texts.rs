//! Cutting, joining and printing text, against the standard library.

use rwmcp::cut::{
    contains_str, ends_with, eq_ignore_ascii_case, is_space, join, replace, split, split_once, starts_with, strip_prefix, strip_suffix, trim,
    trim_end_char, trim_end_str, trim_start_char,
};
use rwmcp::json::{parse_text, pretty, Json};
use rwmcp::text::{debug_list, dec_string, int_string, sorted_unique, str_lt};

#[test]
fn cutting_is_what_the_standard_library_does() {
    for s in ["", "a", "a,b", ",a,,b,", " \t x \u{a0}\n", "\u{3000}y\u{2003}", "aXbXc", "ééX"] {
        assert_eq!(split(s, ','), s.split(',').collect::<Vec<_>>(), "{s:?}");
        assert_eq!(split_once(s, 'X'), s.split_once('X').map(|(a, b)| (a.to_string(), b.to_string())), "{s:?}");
        assert_eq!(trim(s), s.trim(), "{s:?}");
        for p in ["a", "", "X", "é", "b,"] {
            assert_eq!(contains_str(s, p), s.contains(p), "{s:?} {p:?}");
            assert_eq!(starts_with(s, p), s.starts_with(p));
            assert_eq!(ends_with(s, p), s.ends_with(p));
            assert_eq!(strip_prefix(s, p).as_deref(), s.strip_prefix(p));
            assert_eq!(strip_suffix(s, p).as_deref(), s.strip_suffix(p));
            assert_eq!(replace(s, p, "<>"), s.replace(p, "<>"), "{s:?} {p:?}");
        }
        assert_eq!(trim_start_char(s, ','), s.trim_start_matches(','));
        assert_eq!(trim_end_char(s, ','), s.trim_end_matches(','));
        assert_eq!(trim_end_str(s, "b,"), s.trim_end_matches("b,"));
    }
    assert_eq!(join(&vec!["a".to_string(), "b".to_string()], ", "), "a, b");
    assert_eq!(join(&Vec::new(), ", "), "");
}

#[test]
fn white_space_is_what_the_standard_library_calls_so() {
    for n in 0..0x11_0000u32 {
        if let Some(c) = char::from_u32(n) {
            assert_eq!(is_space(c), c.is_whitespace(), "{n:x}");
        }
    }
}

#[test]
fn ascii_case_is_ignored_and_no_other() {
    assert!(eq_ignore_ascii_case("GeT", "gEt"));
    assert!(!eq_ignore_ascii_case("\u{c9}", "\u{e9}"));
    assert!(!eq_ignore_ascii_case("get", "gets"));
}

#[test]
fn numbers_are_printed_in_decimals() {
    for n in [0u128, 1, 9, 10, 12345, u128::MAX] {
        assert_eq!(dec_string(n), n.to_string());
    }
    for n in [0i128, -1, 42, i128::MIN, i128::MAX] {
        assert_eq!(int_string(n), n.to_string());
    }
}

#[test]
fn texts_are_ordered_as_the_standard_library_orders_them() {
    let words = ["", "a", "b", "aa", "Z", "\u{e9}", "\u{10000}", "\u{ffff}"];
    for a in words {
        for b in words {
            assert_eq!(str_lt(a, b), a < b, "{a:?} {b:?}");
        }
    }
    let xs: Vec<String> = ["b", "a", "b", "c", "a"].iter().map(|s| s.to_string()).collect();
    assert_eq!(sorted_unique(&xs), ["a", "b", "c"]);
    assert_eq!(debug_list(&xs), format!("{xs:?}"));
    assert_eq!(debug_list(&vec!["say \"hi\"\n".to_string()]), "[\"say \\\"hi\\\"\\n\"]");
}

#[test]
fn json_is_written_as_serde_writes_it() {
    let text = r#"{"a":[1,-2,true,null,"q\"\\\n\u0001é"],"b":{},"c":1.5}"#;
    let v: serde_json::Value = serde_json::from_str(text).unwrap();
    let mine = Json::Obj(vec![
        (
            "a".to_string(),
            Json::List(vec![Json::Int(1), Json::Int(-2), Json::Bool(true), Json::Null, Json::Str("q\"\\\n\u{1}é".to_string())]),
        ),
        ("b".to_string(), Json::Obj(Vec::new())),
        ("c".to_string(), Json::Float("1.5".to_string())),
    ]);
    assert_eq!(mine.to_string(), v.to_string());
}

#[test]
fn a_string_literal_escapes_what_it_must() {
    let show = |s: &str| Json::Str(s.to_string()).to_string();
    assert_eq!(show("a\"b\\c/d"), r#""a\"b\\c/d""#);
    assert_eq!(show("\u{8}\t\n\u{c}\r"), r#""\b\t\n\f\r""#);
    assert_eq!(show("\0\u{b}\u{1f}\u{7f}\u{e9}"), "\"\\u0000\\u000b\\u001f\u{7f}\u{e9}\"");
    assert_eq!(show(""), "\"\"");
}

#[test]
fn json_is_read_as_serde_reads_it() {
    let text = r#" {"b": [1, -2, 18446744073709551615, 1.50, 1e2, 123456789012345678901, true, null, "q\"\u00e9"], "a": {}, "b2": "", "b": 3} "#;
    let v: serde_json::Value = serde_json::from_str(text).unwrap();
    assert_eq!(parse_text(text).unwrap().to_string(), v.to_string());
    assert!(parse_text("-9223372036854775808").unwrap() == Json::Int(i64::MIN as i128));
    assert!(parse_text("18446744073709551615").unwrap() == Json::Int(u64::MAX as i128));
    assert!(parse_text("1.50").unwrap() == Json::Float("1.5".to_string()));
    // The entries of an object come in ascending order, the last of equal keys staying.
    assert_eq!(parse_text(r#"{"b": 1, "a": 2, "b": 3}"#).unwrap().to_string(), r#"{"a":2,"b":3}"#);
    for bad in ["", "{", "[1,]", "nul", "\"", "1 2"] {
        assert_eq!(parse_text(bad).unwrap_err(), serde_json::from_str::<serde_json::Value>(bad).unwrap_err().to_string());
    }
    assert_eq!(pretty(&parse_text(text).unwrap()), serde_json::to_string_pretty(&v).unwrap());
}
