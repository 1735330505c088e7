//! Text and documents.

use responses_api_proxy::codec::{display, parse_slice, parse_str, to_string, to_vec};
use responses_api_proxy::json::Json;
use responses_api_proxy::text::{
    characters, join_texts, push_decimal, same_text, text_between, to_lower, trim, white_space,
};

#[test]
fn white_space_is_that_of_unicode() {
    for code in 0..=0x10ffffu32 {
        if let Some(c) = char::from_u32(code) {
            assert_eq!(white_space(c), c.is_whitespace());
        }
    }
}

#[test]
fn white_space_is_trimmed_from_both_ends() {
    for text in ["", " ", "\t[DONE]\u{3000}", " a b ", "a", "\u{a0}\u{200b}\r\n"] {
        assert_eq!(trim(text), text.trim());
    }
    assert_eq!(trim("\t[DONE]\u{3000}"), "[DONE]");
}

#[test]
fn letters_are_put_in_lower_case() {
    assert_eq!(to_lower("Content-TYPE [@`{Z] \u{c9}"), "content-type [@`{z] \u{c9}");
    for code in 0..=0x7fu8 {
        let text = char::from(code).to_string();
        assert_eq!(to_lower(&text), text.to_ascii_lowercase());
    }
}

#[test]
fn texts_are_compared() {
    assert!(same_text("", ""));
    assert!(same_text("caf\u{e9}", "caf\u{e9}"));
    assert!(!same_text("caf\u{e9}", "cafe\u{301}"));
    assert!(!same_text("a", "ab"));
    assert!(!same_text("a", "A"));
}

#[test]
fn texts_are_cut_and_joined() {
    let chars = characters("h\u{e9}llo");
    assert_eq!(chars, vec!['h', '\u{e9}', 'l', 'l', 'o']);
    assert_eq!(text_between(&chars, 1, 3), "\u{e9}l");
    assert_eq!(text_between(&chars, 2, 2), "");
    let texts = |texts: &[&str]| texts.iter().map(|text| text.to_string()).collect::<Vec<_>>();
    assert_eq!(join_texts(&texts(&[]), ", "), "");
    assert_eq!(join_texts(&texts(&["a"]), ", "), "a");
    assert_eq!(join_texts(&texts(&["a", "", "b"]), ", "), "a, , b");
}

#[test]
fn numbers_are_written_in_decimal() {
    for n in 0..=65535u16 {
        let mut text = String::from("n");
        push_decimal(&mut text, n);
        assert_eq!(text, format!("n{n}"));
    }
}

#[test]
fn documents_are_read_and_written() {
    let text = " {\"b\": [1, -2, 0.5, true, null], \"a\": \"\\u00e9\\n\", \"b\": {}} ";
    let compact = "{\"a\":\"\u{e9}\\n\",\"b\":{}}";
    let json = parse_str(text).unwrap();
    assert_eq!(to_string(&json).unwrap(), compact);
    assert_eq!(to_vec(&json).unwrap(), compact.as_bytes());
    assert_eq!(display(&json), compact);
    assert_eq!(to_string(&parse_slice(text.as_bytes()).unwrap()).unwrap(), compact);
    assert_eq!(to_string(&json.duplicate()).unwrap(), compact);
    assert!(parse_str("{\"a\":}").is_err());
    assert!(parse_slice(b"\"\xff\"").is_err());
}

#[test]
fn integers_are_told_by_what_holds_them() {
    let of = |text: &str| {
        let json = parse_str(text).unwrap();
        (json.as_i64(), json.as_u64())
    };
    assert_eq!(of("0"), (Some(0), Some(0)));
    assert_eq!(of("-1"), (Some(-1), None));
    assert_eq!(of("9223372036854775807"), (Some(i64::MAX), Some(i64::MAX as u64)));
    assert_eq!(of("9223372036854775808"), (None, Some(1 << 63)));
    assert_eq!(of("18446744073709551615"), (None, Some(u64::MAX)));
    assert_eq!(of("18446744073709551616"), (None, None));
    assert_eq!(of("-9223372036854775808"), (Some(i64::MIN), None));
    assert_eq!(of("1.0"), (None, None));
    assert_eq!(of("\"1\""), (None, None));
    assert_eq!((Json::Int(5).as_i64(), Json::Int(5).as_u64()), (Some(5), Some(5)));
}

#[test]
fn members_are_looked_up() {
    let json = parse_str("{\"t\":\"x\",\"b\":true,\"n\":-3,\"l\":[1,2]}").unwrap();
    assert_eq!(json.text_at("t"), Some("x"));
    assert_eq!(json.text_at("b"), None);
    assert_eq!(json.bool_at("b"), Some(true));
    assert_eq!(json.bool_at("n"), None);
    assert_eq!(json.i64_at("n"), Some(-3));
    assert_eq!(json.u64_at("n"), None);
    assert_eq!(json.list_at("l").unwrap().len(), 2);
    assert!(json.list_at("t").is_none());
    assert!(json.get("missing").is_none());
    assert!(Json::text("t").get("t").is_none());
    assert_eq!(to_string(&Json::Bool(true).with("a", Json::Null)).unwrap(), "true");
}
