use ocppj::json::json_to_bytes;
use ocppj::parse::bytes_to_json;
use ocppj::JsonValue;

fn round_trip(text: &str) {
    let v = bytes_to_json(text.as_bytes()).expect("the text must parse");
    assert_eq!(String::from_utf8(json_to_bytes(&v)).unwrap(), text);
}

#[test]
fn scalar_round_trips() {
    round_trip("null");
    round_trip("true");
    round_trip("false");
    round_trip("0");
    round_trip("-1");
    round_trip("9223372036854775807");
    round_trip("-9223372036854775808");
    round_trip("\"\"");
    round_trip("\"hello\"");
}

#[test]
fn container_round_trips() {
    round_trip("[]");
    round_trip("{}");
    round_trip("[1,[2,[3]],{\"a\":[]}]");
    round_trip("{\"a\":{\"b\":{\"c\":null}},\"d\":[true,false]}");
}

#[test]
fn escape_round_trips() {
    round_trip("\"a\\\"b\"");
    round_trip("\"a\\\\b\"");
    round_trip("\"a\\nb\\tc\\rd\\fe\\bf\"");
}

#[test]
fn whitespace_is_accepted_and_not_re_emitted() {
    let v = bytes_to_json(b" [ 1 , \"a\" , { \"k\" : null } ] ").unwrap();
    assert_eq!(String::from_utf8(json_to_bytes(&v)).unwrap(), "[1,\"a\",{\"k\":null}]");
}

#[test]
fn non_ascii_bytes_pass_through_strings() {
    let v = bytes_to_json("\"caf\u{e9}\"".as_bytes()).unwrap();
    assert_eq!(json_to_bytes(&v), "\"caf\u{e9}\"".as_bytes().to_vec());
}

#[test]
fn integer_bounds_are_enforced() {
    assert!(bytes_to_json(b"9223372036854775808").is_none());
    assert!(bytes_to_json(b"-9223372036854775809").is_none());
    assert!(bytes_to_json(b"99999999999999999999999").is_none());
}

#[test]
fn malformed_texts_are_rejected() {
    assert!(bytes_to_json(b"").is_none());
    assert!(bytes_to_json(b"[1,]").is_none());
    assert!(bytes_to_json(b"{\"a\":}").is_none());
    assert!(bytes_to_json(b"[1").is_none());
    assert!(bytes_to_json(b"01").is_none());
    assert!(bytes_to_json(b"1.5").is_none());
    assert!(bytes_to_json(b"1e3").is_none());
    assert!(bytes_to_json(b"\"\\u0041\"").is_none());
    assert!(bytes_to_json(b"[1] [2]").is_none());
    assert!(bytes_to_json(b"nul").is_none());
}

#[test]
fn unescaping_happens_on_parse() {
    let v = bytes_to_json(b"\"a\\/b\"").unwrap();
    match v {
        JsonValue::Str(s) => assert_eq!(s, b"a/b".to_vec()),
        _ => panic!("a quoted token must parse as a string"),
    }
}

#[test]
fn serializer_matches_a_reference_parser() {
    let v = JsonValue::Arr(vec![
        JsonValue::Int(3),
        JsonValue::Str(b"id-1".to_vec()),
        JsonValue::Obj(vec![(b"k".to_vec(), JsonValue::Bool(true))]),
    ]);
    let mine: serde_json::Value = serde_json::from_slice(&json_to_bytes(&v)).unwrap();
    let expected: serde_json::Value = serde_json::from_str("[3,\"id-1\",{\"k\":true}]").unwrap();
    assert_eq!(mine, expected);
}
