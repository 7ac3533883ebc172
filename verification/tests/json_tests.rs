use raft::json::{canonical_bytes_of, canonical_omitting, JsonMember, JsonValue};

fn member(key: &str, value: JsonValue) -> JsonMember {
    JsonMember { key: key.to_string(), value }
}

fn num(text: &str) -> JsonValue {
    JsonValue::Number(text.to_string())
}

#[test]
fn canonical_bytes_sort_keys_and_omit() {
    let value = JsonValue::Object(vec![
        member("b", num("1")),
        member("a", num("2")),
        member("sig", JsonValue::Str("zzz".to_string())),
    ]);
    assert_eq!(canonical_bytes_of(&value), br#"{"a":2,"b":1,"sig":"zzz"}"#.to_vec());
    assert_eq!(canonical_omitting(&value, &["sig"]), br#"{"a":2,"b":1}"#.to_vec());
}

#[test]
fn canonical_text_escapes_strings_and_nests() {
    let value = JsonValue::Object(vec![
        member("list", JsonValue::Array(vec![JsonValue::Null, JsonValue::Bool(true), JsonValue::Bool(false)])),
        member("text", JsonValue::Str("a\"b\\c\nd\u{1}é".to_string())),
    ]);
    let bytes = canonical_bytes_of(&value);
    assert_eq!(
        String::from_utf8(bytes).unwrap(),
        "{\"list\":[null,true,false],\"text\":\"a\\\"b\\\\c\\nd\\u0001é\"}"
    );
}

#[test]
fn omitting_only_touches_top_level_keys() {
    let inner = JsonValue::Object(vec![member("hash", num("1"))]);
    let value = JsonValue::Object(vec![
        member("body", inner),
        member("hash", JsonValue::Str("h".to_string())),
        member("sig", JsonValue::Str("s".to_string())),
    ]);
    assert_eq!(canonical_omitting(&value, &["hash", "sig"]), br#"{"body":{"hash":1}}"#.to_vec());
    // A value that is not an object is written whole.
    assert_eq!(canonical_omitting(&num("7"), &["sig"]), b"7".to_vec());
}

#[test]
fn nested_objects_are_written_in_key_order() {
    let inner = JsonValue::Object(vec![member("z", num("1")), member("m", num("2")), member("a", num("3"))]);
    let value = JsonValue::Object(vec![
        member("sig", JsonValue::Str("s".to_string())),
        member("body", inner),
        member("at", JsonValue::Null),
    ]);
    assert_eq!(
        String::from_utf8(canonical_bytes_of(&value)).unwrap(),
        r#"{"at":null,"body":{"a":3,"m":2,"z":1},"sig":"s"}"#
    );
    assert_eq!(
        String::from_utf8(canonical_omitting(&value, &["sig", "at"])).unwrap(),
        r#"{"body":{"a":3,"m":2,"z":1}}"#
    );
}
