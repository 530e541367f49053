use pastey_physical::json::{canonical_bytes, JsonMemberV1, JsonValueV1};

fn member(key: &str, value: JsonValueV1) -> JsonMemberV1 {
    JsonMemberV1 { key: key.to_string(), value }
}

/// A string holding a quote, a newline, a control byte, a backslash, a
/// non-ASCII letter and a slash.
fn tricky() -> String {
    String::from_utf8(vec![120, 34, 121, 10, 1, 92, 195, 169, 47]).unwrap()
}

fn text(bytes: Vec<u8>) -> String {
    String::from_utf8(bytes).unwrap()
}

#[test]
fn canonical_json_sorts_keys_and_escapes_like_serde_json() {
    let value = JsonValueV1::object(vec![
        member("b", JsonValueV1::Text(tricky())),
        member(
            "a",
            JsonValueV1::Array(vec![
                JsonValueV1::Int(-5),
                JsonValueV1::UInt(7),
                JsonValueV1::Bool(true),
                JsonValueV1::Null,
                JsonValueV1::Int(i64::MIN),
            ]),
        ),
        member("aa", JsonValueV1::object(vec![]).unwrap()),
    ])
    .unwrap();
    let mut map = serde_json::Map::new();
    map.insert(
        "b".to_string(),
        serde_json::Value::String(tricky()),
    );
    map.insert(
        "a".to_string(),
        serde_json::Value::Array(vec![
            serde_json::Value::from(-5i64),
            serde_json::Value::from(7u64),
            serde_json::Value::Bool(true),
            serde_json::Value::Null,
            serde_json::Value::from(i64::MIN),
        ]),
    );
    map.insert("aa".to_string(), serde_json::Value::Object(serde_json::Map::new()));
    let expected = serde_json::to_string(&serde_json::Value::Object(map)).unwrap();
    assert_eq!(text(canonical_bytes(&value)), expected);
}

#[test]
fn duplicate_object_keys_are_refused() {
    let e = JsonValueV1::object(vec![
        member("k", JsonValueV1::Null),
        member("k", JsonValueV1::Bool(false)),
    ])
    .unwrap_err();
    assert_eq!(e.message(), "Duplicate JSON object key.");
}
