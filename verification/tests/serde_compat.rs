//! Cross-checks of the codec against serde_json on the same documents.

use relay_core::decode::decode_io_call;
use relay_core::encode::encode_io_call;
use relay_core::record::IOCall;

#[test]
fn encoded_record_is_valid_json_with_the_same_fields() {
    let body = encode_io_call(&IOCall { status: Some(42), msg: Some("hi\nthere\u{1}".to_string()) });
    let value: serde_json::Value = serde_json::from_str(&body).unwrap();
    assert_eq!(value.get("status").and_then(|v| v.as_i64()), Some(42));
    assert_eq!(value.get("msg").and_then(|v| v.as_str()), Some("hi\nthere\u{1}"));
}

#[test]
fn string_escaping_matches_serde_json_exactly() {
    let msg = "quote\" back\\ nl\n tab\t cr\r bs\u{8} ff\u{c} ctl\u{1f} nul\u{0} ok😀";
    let reference = format!(
        "{{\"status\":-17,\"msg\":{}}}",
        serde_json::to_string(&serde_json::Value::from(msg)).unwrap()
    );
    let ours = encode_io_call(&IOCall { status: Some(-17), msg: Some(msg.to_string()) });
    assert_eq!(ours, reference);
}

#[test]
fn decoding_accepts_what_serde_json_serializes() {
    let mut map = serde_json::Map::new();
    map.insert("status".to_string(), serde_json::Value::from(7i64));
    map.insert("msg".to_string(), serde_json::Value::from("päyload"));
    let body = serde_json::to_string(&serde_json::Value::Object(map)).unwrap();
    let r = decode_io_call(&body).unwrap();
    assert_eq!(r.status, Some(7));
    assert_eq!(r.msg.as_deref(), Some("päyload"));
}

#[test]
fn decoding_agrees_with_serde_json_on_acceptance() {
    let documents = vec![
        "{\"status\": 1, \"msg\": \"a\"}",
        "{\"status\":01}",
        "{\"msg\":\"\\uD800\"}",
        "[]",
        "{\"a\":{\"b\":[1,2,3]},\"msg\":\"x\"}",
        "{\"status\":1,} ",
        "{\"msg\":\"\\u0041\"}",
    ];
    for doc in documents {
        let serde_ok = serde_json::from_str::<serde_json::Value>(doc).is_ok()
            && serde_json::from_str::<serde_json::Value>(doc).unwrap().is_object();
        let ours_ok = decode_io_call(doc).is_some();
        assert_eq!(ours_ok, serde_ok, "disagreement on {}", doc);
    }
}
