use relay_core::decode::decode_io_call;
use relay_core::encode::encode_io_call;
use relay_core::record::IOCall;

fn rec(status: Option<i64>, msg: Option<&str>) -> IOCall {
    IOCall { status, msg: msg.map(|m| m.to_string()) }
}

#[test]
fn encode_plain_record() {
    let body = encode_io_call(&rec(Some(200), Some("hello")));
    assert_eq!(body, "{\"status\":200,\"msg\":\"hello\"}");
}

#[test]
fn encode_absent_fields_as_null() {
    let body = encode_io_call(&rec(None, None));
    assert_eq!(body, "{\"status\":null,\"msg\":null}");
}

#[test]
fn encode_negative_and_extreme_status() {
    assert_eq!(encode_io_call(&rec(Some(-7), None)), "{\"status\":-7,\"msg\":null}");
    assert_eq!(
        encode_io_call(&rec(Some(i64::MIN), None)),
        "{\"status\":-9223372036854775808,\"msg\":null}"
    );
    assert_eq!(
        encode_io_call(&rec(Some(i64::MAX), None)),
        "{\"status\":9223372036854775807,\"msg\":null}"
    );
    assert_eq!(encode_io_call(&rec(Some(0), None)), "{\"status\":0,\"msg\":null}");
}

#[test]
fn encode_escapes_msg() {
    let body = encode_io_call(&rec(Some(1), Some("a\"b\\c\nd\te\r\u{8}\u{c}\u{1}f")));
    assert_eq!(
        body,
        "{\"status\":1,\"msg\":\"a\\\"b\\\\c\\nd\\te\\r\\b\\f\\u0001f\"}"
    );
}

#[test]
fn encode_leaves_unicode_unescaped() {
    let body = encode_io_call(&rec(None, Some("héllo😀")));
    assert_eq!(body, "{\"status\":null,\"msg\":\"héllo😀\"}");
}

#[test]
fn decode_plain_record() {
    let r = decode_io_call(" { \"status\" : 7 , \"msg\" : \"ok\" } ").unwrap();
    assert_eq!(r.status, Some(7));
    assert_eq!(r.msg.as_deref(), Some("ok"));
}

#[test]
fn decode_empty_object() {
    let r = decode_io_call("{}").unwrap();
    assert_eq!(r.status, None);
    assert_eq!(r.msg, None);
}

#[test]
fn decode_degrades_mismatched_types() {
    let r = decode_io_call("{\"status\":\"high\",\"msg\":5}").unwrap();
    assert_eq!(r.status, None);
    assert_eq!(r.msg, None);
}

#[test]
fn decode_degrades_float_and_exponent_and_overflow() {
    assert_eq!(decode_io_call("{\"status\":1.5}").unwrap().status, None);
    assert_eq!(decode_io_call("{\"status\":1e3}").unwrap().status, None);
    assert_eq!(
        decode_io_call("{\"status\":99999999999999999999999}").unwrap().status,
        None
    );
    assert_eq!(
        decode_io_call("{\"status\":-9223372036854775808}").unwrap().status,
        Some(i64::MIN)
    );
    assert_eq!(
        decode_io_call("{\"status\":9223372036854775807}").unwrap().status,
        Some(i64::MAX)
    );
    assert_eq!(decode_io_call("{\"status\":-9223372036854775809}").unwrap().status, None);
}

#[test]
fn decode_ignores_unknown_members() {
    let r = decode_io_call(
        "{\"extra\":[1,2,{\"a\":true,\"b\":[null,false]}],\"status\":3,\"note\":\"x\"}",
    )
    .unwrap();
    assert_eq!(r.status, Some(3));
    assert_eq!(r.msg, None);
}

#[test]
fn decode_refuses_duplicate_known_keys() {
    assert!(decode_io_call("{\"status\":1,\"status\":2}").is_none());
    assert!(decode_io_call("{\"msg\":\"a\",\"msg\":\"b\"}").is_none());
}

#[test]
fn decode_refuses_non_objects() {
    assert!(decode_io_call("[1]").is_none());
    assert!(decode_io_call("\"x\"").is_none());
    assert!(decode_io_call("5").is_none());
    assert!(decode_io_call("null").is_none());
    assert!(decode_io_call("").is_none());
    assert!(decode_io_call("   ").is_none());
}

#[test]
fn decode_refuses_malformed_documents() {
    assert!(decode_io_call("{\"status\":01}").is_none());
    assert!(decode_io_call("{\"status\":1,}").is_none());
    assert!(decode_io_call("{\"status\":1") .is_none());
    assert!(decode_io_call("{\"status\":1}x").is_none());
    assert!(decode_io_call("{'status':1}").is_none());
    assert!(decode_io_call("{\"msg\":\"unterminated}").is_none());
    assert!(decode_io_call("{\"msg\":\"bad\\q\"}").is_none());
    assert!(decode_io_call("{\"msg\":\"lone\\uD800\"}").is_none());
}

#[test]
fn decode_resolves_escapes() {
    let r = decode_io_call(
        "{\"msg\":\"a\\nb\\u0041c\\uD83D\\uDE00d\\\"e\\\\f\\/g\\b\\f\\r\\t\"}",
    )
    .unwrap();
    assert_eq!(r.msg.as_deref(), Some("a\nbAc😀d\"e\\f/g\u{8}\u{c}\r\t"));
}

#[test]
fn decode_accepts_arrays_and_nesting_in_unknown_members() {
    let r = decode_io_call("{\"a\":[[],[[1,2],{}],true,false,null],\"msg\":\"m\"}").unwrap();
    assert_eq!(r.msg.as_deref(), Some("m"));
}

#[test]
fn round_trip_returns_the_same_record() {
    let cases: Vec<(Option<i64>, Option<&str>)> = vec![
        (Some(200), Some("hello")),
        (None, None),
        (Some(i64::MIN), Some("")),
        (Some(-1), Some("line\nbreak \"quoted\" back\\slash \u{1}\u{1f} héllo😀")),
        (None, Some("tab\tcr\rbs\u{8}ff\u{c}")),
    ];
    for (status, msg) in cases {
        let original = rec(status, msg);
        let back = decode_io_call(&encode_io_call(&original)).unwrap();
        assert_eq!(back.status, original.status);
        assert_eq!(back.msg, original.msg);
    }
}
