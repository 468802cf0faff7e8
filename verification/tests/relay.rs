use relay_core::config::startup_config;
use relay_core::relay::{
    misconfig_reply, relay_reply, static_reply, upstream_target, ContentKind, UpstreamOutcome,
};

#[test]
fn static_route_always_says_hello() {
    let r = static_reply();
    assert_eq!(r.status, 200);
    assert!(matches!(r.kind, ContentKind::PlainText));
    assert_eq!(r.body, "Hello, World!");
    // unaffected by any earlier failed proxy request
    let _ = relay_reply(UpstreamOutcome::TransportFailed);
    let again = static_reply();
    assert_eq!(again.status, 200);
    assert_eq!(again.body, "Hello, World!");
}

#[test]
fn delivered_record_is_relayed_as_json() {
    let r = relay_reply(UpstreamOutcome::Delivered(
        "{\"status\": 200, \"msg\": \"fine\"}".to_string(),
    ));
    assert_eq!(r.status, 200);
    assert!(matches!(r.kind, ContentKind::Json));
    assert_eq!(r.body, "{\"status\":200,\"msg\":\"fine\"}");
}

#[test]
fn non_json_body_fails_only_with_a_reply() {
    let r = relay_reply(UpstreamOutcome::Delivered("<html>oops</html>".to_string()));
    assert_eq!(r.status, 502);
    assert!(matches!(r.kind, ContentKind::PlainText));
    assert_eq!(r.body, "upstream body was not a JSON record");
    let r2 = relay_reply(UpstreamOutcome::BodyUnreadable);
    assert_eq!(r2.status, 502);
    assert_eq!(r2.body, "upstream body was not a JSON record");
}

#[test]
fn transport_failure_maps_to_bad_gateway() {
    let r = relay_reply(UpstreamOutcome::TransportFailed);
    assert_eq!(r.status, 502);
    assert!(matches!(r.kind, ContentKind::PlainText));
    assert_eq!(r.body, "upstream request failed");
}

#[test]
fn misconfiguration_maps_to_server_error() {
    let r = misconfig_reply();
    assert_eq!(r.status, 500);
    assert!(matches!(r.kind, ContentKind::PlainText));
    assert_eq!(r.body, "EXTERNAL_URL is not a valid URL");
}

#[test]
fn upstream_target_accepts_a_url_and_refuses_garbage() {
    let good = startup_config(Some("http://127.0.0.1:9000/data".to_string()), 8001).unwrap();
    assert!(upstream_target(&good).is_some());
    let bad = startup_config(Some("".to_string()), 8001).unwrap();
    assert!(upstream_target(&bad).is_none());
}

#[test]
fn each_delivered_body_gets_its_own_reply() {
    let bodies: Vec<String> = (0..16)
        .map(|k| format!("{{\"status\":{},\"msg\":\"call-{}\"}}", k, k))
        .collect();
    for (k, body) in bodies.iter().enumerate() {
        let r = relay_reply(UpstreamOutcome::Delivered(body.clone()));
        assert_eq!(r.status, 200);
        assert_eq!(r.body, format!("{{\"status\":{},\"msg\":\"call-{}\"}}", k, k));
    }
}
