use relay_core::config::{startup_config, step_is_fatal, SocketStep, StartupError, LISTEN_BACKLOG};

#[test]
fn missing_upstream_url_refuses_startup() {
    let r = startup_config(None, 8001);
    assert!(r.is_err());
    let e = r.err().unwrap();
    assert!(matches!(e, StartupError::MissingExternalUrl));
    assert_eq!(e.text(), "Set EXTERNAL_URL env variable");
}

#[test]
fn present_upstream_url_fixes_the_listener() {
    let c = startup_config(Some("http://10.0.0.1/".to_string()), 8001).unwrap();
    assert_eq!(c.external_url, "http://10.0.0.1/");
    assert_eq!(c.listener.port, 8001);
    assert_eq!(c.listener.backlog, 1024);
    assert_eq!(c.listener.backlog, LISTEN_BACKLOG);
    assert!(c.listener.reuse_port);
    assert!(c.listener.reuse_addr);
    assert!(c.listener.tcp_nodelay);
    assert!(c.listener.http1_only);
    assert!(c.listener.pipeline_flush);
}

#[test]
fn only_reuse_port_failure_is_tolerated() {
    assert!(!step_is_fatal(&SocketStep::SetReusePort));
    assert!(step_is_fatal(&SocketStep::SetReuseAddr));
    assert!(step_is_fatal(&SocketStep::Bind));
    assert!(step_is_fatal(&SocketStep::Listen));
}
