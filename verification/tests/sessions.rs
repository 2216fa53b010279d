use kuboard::sessions::forward_target_supported;
use kuboard::sessions::ExecSession;
use kuboard::sessions::PortForwardSession;

#[test]
fn port_forward_session_records_its_target() {
    let s = PortForwardSession::new(
        "pod".to_string(),
        "web-0".to_string(),
        "default".to_string(),
        8080,
        80,
        Some("nginx".to_string()),
    );
    assert_eq!(s.resource_type, "pod");
    assert_eq!(s.resource_name, "web-0");
    assert_eq!(s.namespace, "default");
    assert_eq!(s.local_port, 8080);
    assert_eq!(s.remote_port, 80);
    assert_eq!(s.container_name, Some("nginx".to_string()));
    // The identifier really is a fresh draw, not a constant or an echo.
    assert_eq!(s.session_id.len(), 36);
    let t = PortForwardSession::new(
        "pod".to_string(),
        "web-0".to_string(),
        "default".to_string(),
        8080,
        80,
        None,
    );
    assert_ne!(s.session_id, t.session_id);
}

#[test]
fn url_names_the_local_port() {
    let s = PortForwardSession::new(
        "service".to_string(),
        "api".to_string(),
        "default".to_string(),
        8080,
        443,
        None,
    );
    assert_eq!(s.url(), "http://localhost:8080");
    let t = PortForwardSession::new(
        "service".to_string(),
        "api".to_string(),
        "default".to_string(),
        65535,
        443,
        None,
    );
    assert_eq!(t.url(), "http://localhost:65535");
}

#[test]
fn only_pods_and_services_can_be_forwarded() {
    assert!(forward_target_supported(&"pod".to_string()));
    assert!(forward_target_supported(&"service".to_string()));
    assert!(!forward_target_supported(&"deployment".to_string()));
    assert!(!forward_target_supported(&"".to_string()));
}

#[test]
fn exec_session_records_its_pod() {
    let s = ExecSession::new("web-0".to_string(), "default".to_string(), None);
    assert_eq!(s.pod_name, "web-0");
    assert_eq!(s.namespace, "default");
    assert_eq!(s.container_name, None);
    assert_eq!(s.session_id.len(), 36);
}
