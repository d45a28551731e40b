//! Path classification, session-id translation, the readiness probe and the
//! forwarding-path construction.

use xenon::error::XenonError;
use xenon::response::XenonResponse;
use xenon::router::{
    Route, SessionRoute, NodeRoute, combine_create_errors, join_slash, node_route,
    route_top_level, session_route, should_try_remote, split_path, strip_selenium_prefix,
    trim_slashes,
};
use xenon::session::{
    ConnectionResp, ProbeStep, Session, XenonSessionId, authority_port, handshake_step,
    is_success_status, probe_step, probe_timeout_error, HandshakeStep,
};
use xenon::strutil::{parse_u16, u16_string};

fn strs(v: &[&str]) -> Vec<String> {
    v.iter().map(|s| s.to_string()).collect()
}

#[test]
fn test_trim_and_split_path() {
    assert_eq!(trim_slashes("/wd/hub/session/"), "wd/hub/session");
    assert_eq!(trim_slashes("///"), "");
    assert_eq!(trim_slashes("status"), "status");
    assert_eq!(split_path("/session/abc/url"), strs(&["session", "abc", "url"]));
    assert_eq!(split_path("/"), strs(&[""]));
    assert_eq!(split_path(""), strs(&[""]));
    assert_eq!(split_path("/a//b/"), strs(&["a", "", "b"]));
}

#[test]
fn test_route_top_level() {
    assert_eq!(route_top_level(&"".to_string()), Route::Root);
    assert_eq!(route_top_level(&"session".to_string()), Route::Session);
    assert_eq!(route_top_level(&"wd".to_string()), Route::SessionCompat);
    assert_eq!(route_top_level(&"node".to_string()), Route::Node);
    assert_eq!(route_top_level(&"status".to_string()), Route::Status);
    assert_eq!(route_top_level(&"bogus".to_string()), Route::NotFound);
}

#[test]
fn test_strip_selenium_prefix() {
    assert_eq!(
        strip_selenium_prefix(strs(&["wd", "hub", "session", "abc"])),
        strs(&["session", "abc"])
    );
    assert_eq!(strip_selenium_prefix(strs(&["wd", "hub"])), strs(&["wd", "hub"]));
    assert_eq!(strip_selenium_prefix(strs(&["session", "abc"])), strs(&["session", "abc"]));
}

#[test]
fn test_session_route_dispatch() {
    match session_route(&strs(&["session"]), &"POST".to_string()) {
        SessionRoute::CreateSession => {},
        other => panic!("expected CreateSession, got {:?}", other),
    }
    match session_route(&strs(&["session"]), &"GET".to_string()) {
        SessionRoute::MethodNotFound(p) => assert_eq!(p, "session"),
        other => panic!("expected MethodNotFound, got {:?}", other),
    }
    match session_route(&strs(&["session", "abc", "url", "x"]), &"POST".to_string()) {
        SessionRoute::Forward { xsession_id, remaining_path, is_delete } => {
            assert_eq!(xsession_id.to_string(), "abc");
            assert_eq!(remaining_path, "url/x");
            assert!(!is_delete);
        },
        other => panic!("expected Forward, got {:?}", other),
    }
    match session_route(&strs(&["session", "abc"]), &"DELETE".to_string()) {
        SessionRoute::Forward { is_delete, remaining_path, .. } => {
            assert!(is_delete);
            assert_eq!(remaining_path, "");
        },
        other => panic!("expected Forward, got {:?}", other),
    }
}

#[test]
fn test_node_route_dispatch() {
    assert!(matches!(node_route(&strs(&["node", "config"]), &"GET".to_string()), NodeRoute::Config));
    assert!(matches!(node_route(&strs(&["node", "register"]), &"POST".to_string()), NodeRoute::Register));
    assert!(matches!(node_route(&strs(&["node", "update"]), &"POST".to_string()), NodeRoute::Update));
    assert!(matches!(node_route(&strs(&["node", "deregister"]), &"POST".to_string()), NodeRoute::Deregister));
    match node_route(&strs(&["node"]), &"GET".to_string()) {
        NodeRoute::NotFound(p) => assert_eq!(p, "node"),
        other => panic!("expected NotFound, got {:?}", other),
    }
    assert!(matches!(node_route(&strs(&["node", "config"]), &"POST".to_string()), NodeRoute::NotFound(_)));
}

#[test]
fn test_join_slash() {
    assert_eq!(join_slash(&strs(&["a", "b", "c"]), 0), "a/b/c");
    assert_eq!(join_slash(&strs(&["a", "b", "c"]), 1), "b/c");
    assert_eq!(join_slash(&strs(&["a", "b", "c"]), 3), "");
}

/// Both session ids in the body returned to the client are the Xenon-minted
/// id, never the backend's.
#[test]
fn test_create_session_rewrites_both_ids() {
    let xid = XenonSessionId::from_string("xenon-id-1234".to_string());
    let resp = ConnectionResp {
        session_id: "top-backend-id".to_string(),
        value_session_id: "value-backend-id".to_string(),
    };
    let (session, out) = Session::create(
        "http".to_string(),
        "localhost:5000".to_string(),
        Some("firefox".to_string()),
        &resp,
        &xid,
        42,
    )
    .unwrap();
    // value.sessionId wins when non-empty
    assert_eq!(session.session_id, "value-backend-id");
    assert_eq!(session.port, 5000);
    assert_eq!(session.last_timestamp, 42);
    assert_eq!(out.session_id, "xenon-id-1234");
    assert_eq!(out.value_session_id, "xenon-id-1234");

    // with an empty value.sessionId the top-level id is the backend's
    let resp2 = ConnectionResp {
        session_id: "top-backend-id".to_string(),
        value_session_id: "".to_string(),
    };
    let (session2, _) = Session::create(
        "http".to_string(),
        "localhost:5001".to_string(),
        None,
        &resp2,
        &xid,
        0,
    )
    .unwrap();
    assert_eq!(session2.session_id, "top-backend-id");

    // an authority without a port is refused
    match Session::create("http".to_string(), "localhost".to_string(), None, &resp2, &xid, 0) {
        Err(XenonError::RespondWith(XenonResponse::ErrorCreatingSession(m))) => {
            assert_eq!(m, "Port not recognised");
        },
        other => panic!("expected ErrorCreatingSession, got {:?}", other),
    }
}

#[test]
fn test_probe_caps_at_thirty_attempts() {
    assert_eq!(probe_step(0, true), ProbeStep::Ready);
    assert_eq!(probe_step(29, false), ProbeStep::Retry);
    assert_eq!(probe_step(30, false), ProbeStep::TimedOut);
    match probe_timeout_error() {
        XenonError::RespondWith(XenonResponse::ErrorCreatingSession(m)) => {
            assert_eq!(m, "Timed out waiting for WebDriver");
        },
        other => panic!("expected ErrorCreatingSession, got {:?}", other),
    }
}

#[test]
fn test_handshake_and_status_classification() {
    assert!(is_success_status(200));
    assert!(is_success_status(299));
    assert!(!is_success_status(300));
    assert!(!is_success_status(199));
    match handshake_step(201, vec![1, 2, 3]) {
        HandshakeStep::Parse(b) => assert_eq!(b, vec![1, 2, 3]),
        other => panic!("expected Parse, got {:?}", other),
    }
}

#[test]
fn test_forward_path_construction() {
    let session = Session {
        session_id: "backend-77".to_string(),
        service_group: None,
        scheme: "http".to_string(),
        authority: "localhost:5000".to_string(),
        port: 5000,
        last_timestamp: 0,
    };
    assert_eq!(session.forward_path("", None), "/session/backend-77");
    assert_eq!(session.forward_path("url", None), "/session/backend-77/url");
    assert_eq!(
        session.forward_path("element/click", Some("depth=2")),
        "/session/backend-77/element/click?depth=2"
    );
}

#[test]
fn test_local_to_remote_fallback_order() {
    let no_sessions = || XenonError::RespondWith(XenonResponse::NoSessionsAvailable);
    let no_match = || XenonError::RespondWith(XenonResponse::NoMatchingBrowser);
    assert!(should_try_remote(&no_sessions()));
    assert!(should_try_remote(&no_match()));
    assert!(!should_try_remote(&XenonError::InvalidPort));

    // local capacity pressure dominates a remote "no matching browser"
    match combine_create_errors(no_sessions(), no_match()) {
        XenonError::RespondWith(XenonResponse::NoSessionsAvailable) => {},
        other => panic!("expected NoSessionsAvailable, got {:?}", other),
    }
    match combine_create_errors(no_match(), no_sessions()) {
        XenonError::RespondWith(XenonResponse::NoSessionsAvailable) => {},
        other => panic!("expected NoSessionsAvailable, got {:?}", other),
    }
}

#[test]
fn test_number_helpers() {
    assert_eq!(parse_u16("2000"), Some(2000));
    assert_eq!(parse_u16("+2000"), Some(2000));
    assert_eq!(parse_u16("65535"), Some(65535));
    assert_eq!(parse_u16("65536"), None);
    assert_eq!(parse_u16(""), None);
    assert_eq!(parse_u16("20x0"), None);
    assert_eq!(u16_string(0), "0");
    assert_eq!(u16_string(4444), "4444");
    assert_eq!(u16_string(65535), "65535");
    assert_eq!(authority_port("localhost:4444"), Some(4444));
    assert_eq!(authority_port("localhost"), None);
    assert_eq!(authority_port("host:"), None);
    assert_eq!(authority_port("[::1]:8080"), Some(8080));
}

#[test]
fn test_error_envelope_codes() {
    let endpoint = XenonResponse::EndpointNotFound("x".to_string());
    assert_eq!(endpoint.status(), 400);
    assert_eq!(endpoint.error_code(), "unknown method");
    assert_eq!(endpoint.message(), "x");
    let not_found = XenonResponse::SessionNotFound("id".to_string());
    assert_eq!(not_found.status(), 500);
    assert_eq!(not_found.error_code(), "invalid session id");
    let no_match = XenonResponse::NoMatchingBrowser;
    assert_eq!(no_match.status(), 404);
    assert_eq!(no_match.message(), "No browser was found to match the desired capabilities");
    let no_sessions = XenonResponse::NoSessionsAvailable;
    assert_eq!(no_sessions.status(), 404);
    assert_eq!(no_sessions.message(), "Session limit reached. No available sessions");
}

#[test]
fn test_session_and_node_ids_are_fresh_uuids() {
    let a = XenonSessionId::new();
    let b = XenonSessionId::new();
    assert_eq!(a.to_string().len(), 36);
    assert_ne!(a.to_string(), b.to_string());
    let n = xenon::nodes::NodeId::new();
    assert_eq!(n.to_string().len(), 36);
}
