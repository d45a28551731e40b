//! Federated node bookkeeping: registration, monotonic updates,
//! deregistration, the advertised inventory, and remote candidate selection.

use xenon::browser::{BrowserConfig, Capabilities};
use xenon::config::XenonConfig;
use xenon::error::XenonError;
use xenon::nodes::{NodeId, RemoteNodeCreate, RemoteServiceGroup, parse_url};
use xenon::response::XenonResponse;
use xenon::router::{reserve_available_session, remote_failure_error};
use xenon::state::{RemoteNodeUpdate, XenonState};

fn browser(name: &str) -> BrowserConfig {
    BrowserConfig::new(name.to_string(), None, None, Some("driver".to_string()), None, 1, 5)
}

fn caps(name: &str) -> Capabilities {
    Capabilities::new(name.to_string(), None, None)
}

fn remote_group(name: &str, remaining: u32) -> RemoteServiceGroup {
    RemoteServiceGroup { browser: browser(name), remaining_sessions: remaining }
}

fn node_create(name: &str, url: &str, groups: Vec<RemoteServiceGroup>) -> RemoteNodeCreate {
    RemoteNodeCreate { name: name.to_string(), url: url.to_string(), service_groups: groups }
}

fn empty_state() -> XenonState {
    XenonState::new(XenonConfig::new()).unwrap()
}

#[test]
fn test_parse_url_splits_scheme_and_authority() {
    let (scheme, authority) = parse_url("http://example.com:4444/wd").unwrap();
    assert_eq!(scheme, "http");
    assert_eq!(authority, "example.com:4444");
    assert!(parse_url("ht tp://bad url").is_none());
}

#[test]
fn test_register_and_deregister_node() {
    let mut state = empty_state();
    let id = state
        .register_node(node_create("peer", "http://peer:4444", vec![]))
        .unwrap();
    assert_eq!(state.remote_nodes().len(), 1);
    assert_eq!(state.remote_nodes()[0].comms_id, 0);
    assert_eq!(state.remote_nodes()[0].name, "peer");
    assert_eq!(state.remote_nodes()[0].scheme, "http");
    assert_eq!(state.remote_nodes()[0].authority, "peer:4444");

    assert!(state.deregister_node(&id).is_ok());
    assert!(state.remote_nodes().is_empty());
    match state.deregister_node(&id) {
        Err(XenonError::RespondWith(XenonResponse::NodeNotFound(_))) => {},
        other => panic!("expected NodeNotFound, got {:?}", other),
    }
}

#[test]
fn test_register_node_rejects_bad_url() {
    let mut state = empty_state();
    match state.register_node(node_create("peer", "not a url at all", vec![])) {
        Err(XenonError::RespondWith(XenonResponse::ErrorCreatingNode(_))) => {},
        other => panic!("expected ErrorCreatingNode, got {:?}", other),
    }
    assert!(state.remote_nodes().is_empty());
}

fn update(id: &NodeId, comms_id: u128, groups: Vec<RemoteServiceGroup>) -> RemoteNodeUpdate {
    RemoteNodeUpdate {
        id: id.clone(),
        name: format!("peer-gen-{}", comms_id),
        url: "http://peer:4444".to_string(),
        comms_id,
        service_groups: groups,
    }
}

/// Two updates with generation counters 7 and then 5, in either order,
/// leave the stored counter at 7 with the 7-generation inventory.
#[test]
fn test_update_node_is_monotonic_in_either_order() {
    for first_is_seven in [true, false] {
        let mut state = empty_state();
        let id = state
            .register_node(node_create("peer", "http://peer:4444", vec![]))
            .unwrap();
        let seven = update(&id, 7, vec![remote_group("firefox", 3)]);
        let five = update(&id, 5, vec![remote_group("chrome", 9)]);
        if first_is_seven {
            assert!(state.update_node(seven).is_ok());
            assert!(state.update_node(five).is_ok());
        } else {
            assert!(state.update_node(five).is_ok());
            assert!(state.update_node(seven).is_ok());
        }
        let node = &state.remote_nodes()[0];
        assert_eq!(node.comms_id, 7);
        assert_eq!(node.name, "peer-gen-7");
        assert_eq!(node.service_groups.len(), 1);
        assert_eq!(node.service_groups[0].browser.name, "firefox");
        assert_eq!(node.service_groups[0].remaining_sessions, 3);
    }
}

#[test]
fn test_update_unknown_node_fails() {
    let mut state = empty_state();
    let ghost_id = NodeId::new();
    match state.update_node(update(&ghost_id, 3, vec![])) {
        Err(XenonError::RespondWith(XenonResponse::NodeNotFound(_))) => {},
        other => panic!("expected NodeNotFound, got {:?}", other),
    }
}

#[test]
fn test_node_config_reports_full_budget() {
    let mut config = XenonConfig::new();
    config.browsers = vec![browser("firefox"), browser("chrome")];
    let state = XenonState::new(config).unwrap();
    let advertised = state.node_config_groups();
    assert_eq!(advertised.len(), 2);
    assert_eq!(advertised[0].browser.name, "firefox");
    assert_eq!(advertised[0].remaining_sessions, 5);
    assert_eq!(advertised[1].browser.name, "chrome");
    assert_eq!(advertised[1].remaining_sessions, 5);
}

#[test]
fn test_remote_candidates_require_match_and_capacity() {
    let mut state = empty_state();
    state
        .register_node(node_create(
            "full-peer",
            "http://full:4444",
            vec![remote_group("firefox", 0)],
        ))
        .unwrap();
    state
        .register_node(node_create(
            "free-peer",
            "http://free:4444",
            vec![remote_group("firefox", 2)],
        ))
        .unwrap();

    let (cands, matched) = state.remote_candidates(&caps("firefox"));
    assert!(matched);
    assert_eq!(cands.len(), 1);
    assert_eq!(cands[0].authority, "free:4444");
    assert!(cands[0].display_name.starts_with("free-peer ("));

    let (none, matched_chrome) = state.remote_candidates(&caps("chrome"));
    assert!(none.is_empty());
    assert!(!matched_chrome);
    match remote_failure_error(matched_chrome) {
        XenonError::RespondWith(XenonResponse::NoMatchingBrowser) => {},
        other => panic!("expected NoMatchingBrowser, got {:?}", other),
    }
    match remote_failure_error(matched) {
        XenonError::RespondWith(XenonResponse::NoSessionsAvailable) => {},
        other => panic!("expected NoSessionsAvailable, got {:?}", other),
    }
}

/// A chrome request on a firefox-only configuration reports "no matching
/// browser", which maps to a 404.
#[test]
fn test_no_matching_browser_on_foreign_capabilities() {
    let mut config = XenonConfig::new();
    config.browsers = vec![browser("firefox")];
    config.ports = vec!["5000-5100".to_string()];
    let mut state = XenonState::new(config).unwrap();
    match reserve_available_session(&mut state, &caps("chrome")) {
        Err(XenonError::RespondWith(resp)) => {
            assert!(matches!(resp, XenonResponse::NoMatchingBrowser));
            assert_eq!(resp.status(), 404);
            assert_eq!(resp.error_code(), "session not created");
        },
        other => panic!("expected NoMatchingBrowser, got {:?}", other),
    }
}

#[test]
fn test_update_with_bad_url_is_rejected() {
    let mut state = empty_state();
    let id = state
        .register_node(node_create("peer", "http://peer:4444", vec![]))
        .unwrap();
    let mut bad = update(&id, 9, vec![remote_group("firefox", 1)]);
    bad.url = "ht tp://broken".to_string();
    match state.update_node(bad) {
        Err(XenonError::RespondWith(XenonResponse::ErrorUpdatingNode(_))) => {},
        other => panic!("expected ErrorUpdatingNode, got {:?}", other),
    }
    // the node is untouched
    assert_eq!(state.remote_nodes()[0].comms_id, 0);
    assert_eq!(state.remote_nodes()[0].url, "http://peer:4444");
}

#[test]
fn test_bootstrap_inventory_refresh() {
    let mut state = empty_state();
    let id = state
        .register_node(node_create("peer", "http://peer:4444", vec![]))
        .unwrap();
    assert!(state.set_node_groups(&id, vec![remote_group("firefox", 4)]));
    assert_eq!(state.remote_nodes()[0].service_groups.len(), 1);
    assert_eq!(state.remote_nodes()[0].service_groups[0].remaining_sessions, 4);
    assert_eq!(state.remote_nodes()[0].comms_id, 0);
    assert!(!state.set_node_groups(&NodeId::new(), vec![]));
}
