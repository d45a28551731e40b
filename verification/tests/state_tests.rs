//! The session-lifecycle scenarios: reservation under capacity limits, port
//! accounting across create and delete, idempotent deletes, rollback of a
//! failed handshake, and the idle-session reaper.

use xenon::browser::{BrowserConfig, Capabilities};
use xenon::config::XenonConfig;
use xenon::error::XenonError;
use xenon::portmanager::PortStatus;
use xenon::response::XenonResponse;
use xenon::router::reserve_available_session;
use xenon::session::{Session, XenonSessionId};
use xenon::state::XenonState;

fn firefox_config(max_sessions: u32, driver: &str) -> XenonConfig {
    let mut config = XenonConfig::new();
    config.browsers = vec![BrowserConfig::new(
        "firefox".to_string(),
        None,
        None,
        Some(driver.to_string()),
        Some(vec!["30".to_string()]),
        1,
        max_sessions,
    )];
    config.ports = vec!["5000-5100".to_string()];
    config
}

fn firefox_caps() -> Capabilities {
    Capabilities::new("firefox".to_string(), None, None)
}

fn local_session(group: &str, port: u16, last: u64) -> Session {
    Session {
        session_id: format!("backend-{}", port),
        service_group: Some(group.to_string()),
        scheme: "http".to_string(),
        authority: format!("localhost:{}", port),
        port,
        last_timestamp: last,
    }
}

/// Three create-session requests against `max_sessions: 2`: two reservations
/// succeed with distinct ids and distinct ports of the configured range, the
/// third reports that no sessions are available.
#[test]
fn test_two_sessions_then_capacity_exhausted() {
    let rt = tokio::runtime::Runtime::new().unwrap();
    rt.block_on(async {
        let mut state = XenonState::new(firefox_config(2, "sleep")).unwrap();
        let caps = firefox_caps();

        let (id1, port1, group1) = reserve_available_session(&mut state, &caps).unwrap();
        let (id2, port2, group2) = reserve_available_session(&mut state, &caps).unwrap();
        assert_eq!(group1, "firefox");
        assert_eq!(group2, "firefox");
        assert_ne!(id1.to_string(), id2.to_string());
        assert_ne!(port1, port2);
        assert!((5000..=5100).contains(&port1));
        assert!((5000..=5100).contains(&port2));

        match reserve_available_session(&mut state, &caps) {
            Err(XenonError::RespondWith(XenonResponse::NoSessionsAvailable)) => {},
            other => panic!("expected NoSessionsAvailable, got {:?}", other),
        }
    });
}

/// Deleting an open session releases its port, and the next create succeeds
/// again (it may reuse the released port).
#[test]
fn test_delete_releases_port_and_reopens_capacity() {
    let rt = tokio::runtime::Runtime::new().unwrap();
    rt.block_on(async {
        let mut state = XenonState::new(firefox_config(2, "sleep")).unwrap();
        let caps = firefox_caps();

        let (id1, port1, group1) = reserve_available_session(&mut state, &caps).unwrap();
        let (_id2, _port2, _) = reserve_available_session(&mut state, &caps).unwrap();
        assert!(state.add_session(id1.clone(), local_session(&group1, port1, 0)));
        assert_eq!(state.port_manager().status(port1), Some(PortStatus::Taken));

        let removed = state.teardown_session(&id1);
        assert!(removed.is_some());
        assert_eq!(removed.unwrap().port, port1);
        assert_eq!(state.port_manager().status(port1), Some(PortStatus::Available));
        assert!(state.get_session(&id1).is_none());

        let (_id3, port3, _) = reserve_available_session(&mut state, &caps).unwrap();
        assert!((5000..=5100).contains(&port3));
    });
}

/// Deleting an unknown session id is a no-op.
#[test]
fn test_delete_unknown_session_is_noop() {
    let mut state = XenonState::new(firefox_config(2, "sleep")).unwrap();
    let unknown = XenonSessionId::from_string("no-such-session".to_string());
    assert!(state.teardown_session(&unknown).is_none());
    assert!(state.get_session(&unknown).is_none());
    assert!(state.delete_session(&unknown).is_none());
}

/// A failed backend handshake rolls the reservation back: the session table
/// stays empty and the reserved port returns to the pool.
#[test]
fn test_failed_handshake_rolls_back_reservation() {
    let rt = tokio::runtime::Runtime::new().unwrap();
    rt.block_on(async {
        let mut state = XenonState::new(firefox_config(2, "sleep")).unwrap();
        let caps = firefox_caps();
        let (id, port, group) = reserve_available_session(&mut state, &caps).unwrap();
        assert_eq!(state.port_manager().status(port), Some(PortStatus::Taken));

        // the backend answered non-2xx: the client sees it verbatim and the
        // reservation is released
        let body = b"{\"value\":{\"error\":\"boom\"}}".to_vec();
        match xenon::session::handshake_step(500, body.clone()) {
            xenon::session::HandshakeStep::PassThrough(status, bytes) => {
                assert_eq!(status, 500);
                assert_eq!(bytes, body);
            },
            other => panic!("expected PassThrough, got {:?}", other),
        }
        state.release_reservation(&group, port, &id);
        assert_eq!(state.port_manager().status(port), Some(PortStatus::Available));
        assert!(state.get_session(&id).is_none());
    });
}

/// A spawn failure surfaces as an I/O error and releases the locked port.
#[test]
fn test_spawn_failure_releases_port() {
    let rt = tokio::runtime::Runtime::new().unwrap();
    rt.block_on(async {
        let mut state = XenonState::new(firefox_config(2, "binary-that-does-not-exist-anywhere")).unwrap();
        let caps = firefox_caps();
        match reserve_available_session(&mut state, &caps) {
            Err(XenonError::IOError(_)) => {},
            other => panic!("expected IOError, got {:?}", other),
        }
        for p in 5000..=5100u16 {
            assert_eq!(state.port_manager().status(p), Some(PortStatus::Available));
        }
    });
}

/// Sessions idle past 1800 seconds are reaped; a later lookup with the same
/// id finds nothing.
#[test]
fn test_idle_sessions_are_reaped() {
    let rt = tokio::runtime::Runtime::new().unwrap();
    rt.block_on(async {
        let mut state = XenonState::new(firefox_config(2, "sleep")).unwrap();
        let caps = firefox_caps();
        let (id1, port1, group1) = reserve_available_session(&mut state, &caps).unwrap();
        let (id2, port2, group2) = reserve_available_session(&mut state, &caps).unwrap();
        assert!(state.add_session(id1.clone(), local_session(&group1, port1, 500)));
        assert!(state.add_session(id2.clone(), local_session(&group2, port2, 2000)));

        // at t=2000 nothing is idle past the timeout yet
        assert!(state.get_timeout_sessions(2000).is_empty());

        // at t=500+1800+1 the first session has expired, the second has not
        let reaped = state.reap_timeout_sessions(2301);
        assert_eq!(reaped.len(), 1);
        assert_eq!(reaped[0].to_string(), id1.to_string());
        assert!(state.get_session(&id1).is_none());
        assert!(state.get_session(&id2).is_some());
        assert_eq!(state.port_manager().status(port1), Some(PortStatus::Available));
        assert_eq!(state.port_manager().status(port2), Some(PortStatus::Taken));
    });
}

/// Touching a session refreshes its idle clock.
#[test]
fn test_touch_session_defers_timeout() {
    let rt = tokio::runtime::Runtime::new().unwrap();
    rt.block_on(async {
        let mut state = XenonState::new(firefox_config(1, "sleep")).unwrap();
        let caps = firefox_caps();
        let (id, port, group) = reserve_available_session(&mut state, &caps).unwrap();
        assert!(state.add_session(id.clone(), local_session(&group, port, 0)));
        assert!(state.touch_session(&id, 1900));
        // without the touch this would have timed out
        assert!(state.get_timeout_sessions(1900).is_empty());
        assert_eq!(state.get_session(&id).unwrap().last_timestamp, 1900);
        assert!(!state.touch_session(&XenonSessionId::from_string("x".to_string()), 0));
    });
}

/// A local session whose reservation is missing is refused by the table, so
/// the table never points at a missing backend.
#[test]
fn test_add_session_refuses_unbacked_local_session() {
    let mut state = XenonState::new(firefox_config(2, "sleep")).unwrap();
    let id = XenonSessionId::new();
    assert!(!state.add_session(id.clone(), local_session("firefox", 5000, 0)));
    assert!(state.get_session(&id).is_none());

    // a remote session (no service group) is always accepted
    let remote = Session {
        session_id: "remote-backend".to_string(),
        service_group: None,
        scheme: "http".to_string(),
        authority: "peer:4444".to_string(),
        port: 4444,
        last_timestamp: 0,
    };
    assert!(state.add_session(id.clone(), remote));
    assert!(state.get_session(&id).is_some());
}

/// After real reservations the invariants hold concretely: group totals stay
/// within `max_sessions`, services within `sessions_per_driver`, every taken
/// port belongs to a service, and every tabled local session is attached to
/// its group.
#[test]
fn test_invariants_hold_on_live_state() {
    let rt = tokio::runtime::Runtime::new().unwrap();
    rt.block_on(async {
        let mut state = XenonState::new(firefox_config(2, "sleep")).unwrap();
        let caps = firefox_caps();
        let (id1, port1, group1) = reserve_available_session(&mut state, &caps).unwrap();
        let (_id2, port2, _) = reserve_available_session(&mut state, &caps).unwrap();
        assert!(state.add_session(id1.clone(), local_session(&group1, port1, 0)));

        // session totals within the configured budgets
        let mut total = 0;
        let mut budget = 0;
        for group in state.service_groups() {
            total += group.total_sessions();
            budget += group.browser.max_sessions as usize;
            for service in &group.services {
                assert!(service.num_active_sessions() <= group.browser.sessions_per_driver as usize);
            }
        }
        assert!(total <= budget);
        assert_eq!(total, 2);

        // every taken port is owned by exactly one service
        for port in [port1, port2] {
            assert_eq!(state.port_manager().status(port), Some(PortStatus::Taken));
            let owners = state
                .service_groups()
                .iter()
                .flat_map(|g| g.services.iter())
                .filter(|svc| svc.port() == port)
                .count();
            assert_eq!(owners, 1);
        }

        // the tabled session is attached to its group at its port
        let session = state.get_session(&id1).unwrap();
        let group_name = session.service_group.clone().unwrap();
        let port = session.port;
        let group = state
            .service_groups()
            .iter()
            .find(|g| g.browser.name == group_name)
            .unwrap();
        assert!(group.has_session_on_port(port, &id1));
    });
}
