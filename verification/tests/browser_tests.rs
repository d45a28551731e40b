//! Capability matching and browser-entry sanitizing.

use xenon::browser::{BrowserConfig, Capabilities, default_webdriver};
use xenon::error::XenonError;

fn browser(name: &str, version: Option<&str>, os: Option<&str>) -> BrowserConfig {
    BrowserConfig::new(
        name.to_string(),
        version.map(|s| s.to_string()),
        os.map(|s| s.to_string()),
        Some("driver".to_string()),
        None,
        1,
        5,
    )
}

fn caps(name: &str, version: Option<&str>, platform: Option<&str>) -> Capabilities {
    Capabilities::new(
        name.to_string(),
        version.map(|s| s.to_string()),
        platform.map(|s| s.to_string()),
    )
}

#[test]
fn test_matching_is_case_insensitive_on_name() {
    let b = browser("Firefox", None, None);
    assert!(b.matches_capabilities(&caps("firefox", None, None)));
    assert!(b.matches_capabilities(&caps("FIREFOX", None, None)));
    assert!(!b.matches_capabilities(&caps("chrome", None, None)));
}

#[test]
fn test_missing_caller_fields_are_wildcards() {
    let b = browser("firefox", Some("91.0"), Some("linux"));
    assert!(b.matches_capabilities(&caps("firefox", None, None)));
    assert!(b.matches_capabilities(&caps("firefox", Some(""), None)));
    assert!(b.matches_capabilities(&caps("firefox", None, Some("any"))));
    assert!(b.matches_capabilities(&caps("firefox", None, Some("ANY"))));
}

#[test]
fn test_required_version_must_match_exactly() {
    let b = browser("firefox", Some("91.0"), None);
    assert!(b.matches_capabilities(&caps("firefox", Some("91.0"), None)));
    assert!(!b.matches_capabilities(&caps("firefox", Some("92.0"), None)));
    // a missing configured version only matches a missing requirement
    let unversioned = browser("firefox", None, None);
    assert!(!unversioned.matches_capabilities(&caps("firefox", Some("91.0"), None)));
    assert!(unversioned.matches_capabilities(&caps("firefox", None, None)));
}

#[test]
fn test_platform_matches_case_insensitively() {
    let b = browser("firefox", None, Some("Linux"));
    assert!(b.matches_capabilities(&caps("firefox", None, Some("linux"))));
    assert!(!b.matches_capabilities(&caps("firefox", None, Some("windows"))));
    let no_os = browser("firefox", None, None);
    assert!(!no_os.matches_capabilities(&caps("firefox", None, Some("linux"))));
    assert!(no_os.matches_capabilities(&caps("firefox", None, Some("any"))));
}

#[test]
fn test_default_webdriver_known_browsers() {
    assert_eq!(default_webdriver("firefox"), Some("geckodriver"));
    assert_eq!(default_webdriver("chrome"), Some("chromedriver"));
    assert_eq!(default_webdriver("safari"), None);
}

#[test]
fn test_sanitize_defaults_driver_path() {
    let mut b = BrowserConfig::new("firefox".to_string(), None, None, None, None, 1, 5);
    assert!(b.sanitize().is_ok());
    assert_eq!(b.driver_path().as_str(), "geckodriver");

    let mut custom = BrowserConfig::new(
        "firefox".to_string(),
        None,
        None,
        Some("/opt/geckodriver".to_string()),
        None,
        1,
        5,
    );
    assert!(custom.sanitize().is_ok());
    assert_eq!(custom.driver_path().as_str(), "/opt/geckodriver");

    let mut unknown = BrowserConfig::new("netscape".to_string(), None, None, None, None, 1, 5);
    match unknown.sanitize() {
        Err(XenonError::ConfigUnexpectedBrowser(name, _)) => assert_eq!(name, "netscape"),
        other => panic!("expected ConfigUnexpectedBrowser, got {:?}", other),
    }
}
