//! Port-range parsing and configuration handling.

use xenon::config::{parse_port_list, XenonConfig};

fn strs(v: &[&str]) -> Vec<String> {
    v.iter().map(|s| s.to_string()).collect()
}

#[test]
fn test_port_parser_empty() {
    let empty_vec: Vec<u16> = Vec::new();
    let empty_input_vec: Vec<String> = Vec::new();
    assert_eq!(parse_port_list(&empty_input_vec), empty_vec);
}

#[test]
fn test_port_parser_single() {
    assert_eq!(parse_port_list(&strs(&["2000"])), vec![2000]);
}

#[test]
fn test_port_parser_range() {
    assert_eq!(parse_port_list(&strs(&["2000-2001"])), vec![2000, 2001]);
    assert_eq!(parse_port_list(&strs(&["2000-2000"])), vec![2000]);

    // Errors are logged but ignored.
    let empty_vec: Vec<u16> = Vec::new();
    assert_eq!(parse_port_list(&strs(&["1000-2000"])), empty_vec);
    assert_eq!(parse_port_list(&strs(&["2000-3000-4000"])), empty_vec);
    assert_eq!(parse_port_list(&strs(&["2000-2001", "adfasd"])), vec![2000, 2001]);
}

#[test]
fn test_port_parser_rejects_low_ports_and_reversed_ranges() {
    let empty_vec: Vec<u16> = Vec::new();
    assert_eq!(parse_port_list(&strs(&["1024"])), empty_vec);
    assert_eq!(parse_port_list(&strs(&["80"])), empty_vec);
    assert_eq!(parse_port_list(&strs(&["3000-2000"])), empty_vec);
    assert_eq!(parse_port_list(&strs(&["1025"])), vec![1025]);
}

#[test]
fn test_get_port_list_uses_configured_ranges() {
    let mut config = XenonConfig::new();
    config.ports = strs(&["5000-5002", "6000"]);
    assert_eq!(config.get_port_list(), vec![5000, 5001, 5002, 6000]);
    assert!(config.browsers.is_empty());
    assert!(!config.has_nodes());
}
