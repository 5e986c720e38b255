use tonneru::wgstatus::{
    has_meaningful_traffic, is_handshake_stale, parse_first_link_iface, parse_transfer_to_bytes,
    parse_wg_show_output, WgStatus,
};
use tonneru::format::{format_bytes, format_duration};
use tonneru::app_state::{is_effectively_connected, status_class, App};
use tonneru::killswitch::{disable_error_tolerable, disable_outcome, killswitch_iface,
    killswitch_status_enabled};
use tonneru::helper::{classify_helper, HelperErrorKind, HelperOutcome};

#[test]
fn test_handshake_seconds_fresh() {
    assert!(!is_handshake_stale("45 seconds ago"));
    assert!(!is_handshake_stale("1 second ago"));
}

#[test]
fn test_handshake_minutes_threshold() {
    assert!(!is_handshake_stale("1 minute, 5 seconds ago"));
    assert!(!is_handshake_stale("2 minutes, 3 seconds ago"));
    assert!(is_handshake_stale("3 minutes ago"));
    assert!(is_handshake_stale("45 minutes, 2 seconds ago"));
}

#[test]
fn test_handshake_hours_days_stale() {
    assert!(is_handshake_stale("1 hour, 2 minutes ago"));
    assert!(is_handshake_stale("3 days ago"));
}

#[test]
fn test_handshake_unreadable_stale() {
    assert!(is_handshake_stale(""));
    assert!(is_handshake_stale("a while back"));
}

#[test]
fn test_traffic_threshold() {
    assert!(has_meaningful_traffic("1.21 MiB", "350.00 KiB"));
    assert!(has_meaningful_traffic("1 KB", "1 B"));
    assert!(!has_meaningful_traffic("0.5 KiB", "0.5 KiB"));
    assert!(!has_meaningful_traffic("500 B", "500 B"));
    assert!(!has_meaningful_traffic("", ""));
}

#[test]
fn test_parse_transfer_values() {
    assert_eq!(parse_transfer_to_bytes("1.5 KiB"), 1536);
    assert_eq!(parse_transfer_to_bytes("2 MiB"), 2 * 1024 * 1024);
    assert_eq!(parse_transfer_to_bytes("1.5 KB"), 1500);
    assert_eq!(parse_transfer_to_bytes("3 B"), 3);
    assert_eq!(parse_transfer_to_bytes("junk"), 0);
    assert_eq!(parse_transfer_to_bytes("12"), 0);
}

#[test]
fn test_parse_wg_show_full() {
    let stdout = "interface: wg0\n  endpoint: 1.2.3.4:51820\n  latest handshake: 45 seconds ago\n  transfer: 1.21 MiB received, 350.00 KiB sent\n";
    let def = Some("default via 10.0.0.1 dev wg0 proto static".to_string());
    let routes = None;
    let st = parse_wg_show_output(stdout, &def, &routes);
    assert!(st.connected);
    assert_eq!(st.interface, Some("wg0".to_string()));
    assert_eq!(st.endpoint, Some("1.2.3.4:51820".to_string()));
    assert_eq!(st.latest_handshake, Some("45 seconds ago".to_string()));
    assert!(!st.handshake_stale);
    assert_eq!(st.transfer_rx, Some("1.21 MiB received".to_string()));
    assert_eq!(st.transfer_tx, Some("350.00 KiB sent".to_string()));
    assert!(st.has_traffic);
    assert!(st.routing_ok);
}

#[test]
fn test_parse_wg_show_split_default_routing() {
    let stdout = "interface: wg0\n  latest handshake: 2 hours ago\n";
    let def = Some("default via 192.168.0.1 dev wlan0".to_string());
    let routes = Some(
        "0.0.0.0/1 dev wg0 scope link\n128.0.0.0/1 dev wg0 scope link\n192.168.0.0/24 dev wlan0".to_string(),
    );
    let st = parse_wg_show_output(stdout, &def, &routes);
    assert!(st.routing_ok);
    assert!(st.handshake_stale);
    assert!(!st.has_traffic);
    let st2 = parse_wg_show_output(stdout, &None, &None);
    assert!(!st2.routing_ok);
}

#[test]
fn test_parse_first_link_interface() {
    let text = "5: wg0@NONE: <POINTOPOINT,NOARP,UP> mtu 1420";
    assert_eq!(parse_first_link_iface(text), Some("wg0".to_string()));
    assert_eq!(parse_first_link_iface("nothing here"), None);
}

#[test]
fn test_format_bytes_values() {
    assert_eq!(format_bytes(500), "500 B");
    assert_eq!(format_bytes(1536), "1.50 KiB");
    assert_eq!(format_bytes(2 * 1024 * 1024), "2.00 MiB");
    assert_eq!(format_bytes(1073741824), "1.00 GiB");
}

#[test]
fn test_format_duration_values() {
    assert_eq!(format_duration(59), "59s");
    assert_eq!(format_duration(60), "1m");
    assert_eq!(format_duration(90), "1m 30s");
    assert_eq!(format_duration(3600), "1h");
    assert_eq!(format_duration(3720), "1h 2m");
}

#[test]
fn test_app_formatting_helpers() {
    assert_eq!(App::parse_transfer_to_bytes("1.5 KiB"), 1536);
    assert_eq!(App::format_bytes(1536), "1.50 KiB");
    assert_eq!(App::format_duration(90), "1m 30s");
}

fn connected_status(stale: bool) -> WgStatus {
    let mut st = WgStatus::default();
    st.connected = true;
    st.handshake_stale = stale;
    st
}

#[test]
fn test_status_class_values() {
    assert_eq!(status_class(&connected_status(false)), "connected");
    assert_eq!(status_class(&connected_status(true)), "degraded");
    assert_eq!(status_class(&WgStatus::default()), "disconnected");
    assert!(is_effectively_connected(&connected_status(false)));
    assert!(!is_effectively_connected(&connected_status(true)));
}

#[test]
fn test_killswitch_status_reading() {
    assert!(killswitch_status_enabled("enabled"));
    assert!(killswitch_status_enabled("  enabled\n"));
    assert!(!killswitch_status_enabled("disabled"));
    assert!(!killswitch_status_enabled(""));
}

#[test]
fn test_killswitch_disable_tolerates_missing_table() {
    assert!(disable_error_tolerable("nft: No such file or directory"));
    assert!(disable_error_tolerable("table does not exist"));
    assert!(!disable_error_tolerable("permission denied"));
}

#[test]
fn test_killswitch_disable_verify_and_retry() {
    // first probe already off: no retry, success
    assert_eq!(disable_outcome(false, false), (false, true));
    // still on after the first attempt: retry; the retry worked
    assert_eq!(disable_outcome(true, false), (true, true));
    // still on after the retry: the critical failure
    assert_eq!(disable_outcome(true, true), (true, false));
}

#[test]
fn test_killswitch_iface_fallback() {
    let mut st = WgStatus::default();
    assert_eq!(killswitch_iface(&st), "wg0");
    st.interface = Some("wg7".to_string());
    assert_eq!(killswitch_iface(&st), "wg7");
}

fn outcome(timed_out: bool, exit_ok: bool) -> HelperOutcome {
    HelperOutcome {
        timed_out,
        exit_ok,
        stdout: String::new(),
        stderr: String::new(),
    }
}

#[test]
fn test_helper_timeout_not_confused_with_refusal() {
    assert_eq!(classify_helper(&outcome(true, false)), Some(HelperErrorKind::Timeout));
    assert_eq!(classify_helper(&outcome(true, true)), Some(HelperErrorKind::Timeout));
    assert_eq!(classify_helper(&outcome(false, false)), Some(HelperErrorKind::Refused));
    assert_eq!(classify_helper(&outcome(false, true)), None);
    assert_ne!(
        classify_helper(&outcome(true, false)),
        classify_helper(&outcome(false, false))
    );
}
