use tonneru::config::{AppConfig, NetworkRule, TunnelInfo};
use tonneru::connectivity::{
    compose_connectivity, has_real_interface, has_usable_address, is_valid_ipv4, parse_gateway,
    ConnectivityStatus,
};
use tonneru::engine::{
    plan_health_check, plan_network_change, plan_resume, verify_vpn_health, ChangePlan,
    HealthPlan, MonitorState, ResumeAction,
};
use tonneru::netinfo::{
    known_network_cols, parse_ethernet_links, parse_iw_link_ssid, parse_iwd_devices,
    parse_iwd_station_show, parse_known_network_line, parse_nm_line, sort_networks, NetworkInfo,
};
use tonneru::power::PowerStateTracker;
use tonneru::profiles::{
    build_profiles, endpoint_host, sanitize_profile_name, validate_config_body,
};
use tonneru::strutil::str_chars;
use tonneru::wgstatus::WgStatus;

fn network(name: &str, ssid: Option<&str>, connected: bool) -> NetworkInfo {
    NetworkInfo {
        name: name.to_string(),
        network_type: if ssid.is_some() { "wifi" } else { "ethernet" }.to_string(),
        device: "wlan0".to_string(),
        connected,
        ssid: ssid.map(|s| s.to_string()),
    }
}

fn rule(id: &str, tunnel: Option<&str>, a: bool, n: bool, s: bool) -> NetworkRule {
    NetworkRule {
        identifier: id.to_string(),
        tunnel_name: tunnel.map(|t| t.to_string()),
        always_vpn: a,
        never_vpn: n,
        session_vpn: s,
    }
}

fn config_with(rules: Vec<NetworkRule>, default_profile: Option<&str>) -> AppConfig {
    let mut c = AppConfig::default();
    c.network_rules = rules;
    c.default_profile = default_profile.map(|d| d.to_string());
    c
}

fn connected_status(iface: &str, stale: bool, routing: bool) -> WgStatus {
    let mut st = WgStatus::default();
    st.connected = true;
    st.interface = Some(iface.to_string());
    st.handshake_stale = stale;
    st.routing_ok = routing;
    st
}

fn fresh_state() -> MonitorState {
    MonitorState::new(PowerStateTracker::new(5_000, 1_000_000, 500))
}

#[test]
fn test_power_state_tracker() {
    let mut tracker = PowerStateTracker::new(100, 1_000_000, 500);
    // First check shouldn't be a resume
    let state = tracker.check(1_000_100, 500, false);
    assert!(!state.just_resumed, "First check shouldn't be a resume");
    // Immediate second check shouldn't be a resume
    let state = tracker.check(1_000_150, 500, false);
    assert!(!state.just_resumed, "Immediate second check shouldn't be a resume");
}

#[test]
fn test_power_gap_reads_as_resume() {
    let mut tracker = PowerStateTracker::new(5_000, 1_000_000, 500);
    let state = tracker.check(1_020_001, 520, false);
    assert!(state.just_resumed);
    assert_eq!(state.time_gap_ms, 20_001);
    // the baseline moved: the next close check is quiet again
    let state = tracker.check(1_021_000, 521, false);
    assert!(!state.just_resumed);
}

#[test]
fn test_uptime_regression_reads_as_resume() {
    let mut tracker = PowerStateTracker::new(5_000, 1_000_000, 500);
    let state = tracker.check(1_001_000, 100, false);
    assert!(state.just_resumed, "a large uptime fall means a reboot");
    let mut tracker2 = PowerStateTracker::new(5_000, 1_000_000, 500);
    let state2 = tracker2.check(1_001_000, 495, false);
    assert!(!state2.just_resumed, "a small uptime wobble is not a reboot");
}

#[test]
fn test_verify_vpn_health_rules() {
    assert!(!verify_vpn_health(&WgStatus::default(), true));
    assert!(!verify_vpn_health(&connected_status("wg0", false, false), true));
    assert!(verify_vpn_health(&connected_status("wg0", false, true), false));
    // a stale handshake passes only when the internet probe passes
    assert!(verify_vpn_health(&connected_status("wg0", true, true), true));
    assert!(!verify_vpn_health(&connected_status("wg0", true, true), false));
}

#[test]
fn test_plan_network_change_rules() {
    let net = Some(network("Home", Some("Home"), true));
    let always = config_with(vec![rule("wifi:Home", Some("T"), true, false, false)], None);
    assert_eq!(
        plan_network_change(&always, &net),
        ChangePlan::Connect { profile: "T".to_string(), session: false }
    );
    let session = config_with(vec![rule("wifi:Home", None, false, false, true)], Some("D"));
    assert_eq!(
        plan_network_change(&session, &net),
        ChangePlan::Connect { profile: "D".to_string(), session: true }
    );
    let never = config_with(vec![rule("wifi:Home", None, false, true, false)], None);
    assert_eq!(plan_network_change(&never, &net), ChangePlan::Disconnect);
    let none = config_with(vec![], None);
    assert_eq!(plan_network_change(&none, &net), ChangePlan::Nothing);
    assert_eq!(plan_network_change(&always, &None), ChangePlan::Nothing);
    // a connecting rule with no tunnel anywhere does nothing
    let bare = config_with(vec![rule("wifi:Home", None, true, false, false)], None);
    assert_eq!(plan_network_change(&bare, &net), ChangePlan::Nothing);
}

#[test]
fn test_health_check_reconnects_within_bound() {
    let cfg = config_with(vec![rule("wifi:Home", Some("T"), true, false, false)], None);
    let net = Some(network("Home", Some("Home"), true));
    let mut state = fresh_state();
    state.last_vpn_connected = true;
    // dropped unexpectedly: reconnect while attempts remain
    let plan = plan_health_check(&cfg, &state, &net, &WgStatus::default(), false);
    assert_eq!(plan, HealthPlan::Reconnect("T".to_string()));
    // the bound is spent: give up
    state.reconnect_attempts = 3;
    let plan = plan_health_check(&cfg, &state, &net, &WgStatus::default(), false);
    assert_eq!(plan, HealthPlan::GiveUp);
    // connected but unhealthy: recover on the live interface
    state.reconnect_attempts = 0;
    let status = connected_status("wg0", true, false);
    let plan = plan_health_check(&cfg, &state, &net, &status, false);
    assert_eq!(plan, HealthPlan::Reconnect("wg0".to_string()));
    // connected and healthy: nothing to do
    state.last_vpn_connected = true;
    let healthy = connected_status("wg0", false, true);
    let plan = plan_health_check(&cfg, &state, &net, &healthy, true);
    assert_eq!(plan, HealthPlan::Nothing);
}

#[test]
fn test_reconnect_backoff_doubles_and_caps() {
    let mut state = fresh_state();
    assert_eq!(state.begin_reconnect(), 4_000);
    assert_eq!(state.begin_reconnect(), 8_000);
    assert_eq!(state.begin_reconnect(), 16_000);
    assert_eq!(state.begin_reconnect(), 32_000);
    assert_eq!(state.begin_reconnect(), 32_000);
    assert_eq!(state.reconnect_attempts, 5);
    state.finish_reconnect(false);
    assert_eq!(state.reconnect_attempts, 5);
    state.finish_reconnect(true);
    assert_eq!(state.reconnect_attempts, 0);
}

#[test]
fn test_health_tick_interval() {
    let mut state = fresh_state();
    for _ in 0..5 {
        assert!(!state.health_tick());
    }
    assert!(state.health_tick());
    assert_eq!(state.health_check_counter, 0);
}

#[test]
fn test_resume_with_always_rule_reconnects_when_unhealthy() {
    // after a suspend, the always rule's tunnel is up but stale:
    // the engine reconnects it
    let cfg = config_with(vec![rule("wifi:Home", Some("T"), true, false, false)], None);
    let net = Some(network("Home", Some("Home"), true));
    let status = connected_status("T", true, true);
    let healthy = verify_vpn_health(&status, false);
    assert!(!healthy);
    let plan = plan_resume(&cfg, &net, &status, healthy);
    assert_eq!(plan, ResumeAction::Reconnect("T".to_string()));
    // verified healthy instead: only the notification
    let plan = plan_resume(&cfg, &net, &connected_status("T", false, true), true);
    assert_eq!(plan, ResumeAction::VerifiedOk("T".to_string()));
    // connected to the wrong tunnel: reconnect
    let plan = plan_resume(&cfg, &net, &connected_status("other", false, true), true);
    assert_eq!(plan, ResumeAction::Reconnect("T".to_string()));
}

#[test]
fn test_resume_ends_a_session_rule() {
    let cfg = config_with(vec![rule("wifi:Home", Some("T"), false, false, true)], None);
    let net = Some(network("Home", Some("Home"), true));
    let plan = plan_resume(&cfg, &net, &connected_status("T", false, true), true);
    assert_eq!(plan, ResumeAction::EndSession { disconnect: true });
    // and clearing the rule drops it from the store
    let (had, rest) = tonneru::config::remove_session_rules(&cfg.network_rules, "wifi:Home");
    assert!(had);
    assert!(rest.is_empty());
}

#[test]
fn test_resume_other_rules() {
    let never = config_with(vec![rule("wifi:Home", None, false, true, false)], None);
    let net = Some(network("Home", Some("Home"), true));
    assert_eq!(
        plan_resume(&never, &net, &connected_status("T", false, true), true),
        ResumeAction::Disconnect
    );
    assert_eq!(plan_resume(&never, &net, &WgStatus::default(), false), ResumeAction::Nothing);
    let none = config_with(vec![], None);
    assert_eq!(
        plan_resume(&none, &net, &connected_status("T", true, false), false),
        ResumeAction::DisconnectUnhealthy
    );
}

#[test]
fn test_resume_resets_reconnect_counter() {
    let mut state = fresh_state();
    state.reconnect_attempts = 2;
    state.last_vpn_connected = false;
    let status = connected_status("T", false, true);
    state.finish_resume(Some("wifi:Home".to_string()), &status, 2_000_000, 900);
    assert_eq!(state.reconnect_attempts, 0);
    assert!(state.last_vpn_connected);
    assert_eq!(state.last_vpn_interface, Some("T".to_string()));
    assert_eq!(state.last_network_id, Some("wifi:Home".to_string()));
}

#[test]
fn test_profiles_not_pruned_when_listing_fails() {
    let known = vec![
        TunnelInfo { name: "alpha".to_string(), protocol: "wireguard".to_string(), kill_switch: false },
        TunnelInfo { name: "gone".to_string(), protocol: "wireguard".to_string(), kill_switch: true },
        TunnelInfo { name: "ovpn".to_string(), protocol: "openvpn".to_string(), kill_switch: false },
    ];
    // the helper's listing could not be read: nothing is pruned
    let (profiles, pruned) = build_profiles(&None, &None, &known, &None);
    assert!(pruned.is_none());
    let names: Vec<String> = profiles.iter().map(|p| p.name.clone()).collect();
    assert_eq!(names, vec!["alpha".to_string(), "gone".to_string()]);
}

#[test]
fn test_profiles_prune_and_union() {
    let known = vec![
        TunnelInfo { name: "alpha".to_string(), protocol: "wireguard".to_string(), kill_switch: false },
        TunnelInfo { name: "gone".to_string(), protocol: "wireguard".to_string(), kill_switch: true },
        TunnelInfo { name: "ovpn".to_string(), protocol: "openvpn".to_string(), kill_switch: false },
    ];
    let listing = Some("alpha\nbeta\n".to_string());
    let active = Some("alpha".to_string());
    let (profiles, pruned) = build_profiles(&listing, &None, &known, &active);
    let kept = pruned.expect("the orphaned entry is pruned");
    let kept_names: Vec<String> = kept.iter().map(|t| t.name.clone()).collect();
    assert_eq!(kept_names, vec!["alpha".to_string(), "ovpn".to_string()]);
    let names: Vec<String> = profiles.iter().map(|p| p.name.clone()).collect();
    assert_eq!(names, vec!["alpha".to_string(), "beta".to_string()]);
    assert!(profiles[0].connected);
    assert!(!profiles[1].connected);
    assert_eq!(profiles[0].protocol, "wireguard");
}

#[test]
fn test_profile_name_sanitisation() {
    assert_eq!(sanitize_profile_name("my-vpn_2"), "my-vpn_2");
    assert_eq!(sanitize_profile_name("../etc/evil name"), "etcevilname");
    assert_eq!(sanitize_profile_name("!!!"), "");
}

#[test]
fn test_config_body_validation() {
    assert!(validate_config_body("[Interface]\nPrivateKey=x\n[Peer]\nEndpoint=y\n"));
    assert!(!validate_config_body("[Interface]\nonly half"));
    assert!(!validate_config_body(""));
}

#[test]
fn test_endpoint_host_extraction() {
    assert_eq!(endpoint_host("1.2.3.4:51820"), "1.2.3.4");
    assert_eq!(endpoint_host("plainhost"), "plainhost");
}

#[test]
fn test_compose_connectivity_short_circuits() {
    let c = compose_connectivity(false, true, true, true, Some(5));
    assert!(!c.has_interface && !c.has_ip_address && !c.can_reach_gateway && !c.has_internet);
    assert_eq!(c.latency_ms, None);
    let c = compose_connectivity(true, false, true, true, Some(5));
    assert!(c.has_interface && !c.has_ip_address && !c.can_reach_gateway && !c.has_internet);
    // a failed gateway layer blocks the internet layer outright
    let c = compose_connectivity(true, true, false, true, Some(5));
    assert!(c.can_reach_gateway == false && !c.has_internet);
    assert_eq!(c.latency_ms, None);
    assert!(!c.is_online());
    assert!(c.is_partial());
    let c = compose_connectivity(true, true, true, true, Some(5));
    assert!(c.has_internet);
    assert_eq!(c.latency_ms, Some(5));
    assert!(c.is_online());
    assert!(!c.is_partial());
    let c = compose_connectivity(true, true, true, false, Some(5));
    assert!(c.is_partial());
    assert_eq!(c.latency_ms, None);
}

#[test]
fn test_connectivity_layers_never_invert() {
    // in every snapshot the layers fail from the bottom up: no
    // internet without the gateway, no gateway without an address
    for a in [false, true] {
        for b in [false, true] {
            for c in [false, true] {
                for d in [false, true] {
                    let s = compose_connectivity(a, b, c, d, Some(1));
                    assert!(!s.has_internet || s.can_reach_gateway);
                    assert!(!s.can_reach_gateway || s.has_ip_address);
                    assert!(!s.has_ip_address || s.has_interface);
                }
            }
        }
    }
}

#[test]
fn test_connectivity_defaults() {
    let c = ConnectivityStatus::default();
    assert!(!c.is_online());
    assert!(!c.is_partial());
}

#[test]
fn test_interface_and_address_listings() {
    let links = "1: lo: <LOOPBACK,UP> state UNKNOWN\n3: wg0: <UP> state UNKNOWN\n2: wlan0: <UP> state UP\n";
    assert!(has_real_interface(links));
    assert!(!has_real_interface("1: lo: <LOOPBACK,UP>\n4: wg0: <UP>\n"));
    let addrs = "1: lo    inet 127.0.0.1/8 scope host lo\n2: wlan0    inet 192.168.1.7/24 brd\n";
    assert!(has_usable_address(addrs));
    assert!(!has_usable_address("1: lo    inet 127.0.0.1/8 scope host lo\n"));
}

#[test]
fn test_gateway_parsing() {
    assert_eq!(
        parse_gateway("default via 192.168.1.1 dev wlan0 proto dhcp metric 600\n"),
        Some("192.168.1.1".to_string())
    );
    assert_eq!(parse_gateway("10.0.0.0/24 dev eth0\n"), None);
}

#[test]
fn test_ipv4_validation() {
    assert!(is_valid_ipv4("1.2.3.4"));
    assert!(is_valid_ipv4("255.255.255.255"));
    assert!(!is_valid_ipv4("256.1.1.1"));
    assert!(!is_valid_ipv4("1.2.3"));
    assert!(!is_valid_ipv4("a.b.c.d"));
    assert!(!is_valid_ipv4("1.2.3.4.5"));
    assert!(!is_valid_ipv4(""));
}

#[test]
fn test_station_report_parsing() {
    let text = "   Station: wlan0\n   State                 connected\n   Connected network     CoffeeShop\n";
    let (connected, ssid) = parse_iwd_station_show(text);
    assert!(connected);
    assert_eq!(ssid, Some("CoffeeShop".to_string()));
    let (connected, ssid) = parse_iwd_station_show("   State   roaming\n");
    assert!(!connected);
    assert_eq!(ssid, None);
}

#[test]
fn test_device_listing_parsing() {
    let text = "header\nheader\nheader\nheader\n  wlan0   station  on\n  eth0    n/a\n  wlp3s0  station  on\n";
    assert_eq!(
        parse_iwd_devices(text),
        vec!["wlan0".to_string(), "wlp3s0".to_string()]
    );
}

#[test]
fn test_ethernet_link_parsing() {
    let text = "1: lo: <LOOPBACK> state UNKNOWN\n2: eth0: <BROADCAST> state UP mode DEFAULT\n3: enp3s0: <BROADCAST> state DOWN\n";
    let nets = parse_ethernet_links(text);
    assert_eq!(nets.len(), 2);
    assert_eq!(nets[0].name, "eth0");
    assert!(nets[0].connected);
    assert_eq!(nets[0].network_type, "ethernet");
    assert_eq!(nets[1].name, "enp3s0");
    assert!(!nets[1].connected);
}

#[test]
fn test_iw_link_ssid_parsing() {
    let text = "Connected to aa:bb:cc (on wlan0)\n\tSSID: MyNet\n\tfreq: 2437\n";
    assert_eq!(parse_iw_link_ssid(text), Some("MyNet".to_string()));
    assert_eq!(parse_iw_link_ssid("Not connected.\n"), None);
}

#[test]
fn test_nm_line_parsing() {
    let wifi = parse_nm_line(&str_chars("HomeWifi:wifi:wlan0:activated")).expect("wifi entry");
    assert_eq!(wifi.name, "HomeWifi");
    assert_eq!(wifi.network_type, "wifi");
    assert_eq!(wifi.device, "wlan0");
    assert!(wifi.connected);
    assert_eq!(wifi.ssid, Some("HomeWifi".to_string()));
    let eth = parse_nm_line(&str_chars("Wired 1:ethernet::")).expect("ethernet entry");
    assert_eq!(eth.device, "-");
    assert!(!eth.connected);
    assert_eq!(eth.ssid, None);
    assert!(parse_nm_line(&str_chars("lo:loopback:lo:unmanaged")).is_none());
    assert!(parse_nm_line(&str_chars("br0:bridge:br0:activated")).is_none());
    assert!(parse_nm_line(&str_chars("short:line")).is_none());
}

#[test]
fn test_known_network_table_parsing() {
    let header = str_chars("  Name                              Security");
    let (nc, sc) = known_network_cols(&header);
    assert_eq!((nc, sc), (2, 36));
    let line = str_chars("  CoffeeShop                        psk");
    assert_eq!(
        parse_known_network_line(&line, nc, sc),
        Some("CoffeeShop".to_string())
    );
    let sep = str_chars("--------------------");
    assert_eq!(parse_known_network_line(&sep, nc, sc), None);
    // a narrow line where the name swallowed the security word
    let narrow = str_chars("  BadNetpsk");
    assert_eq!(parse_known_network_line(&narrow, nc, sc), Some("BadNet".to_string()));
}

#[test]
fn test_network_sorting() {
    let nets = vec![
        network("zeta", Some("zeta"), false),
        network("Alpha", Some("Alpha"), false),
        network("mid", Some("mid"), true),
    ];
    let sorted = sort_networks(nets);
    assert_eq!(sorted[0].name, "mid");
    assert_eq!(sorted[1].name, "Alpha");
    assert_eq!(sorted[2].name, "zeta");
}
