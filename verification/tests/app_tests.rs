use tonneru::app_state::{
    pending_ops, App, HelperOp, PendingAction, PendingChange, Section, StartupKillSwitch,
};
use tonneru::config::{AppConfig, TunnelInfo};
use tonneru::connectivity::ConnectivityStatus;
use tonneru::netinfo::{normalize_ssid, strip_ansi, NetworkInfo};
use tonneru::profiles::WgProfile;
use tonneru::wgstatus::{VpnHealthCheck, WgStatus};

fn network(name: &str, ssid: Option<&str>, connected: bool) -> NetworkInfo {
    NetworkInfo {
        name: name.to_string(),
        network_type: if ssid.is_some() { "wifi" } else { "ethernet" }.to_string(),
        device: "wlan0".to_string(),
        connected,
        ssid: ssid.map(|s| s.to_string()),
    }
}

fn profile(name: &str) -> WgProfile {
    WgProfile { name: name.to_string(), protocol: "wireguard".to_string(), connected: false }
}

fn fresh_app(networks: Vec<NetworkInfo>, tunnels: Vec<WgProfile>) -> App {
    App::new(
        AppConfig::default(),
        tunnels,
        WgStatus::default(),
        networks,
        ConnectivityStatus::default(),
        VpnHealthCheck::default(),
        1_000,
    )
}

#[test]
fn test_identifier_forms() {
    let wifi = network("Cafe", Some("Cafe"), true);
    assert_eq!(wifi.identifier(), "wifi:Cafe");
    let mut eth = network("office", None, true);
    eth.device = "eth0".to_string();
    assert_eq!(eth.identifier(), "network:office");
    let mut bare = network("eth0", None, false);
    bare.device = "eth0".to_string();
    assert_eq!(bare.identifier(), "device:eth0");
}

#[test]
fn test_ssid_normalisation() {
    assert_eq!(strip_ansi("\u{1b}[1mCafe\u{1b}[0m"), "Cafe");
    assert_eq!(normalize_ssid("  \u{1b}[32mMy Net\u{1b}[0m  "), "My Net");
    assert_eq!(normalize_ssid("plain"), "plain");
}

#[test]
fn test_rule_cycle_on_inactive_network() {
    // an inactive network: four presses walk always, never, session,
    // none, and nothing is scheduled
    let mut app = fresh_app(vec![network("Cafe", Some("Cafe"), false)], vec![profile("work")]);
    app.cycle_tunnel_rule(2_000);
    assert_eq!(app.network_rules.len(), 1);
    assert!(app.network_rules[0].always_vpn);
    assert_eq!(app.network_rules[0].tunnel_name, Some("work".to_string()));
    assert!(app.pending_change.is_none());

    app.cycle_tunnel_rule(3_000);
    assert_eq!(app.network_rules.len(), 1);
    assert!(app.network_rules[0].never_vpn);
    assert!(app.pending_change.is_none());

    app.cycle_tunnel_rule(4_000);
    assert_eq!(app.network_rules.len(), 1);
    assert!(app.network_rules[0].session_vpn);
    assert!(app.pending_change.is_none());

    app.cycle_tunnel_rule(5_000);
    assert_eq!(app.network_rules.len(), 0);
    assert!(app.pending_change.is_none());
}

#[test]
fn test_rule_cycle_on_active_network_schedules_countdown() {
    // an active network with no rule: one press makes an always rule
    // on the first tunnel and schedules a connect behind the countdown
    let mut app = fresh_app(vec![network("Home", Some("Home"), true)], vec![profile("work")]);
    app.cycle_tunnel_rule(2_000);
    assert_eq!(app.network_rules.len(), 1);
    assert!(app.network_rules[0].always_vpn);
    assert_eq!(app.network_rules[0].tunnel_name, Some("work".to_string()));
    let pending = app.pending_change.as_ref().expect("a change should be pending");
    assert_eq!(pending.action, PendingAction::Connect);
    assert_eq!(pending.tunnel_name, Some("work".to_string()));
    assert_eq!(pending.network_id, "wifi:Home");
    assert_eq!(app.countdown_seconds, 4);
    assert_eq!(app.countdown_start, Some(2_000));
}

#[test]
fn test_countdown_cancellation_keeps_rule() {
    let mut app = fresh_app(vec![network("Home", Some("Home"), true)], vec![profile("work")]);
    app.cycle_tunnel_rule(2_000);
    assert!(app.pending_change.is_some());
    app.cancel_pending_change();
    assert!(app.pending_change.is_none());
    assert_eq!(app.countdown_seconds, 0);
    assert_eq!(app.countdown_start, None);
    // the rule change itself stays
    assert_eq!(app.network_rules.len(), 1);
    assert!(app.network_rules[0].always_vpn);
}

#[test]
fn test_schedule_replaces_pending_change() {
    let mut app = fresh_app(vec![], vec![]);
    let first = PendingChange {
        network_id: "wifi:A".to_string(),
        network_name: "A".to_string(),
        tunnel_name: Some("t1".to_string()),
        action: PendingAction::Connect,
    };
    let second = PendingChange {
        network_id: "wifi:B".to_string(),
        network_name: "B".to_string(),
        tunnel_name: None,
        action: PendingAction::Disconnect,
    };
    app.schedule_change(first, 1_000);
    app.tick_countdown(2_500);
    assert_eq!(app.countdown_seconds, 3);
    app.schedule_change(second, 3_000);
    let pending = app.pending_change.as_ref().expect("still pending");
    assert_eq!(pending.action, PendingAction::Disconnect);
    assert_eq!(pending.network_id, "wifi:B");
    assert_eq!(app.countdown_seconds, 4);
    assert_eq!(app.countdown_start, Some(3_000));
}

#[test]
fn test_countdown_runs_out_and_hands_back_change() {
    let mut app = fresh_app(vec![], vec![]);
    let change = PendingChange {
        network_id: String::new(),
        network_name: String::new(),
        tunnel_name: Some("work".to_string()),
        action: PendingAction::Connect,
    };
    app.schedule_change(change, 1_000);
    assert!(app.tick_countdown(4_900).is_none());
    assert_eq!(app.countdown_seconds, 1);
    let due = app.tick_countdown(5_000).expect("countdown has run out");
    assert_eq!(due.action, PendingAction::Connect);
    assert!(app.pending_change.is_none());
    assert_eq!(app.countdown_seconds, 0);
}

#[test]
fn test_kill_switch_ordering_on_reconnect() {
    // switching tunnels with the switch armed: off, down, up, on
    let change = PendingChange {
        network_id: "wifi:Home".to_string(),
        network_name: "Home".to_string(),
        tunnel_name: Some("T2".to_string()),
        action: PendingAction::Reconnect,
    };
    let ops = pending_ops(&change, true, true);
    assert_eq!(
        ops,
        vec![
            HelperOp::KillSwitchOff,
            HelperOp::Disconnect,
            HelperOp::Connect("T2".to_string()),
            HelperOp::KillSwitchOn,
        ]
    );
}

#[test]
fn test_pending_ops_other_actions() {
    let disc = PendingChange {
        network_id: String::new(),
        network_name: String::new(),
        tunnel_name: None,
        action: PendingAction::Disconnect,
    };
    assert_eq!(pending_ops(&disc, true, false), vec![
        HelperOp::KillSwitchOff,
        HelperOp::Disconnect,
    ]);
    assert_eq!(pending_ops(&disc, false, false), vec![HelperOp::Disconnect]);
    let conn = PendingChange { tunnel_name: Some("t".to_string()), action: PendingAction::Connect, ..disc.clone() };
    assert_eq!(pending_ops(&conn, false, false), vec![HelperOp::Connect("t".to_string())]);
    let kon = PendingChange { action: PendingAction::KillSwitchOn, ..disc.clone() };
    assert_eq!(pending_ops(&kon, false, false), vec![HelperOp::KillSwitchOn]);
}

#[test]
fn test_use_tunnel_now_disconnects_the_old_tunnel_first() {
    // connecting to t while connected to t': kill switch off, t' down,
    // then t up
    let mut app = fresh_app(vec![], vec![profile("t2")]);
    app.section = Section::Tunnels;
    app.selected_tunnel = 0;
    app.vpn_status.connected = true;
    app.vpn_status.interface = Some("t1".to_string());
    app.kill_switch_enabled = true;
    let ops = app.use_tunnel_now_plan();
    assert_eq!(
        ops,
        vec![
            HelperOp::KillSwitchOff,
            HelperOp::Disconnect,
            HelperOp::Connect("t2".to_string()),
        ]
    );
}

#[test]
fn test_use_tunnel_now_toggles_off_when_already_connected() {
    let mut app = fresh_app(vec![], vec![profile("t1")]);
    app.section = Section::Tunnels;
    app.vpn_status.connected = true;
    app.vpn_status.interface = Some("t1".to_string());
    let ops = app.use_tunnel_now_plan();
    assert_eq!(ops, vec![HelperOp::Disconnect]);
}

#[test]
fn test_cycle_network_tunnel_schedules_reconnect() {
    let mut app = fresh_app(
        vec![network("Home", Some("Home"), true)],
        vec![profile("a"), profile("b")],
    );
    app.cycle_tunnel_rule(2_000);
    // rule is always on tunnel a; cycling the tunnel moves to b and
    // schedules a reconnect
    app.cycle_network_tunnel(3_000);
    assert_eq!(app.network_rules.len(), 1);
    assert_eq!(app.network_rules[0].tunnel_name, Some("b".to_string()));
    assert!(app.network_rules[0].always_vpn);
    let pending = app.pending_change.as_ref().expect("pending");
    assert_eq!(pending.action, PendingAction::Reconnect);
    assert_eq!(pending.tunnel_name, Some("b".to_string()));
    assert_eq!(app.countdown_seconds, 4);
}

#[test]
fn test_set_tunnel_kill_switch_updates_store() {
    let mut app = fresh_app(vec![], vec![]);
    app.config.known_tunnels.push(TunnelInfo {
        name: "t1".to_string(),
        protocol: "wireguard".to_string(),
        kill_switch: false,
    });
    app.set_tunnel_kill_switch("t1", true);
    assert!(app.config.known_tunnels[0].kill_switch);
    app.set_tunnel_kill_switch("t9", true);
    assert_eq!(app.config.known_tunnels.len(), 2);
    assert_eq!(app.config.known_tunnels[1].name, "t9");
    assert!(app.config.known_tunnels[1].kill_switch);
}

#[test]
fn test_note_connect_outcome() {
    let mut app = fresh_app(vec![], vec![]);
    app.note_connect_outcome("work", true, 9_000);
    assert_eq!(app.config.last_connected, Some("work".to_string()));
    assert!(app.kill_switch_enabled);
    assert_eq!(
        app.status_message,
        Some("Connected to work (kill switch on)".to_string())
    );
}

#[test]
fn test_info_message_offline_variants() {
    let mut app = fresh_app(vec![], vec![]);
    app.update_info_message(None);
    assert_eq!(app.info_message, Some("\u{f092d} No network".to_string()));
    app.connectivity.has_interface = true;
    app.update_info_message(None);
    assert_eq!(app.info_message, Some("\u{f092b} No IP address".to_string()));
    app.connectivity.has_ip_address = true;
    app.connectivity.can_reach_gateway = true;
    app.update_info_message(None);
    assert_eq!(
        app.info_message,
        Some("\u{f0929} No internet (captive portal?)".to_string())
    );
    app.connectivity.has_internet = true;
    app.networks.push(network("Home", Some("Home"), true));
    app.update_info_message(None);
    assert_eq!(app.info_message, Some("\u{f05a9} Home (no VPN)".to_string()));
}

#[test]
fn test_info_message_connected() {
    let mut app = fresh_app(vec![], vec![]);
    app.vpn_status.connected = true;
    app.vpn_status.interface = Some("wg0".to_string());
    app.vpn_status.routing_ok = true;
    app.vpn_health.interface_exists = true;
    app.vpn_health.has_peer = true;
    app.vpn_health.routing_configured = true;
    app.vpn_health.can_reach_internet = true;
    app.vpn_health.handshake_recent = true;
    app.update_info_message(Some(90));
    let msg = app.info_message.clone().expect("message");
    assert_eq!(
        msg,
        "\u{f0498} wg0 \u{2502} \u{f051f} 1m 30s \u{2502} \u{f0498} Full"
    );
}

#[test]
fn test_clear_stale_status() {
    let mut app = fresh_app(vec![], vec![]);
    app.set_status("hello".to_string(), 1_000);
    app.clear_stale_status(2_000);
    assert_eq!(app.status_message, Some("hello".to_string()));
    app.clear_stale_status(4_000);
    assert_eq!(app.status_message, None);
}

#[test]
fn test_get_network_rule() {
    let mut app = fresh_app(vec![network("Home", Some("Home"), true)], vec![profile("a")]);
    assert!(app.get_network_rule(&network("Home", Some("Home"), true)).is_none());
    app.cycle_tunnel_rule(2_000);
    let r = app
        .get_network_rule(&network("Home", Some("Home"), true))
        .expect("rule exists now");
    assert!(r.always_vpn);
}

#[test]
fn test_tick_due_periods() {
    let mut app = fresh_app(vec![], vec![]);
    // App::new stamped all clocks at 1_000
    let (refresh, ip, conn, health) = app.tick_due(1_500);
    assert!(!refresh && !ip && !conn && !health);
    let (refresh, _, conn, health) = app.tick_due(12_000);
    assert!(refresh);
    assert!(conn);
    assert!(!health, "not connected, so no health check");
    app.vpn_status.connected = true;
    let (_, _, _, health) = app.tick_due(40_000);
    assert!(health);
    app.kill_switch_enabled = true;
    let (_, _, conn, health) = app.tick_due(80_000);
    assert!(!conn && !health, "the kill switch blocks the probes");
}

#[test]
fn test_note_status_refresh_transitions() {
    let mut app = fresh_app(vec![], vec![]);
    let mut up = WgStatus::default();
    up.connected = true;
    app.note_status_refresh(up.clone(), 2_000);
    assert!(app.ip_fetch_pending, "a fresh connection queues the IP lookup");
    assert_eq!(app.last_status_refresh, 2_000);
    app.public_ip = Some("1.2.3.4".to_string());
    app.ip_fetch_pending = false;
    app.note_status_refresh(WgStatus::default(), 3_000);
    assert_eq!(app.public_ip, None, "a drop forgets the public IP");
}

#[test]
fn test_auto_reconnect_candidate() {
    let mut app = fresh_app(vec![], vec![profile("work")]);
    assert_eq!(app.auto_reconnect_candidate(), None);
    app.config.auto_reconnect = true;
    app.config.last_connected = Some("work".to_string());
    assert_eq!(app.auto_reconnect_candidate(), Some("work".to_string()));
    app.config.last_connected = Some("gone".to_string());
    assert_eq!(app.auto_reconnect_candidate(), None);
    app.config.last_connected = Some("work".to_string());
    app.vpn_status.connected = true;
    assert_eq!(app.auto_reconnect_candidate(), None);
}

#[test]
fn test_startup_killswitch_plan() {
    let mut app = fresh_app(vec![], vec![]);
    // the probe found the switch up: record it, whatever else holds
    assert_eq!(app.startup_killswitch_plan(true), StartupKillSwitch::RecordEnabled);
    // switch down, nothing connected: leave it
    assert_eq!(app.startup_killswitch_plan(false), StartupKillSwitch::Leave);
    // connected to a tunnel whose saved flag is set: arm it
    app.vpn_status.connected = true;
    app.vpn_status.interface = Some("t1".to_string());
    app.config.known_tunnels.push(TunnelInfo {
        name: "t1".to_string(),
        protocol: "wireguard".to_string(),
        kill_switch: true,
    });
    assert_eq!(app.startup_killswitch_plan(false), StartupKillSwitch::Arm);
    // the flag off leaves the switch alone
    app.config.known_tunnels[0].kill_switch = false;
    assert_eq!(app.startup_killswitch_plan(false), StartupKillSwitch::Leave);
}
