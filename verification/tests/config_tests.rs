use tonneru::config::{AppConfig, NetworkRule, TunnelInfo};
use tonneru::config::{find_rule, find_tunnel, remove_rules, remove_session_rules, rule_id_ok_exec};
use tonneru::configtext::{encode_config, parse_config};

fn rule(id: &str, tunnel: Option<&str>, a: bool, n: bool, s: bool) -> NetworkRule {
    NetworkRule {
        identifier: id.to_string(),
        tunnel_name: tunnel.map(|t| t.to_string()),
        always_vpn: a,
        never_vpn: n,
        session_vpn: s,
    }
}

fn tunnel(name: &str, ks: bool) -> TunnelInfo {
    TunnelInfo { name: name.to_string(), protocol: "wireguard".to_string(), kill_switch: ks }
}

fn sample_config() -> AppConfig {
    AppConfig {
        network_rules: vec![rule("wifi:MyNetwork", Some("my-vpn"), true, false, false)],
        default_profile: Some("work-vpn".to_string()),
        last_connected: None,
        auto_reconnect: false,
        kill_switch: false,
        notifications: true,
        known_tunnels: vec![tunnel("my-vpn", false)],
    }
}

#[test]
fn test_config_serialization() {
    let config = sample_config();
    let serialized = encode_config(&config);
    let deserialized = parse_config(serialized.as_str());
    assert_eq!(config.network_rules.len(), deserialized.network_rules.len());
    assert_eq!(config.default_profile, deserialized.default_profile);
}

#[test]
fn test_save_load_round_trip_exact() {
    let config = sample_config();
    let loaded = parse_config(encode_config(&config).as_str());
    assert_eq!(loaded.network_rules.len(), 1);
    assert_eq!(loaded.network_rules[0].identifier, "wifi:MyNetwork");
    assert_eq!(loaded.network_rules[0].tunnel_name, Some("my-vpn".to_string()));
    assert!(loaded.network_rules[0].always_vpn);
    assert!(!loaded.network_rules[0].never_vpn);
    assert!(!loaded.network_rules[0].session_vpn);
    assert_eq!(loaded.default_profile, Some("work-vpn".to_string()));
    assert_eq!(loaded.last_connected, None);
    assert!(!loaded.auto_reconnect);
    assert!(!loaded.kill_switch);
    assert!(loaded.notifications);
    assert_eq!(loaded.known_tunnels.len(), 1);
    assert_eq!(loaded.known_tunnels[0].name, "my-vpn");
    assert_eq!(loaded.known_tunnels[0].protocol, "wireguard");
    assert!(!loaded.known_tunnels[0].kill_switch);
}

#[test]
fn test_save_drops_suspicious_rules() {
    let mut config = sample_config();
    config.network_rules.push(rule("wifi:", None, true, false, false));
    config.network_rules.push(rule("wifi:\u{1b}[1mX", None, false, true, false));
    config.network_rules.push(rule("", None, false, false, true));
    let loaded = parse_config(encode_config(&config).as_str());
    assert_eq!(loaded.network_rules.len(), 1);
    assert_eq!(loaded.network_rules[0].identifier, "wifi:MyNetwork");
}

#[test]
fn test_save_normalises_empty_tunnel_name() {
    let mut config = sample_config();
    config.network_rules = vec![rule("wifi:SomeCafe", Some(""), true, false, false)];
    let loaded = parse_config(encode_config(&config).as_str());
    assert_eq!(loaded.network_rules.len(), 1);
    assert_eq!(loaded.network_rules[0].tunnel_name, None);
}

#[test]
fn test_parse_unreadable_text_gives_defaults() {
    let loaded = parse_config("not a config at all\n%%%\n");
    assert_eq!(loaded.network_rules.len(), 0);
    assert_eq!(loaded.default_profile, None);
    assert!(!loaded.auto_reconnect);
    assert_eq!(loaded.known_tunnels.len(), 0);
}

#[test]
fn test_parse_failure_falls_back_whole() {
    // one bad line spoils the file: no fragment of it is salvaged
    let text = "default_profile = \"work\"\nthis line is not a setting\nauto_reconnect = true\n";
    assert!(!tonneru::configtext::config_text_readable(text));
    let loaded = parse_config(text);
    assert_eq!(loaded.default_profile, None);
    assert!(!loaded.auto_reconnect);
    // the same file without the bad line reads fine
    let good = "default_profile = \"work\"\nauto_reconnect = true\n";
    assert!(tonneru::configtext::config_text_readable(good));
    let loaded = parse_config(good);
    assert_eq!(loaded.default_profile, Some("work".to_string()));
    assert!(loaded.auto_reconnect);
}

#[test]
fn test_rule_id_validity() {
    assert!(rule_id_ok_exec(&"wifi:MyNet".to_string()));
    assert!(!rule_id_ok_exec(&"wifi:".to_string()));
    assert!(!rule_id_ok_exec(&"".to_string()));
    assert!(!rule_id_ok_exec(&"wifi:a\u{1b}bcd".to_string()));
}

#[test]
fn test_find_and_remove_rules() {
    let rules = vec![
        rule("wifi:A", Some("t1"), true, false, false),
        rule("wifi:B", None, false, true, false),
        rule("wifi:A", None, false, false, true),
    ];
    let found = find_rule(&rules, "wifi:A").expect("rule should be found");
    assert_eq!(found.tunnel_name, Some("t1".to_string()));
    assert!(found.always_vpn);
    assert!(find_rule(&rules, "wifi:C").is_none());
    let removed = remove_rules(&rules, "wifi:A");
    assert_eq!(removed.len(), 1);
    assert_eq!(removed[0].identifier, "wifi:B");
}

#[test]
fn test_remove_session_rules() {
    let rules = vec![
        rule("wifi:A", None, false, false, true),
        rule("wifi:B", None, true, false, false),
    ];
    let (had, rest) = remove_session_rules(&rules, "wifi:A");
    assert!(had);
    assert_eq!(rest.len(), 1);
    assert_eq!(rest[0].identifier, "wifi:B");
    let (had2, rest2) = remove_session_rules(&rules, "wifi:B");
    assert!(!had2);
    assert_eq!(rest2.len(), 2);
}

#[test]
fn test_find_tunnel_info() {
    let ts = vec![tunnel("a", false), tunnel("b", true)];
    assert!(find_tunnel(&ts, "b").expect("present").kill_switch);
    assert!(find_tunnel(&ts, "c").is_none());
}

#[test]
fn test_upsert_known_tunnel_keeps_flag() {
    let ts = vec![tunnel("a", true), tunnel("b", false)];
    let after = tonneru::config::upsert_known_tunnel(&ts, "a");
    assert_eq!(after.len(), 2);
    assert_eq!(after[0].name, "b");
    assert_eq!(after[1].name, "a");
    assert!(after[1].kill_switch, "the old kill-switch flag survives");
    let fresh = tonneru::config::upsert_known_tunnel(&ts, "c");
    assert_eq!(fresh.len(), 3);
    assert_eq!(fresh[2].name, "c");
    assert!(!fresh[2].kill_switch);
}

#[test]
fn test_clear_tunnel_from_rules() {
    let rules = vec![
        rule("wifi:A", Some("gone"), true, false, false),
        rule("wifi:B", Some("kept"), false, true, false),
    ];
    let cleared = tonneru::config::clear_tunnel_from_rules(&rules, "gone");
    assert_eq!(cleared.len(), 2);
    assert_eq!(cleared[0].tunnel_name, None);
    assert!(cleared[0].always_vpn);
    assert_eq!(cleared[1].tunnel_name, Some("kept".to_string()));
}
