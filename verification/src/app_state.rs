//! The interactive application's state: sections, selections, the
//! single-slot pending-change arbiter with its countdown, and the rule
//! and tunnel cycles. Clocks come in as monotonic milliseconds; all
//! I/O is carried out outside against the plans these methods produce.

use vstd::prelude::*;
use crate::config::{
    AppConfig, NetworkRule, TunnelInfo, spec_find_rule, spec_remove_rules, spec_find_tunnel,
    spec_tunnel_ks, find_rule, remove_rules, find_tunnel, clone_rules, clone_opt_string,
    clone_rule, lemma_find_tunnel_push, spec_tunnel_pos, find_tunnel_pos, lemma_find_at_tunnel_pos,
    lemma_find_tunnel_update_first,
};
use crate::connectivity::ConnectivityStatus;
use crate::netinfo::{NetworkInfo, spec_identifier};
use crate::profiles::WgProfile;
use crate::wgstatus::{WgStatus, VpnHealthCheck, opt_view};

verus! {

/// Seconds a scheduled change waits before it is applied.
pub const COUNTDOWN_SECONDS: u64 = 4;

/// What a pending change will do when the countdown runs out.
#[derive(Debug, Clone, Copy, PartialEq, Eq, Structural)]
pub enum PendingAction {
    Connect,
    Disconnect,
    Reconnect,
    KillSwitchOn,
    KillSwitchOff,
}

/// A change scheduled behind the countdown.
#[derive(Debug, Clone)]
pub struct PendingChange {
    pub network_id: String,
    pub network_name: String,
    pub tunnel_name: Option<String>,
    pub action: PendingAction,
}

pub fn clone_pending(c: &PendingChange) -> (r: PendingChange)
    ensures
        r == *c,
{
    PendingChange {
        network_id: c.network_id.clone(),
        network_name: c.network_name.clone(),
        tunnel_name: clone_opt_string(&c.tunnel_name),
        action: c.action,
    }
}

/// The panel that holds the focus.
#[derive(Debug, Clone, Copy, PartialEq, Eq, Structural)]
pub enum Section {
    Networks,
    Tunnels,
    KillSwitch,
}

/// The modal layer above the panels.
#[derive(Debug, Clone, Copy, PartialEq, Eq, Structural)]
pub enum Popup {
    Hidden,
    FileBrowser,
    ConfigPreview,
    ManualConfig,
    Help,
    Confirm,
}

/// One entry of the import browser.
#[derive(Debug, Clone)]
pub struct BrowserEntry {
    pub name: String,
    pub is_dir: bool,
    pub path: String,
}

/// The whole application state.
#[derive(Debug)]
pub struct App {
    pub section: Section,
    pub popup: Popup,
    pub networks: Vec<NetworkInfo>,
    pub selected_network: usize,
    pub tunnels: Vec<WgProfile>,
    pub selected_tunnel: usize,
    pub vpn_status: WgStatus,
    pub network_rules: Vec<NetworkRule>,
    pub config: AppConfig,
    pub input_buffer: String,
    pub config_preview: String,
    pub preview_name: String,
    pub preview_field: usize,
    pub status_message: Option<String>,
    pub status_message_time: Option<u64>,
    pub kill_switch_enabled: bool,
    pub browser_path: String,
    pub browser_entries: Vec<BrowserEntry>,
    pub browser_selected: usize,
    pub tunnel_config_content: String,
    pub tunnel_config_scroll: usize,
    pub pending_change: Option<PendingChange>,
    pub countdown_start: Option<u64>,
    pub countdown_seconds: u8,
    pub info_message: Option<String>,
    pub last_status_refresh: u64,
    pub connectivity: ConnectivityStatus,
    pub last_connectivity_check: u64,
    pub vpn_health: VpnHealthCheck,
    pub last_health_check: u64,
    pub public_ip: Option<String>,
    pub ip_fetch_pending: bool,
}

impl App {
    /// Builds the starting state from the first observations.
    pub fn new(
        config: AppConfig,
        tunnels: Vec<WgProfile>,
        vpn_status: WgStatus,
        networks: Vec<NetworkInfo>,
        connectivity: ConnectivityStatus,
        vpn_health: VpnHealthCheck,
        now_ms: u64,
    ) -> (r: App)
        ensures
            r.section == Section::Networks,
            r.popup == Popup::Hidden,
            r.networks == networks,
            r.selected_network == 0,
            r.tunnels == tunnels,
            r.selected_tunnel == 0,
            r.vpn_status == vpn_status,
            r.network_rules@ == config.network_rules@,
            r.config == config,
            r.status_message is None,
            !r.kill_switch_enabled,
            r.pending_change is None,
            r.countdown_start is None,
            r.countdown_seconds == 0,
            r.info_message is None,
            r.last_status_refresh == now_ms,
            r.connectivity == connectivity,
            r.last_connectivity_check == now_ms,
            r.vpn_health == vpn_health,
            r.last_health_check == now_ms,
            r.public_ip is None,
            !r.ip_fetch_pending,
    {
        let network_rules = clone_rules(&config.network_rules);
        App {
            section: Section::Networks,
            popup: Popup::Hidden,
            networks,
            selected_network: 0,
            tunnels,
            selected_tunnel: 0,
            vpn_status,
            network_rules,
            config,
            input_buffer: String::new(),
            config_preview: String::new(),
            preview_name: String::new(),
            preview_field: 0,
            status_message: None,
            status_message_time: None,
            kill_switch_enabled: false,
            browser_path: String::new(),
            browser_entries: Vec::new(),
            browser_selected: 0,
            tunnel_config_content: String::new(),
            tunnel_config_scroll: 0,
            pending_change: None,
            countdown_start: None,
            countdown_seconds: 0,
            info_message: None,
            last_status_refresh: now_ms,
            connectivity,
            last_connectivity_check: now_ms,
            vpn_health,
            last_health_check: now_ms,
            public_ip: None,
            ip_fetch_pending: false,
        }
    }

    /// Sets the transient status line (it clears after three seconds).
    pub fn set_status(&mut self, msg: String, now_ms: u64)
        ensures
            *final(self) == (App {
                status_message: Some(msg),
                status_message_time: Some(now_ms),
                ..*old(self)
            }),
    {
        self.status_message = Some(msg);
        self.status_message_time = Some(now_ms);
    }

    /// The saved record of tunnel `name`, if any.
    pub fn get_tunnel_info(&self, name: &str) -> (r: Option<TunnelInfo>)
        ensures
            r == spec_find_tunnel(self.config.known_tunnels@, name@),
    {
        find_tunnel(&self.config.known_tunnels, name)
    }

    /// Makes sure tunnel `name` has a saved record, defaulting its
    /// kill-switch flag off.
    pub fn ensure_tunnel_info(&mut self, name: &str)
        ensures
            *final(self) == (App { config: final(self).config, ..*old(self) }),
            final(self).config == (AppConfig {
                known_tunnels: final(self).config.known_tunnels,
                ..old(self).config
            }),
            spec_find_tunnel(old(self).config.known_tunnels@, name@) is Some
                ==> final(self).config.known_tunnels == old(self).config.known_tunnels,
            spec_find_tunnel(old(self).config.known_tunnels@, name@) is None ==> {
                let ts = final(self).config.known_tunnels@;
                &&& ts.len() == old(self).config.known_tunnels@.len() + 1
                &&& ts.drop_last() == old(self).config.known_tunnels@
                &&& ts.last().name@ == name@
                &&& ts.last().protocol@ == "wireguard"@
                &&& !ts.last().kill_switch
            },
            spec_find_tunnel(final(self).config.known_tunnels@, name@) is Some,
    {
        let existing = find_tunnel(&self.config.known_tunnels, name);
        match existing {
            Some(_) => {},
            None => {
                let t = TunnelInfo {
                    name: String::from_str(name),
                    protocol: String::from_str("wireguard"),
                    kill_switch: false,
                };
                proof {
                    lemma_find_tunnel_push(old(self).config.known_tunnels@, t, name@);
                }
                self.config.known_tunnels.push(t);
                proof {
                    assert(final(self).config.known_tunnels@.drop_last()
                        =~= old(self).config.known_tunnels@);
                }
            },
        }
    }

    /// The rule the selected network falls under, if any.
    pub fn get_network_rule(&self, network: &NetworkInfo) -> (r: Option<NetworkRule>)
        ensures
            r == spec_find_rule(self.network_rules@, spec_identifier(*network)),
    {
        let id = network.identifier();
        find_rule(&self.network_rules, id.as_str())
    }

    /// Schedules `change`, replacing any change in flight and starting
    /// the countdown afresh.
    pub fn schedule_change(&mut self, change: PendingChange, now_ms: u64)
        ensures
            *final(self) == spec_schedule(*old(self), change, now_ms),
    {
        self.pending_change = Some(change);
        self.countdown_start = Some(now_ms);
        self.countdown_seconds = COUNTDOWN_SECONDS as u8;
    }

    /// Clears the slot and the countdown.
    pub fn cancel_pending_change(&mut self)
        ensures
            *final(self) == (App {
                pending_change: None,
                countdown_start: None,
                countdown_seconds: 0,
                ..*old(self)
            }),
    {
        self.pending_change = None;
        self.countdown_start = None;
        self.countdown_seconds = 0;
    }

    /// Advances the countdown. When it has run out, the slot is
    /// consumed and the change handed back to be carried out.
    pub fn tick_countdown(&mut self, now_ms: u64) -> (due: Option<PendingChange>)
        requires
            old(self).countdown_start matches Some(s) ==> s <= now_ms,
        ensures
            old(self).countdown_start is None ==> due is None && *final(self) == *old(self),
            old(self).countdown_start matches Some(start) ==> {
                let elapsed = (now_ms - start) / 1000;
                let remaining = if elapsed >= COUNTDOWN_SECONDS {
                    0
                } else {
                    COUNTDOWN_SECONDS - elapsed
                };
                if remaining == 0 {
                    &&& due == old(self).pending_change
                    &&& *final(self) == (App {
                        pending_change: None,
                        countdown_start: None,
                        countdown_seconds: 0,
                        ..*old(self)
                    })
                } else {
                    &&& due is None
                    &&& *final(self) == (App { countdown_seconds: remaining as u8, ..*old(self) })
                }
            },
    {
        match self.countdown_start {
            None => None,
            Some(start) => {
                let elapsed = (now_ms - start) / 1000;
                let remaining = if elapsed >= COUNTDOWN_SECONDS {
                    0
                } else {
                    COUNTDOWN_SECONDS - elapsed
                };
                self.countdown_seconds = remaining as u8;
                if remaining == 0 {
                    let due = self.pending_change.take();
                    self.countdown_start = None;
                    self.countdown_seconds = 0;
                    due
                } else {
                    None
                }
            },
        }
    }

    /// Clears the status line once it has stood for three seconds.
    pub fn clear_stale_status(&mut self, now_ms: u64)
        requires
            old(self).status_message_time matches Some(t) ==> t <= now_ms,
        ensures
            *final(self) == if old(self).status_message_time matches Some(t) && now_ms - t
                >= 3000 {
                (App { status_message: None, status_message_time: None, ..*old(self) })
            } else {
                *old(self)
            },
    {
        match self.status_message_time {
            Some(t) => {
                if now_ms - t >= 3000 {
                    self.status_message = None;
                    self.status_message_time = None;
                }
            },
            None => {},
        }
    }

    /// Schedules the kill-switch toggle behind the countdown.
    pub fn toggle_kill_switch(&mut self, now_ms: u64)
        ensures
            exists|c: PendingChange|
                {
                    &&& c.network_id@ =~= Seq::<char>::empty()
                    &&& c.network_name@ =~= Seq::<char>::empty()
                    &&& c.tunnel_name is None
                    &&& c.action == if old(self).kill_switch_enabled {
                        PendingAction::KillSwitchOff
                    } else {
                        PendingAction::KillSwitchOn
                    }
                    &&& *final(self) == spec_schedule(*old(self), c, now_ms)
                },
    {
        let action = if !self.kill_switch_enabled {
            PendingAction::KillSwitchOn
        } else {
            PendingAction::KillSwitchOff
        };
        let change = PendingChange {
            network_id: String::new(),
            network_name: String::new(),
            tunnel_name: None,
            action,
        };
        let ghost cg = change;
        self.schedule_change(change, now_ms);
        proof {
            assert(cg.network_id@ =~= Seq::<char>::empty());
            assert(cg.network_name@ =~= Seq::<char>::empty());
            assert(*final(self) == spec_schedule(*old(self), cg, now_ms));
        }
    }
}

/// What startup does about the kill switch, from the status probe.
#[derive(Debug, Clone, Copy, PartialEq, Eq, Structural)]
pub enum StartupKillSwitch {
    /// The switch is already up from an earlier session: record it.
    RecordEnabled,
    /// The live tunnel's saved flag asks for the switch: arm it now.
    Arm,
    /// Leave the switch down.
    Leave,
}

/// One call into the privileged helper, in the order the plans fix.
#[derive(Debug, Clone, PartialEq)]
pub enum HelperOp {
    KillSwitchOff,
    Disconnect,
    Connect(String),
    KillSwitchOn,
}

/// The mode flags (always, never, session) one press of the rule
/// cycle produces, or `None` when the rule is removed. The cycle runs
/// none, always, never, session and closes back on none.
pub open spec fn cycle_next_mode(cur: Option<NetworkRule>) -> Option<(bool, bool, bool)> {
    match cur {
        None => Some((true, false, false)),
        Some(r) => if r.always_vpn {
            Some((false, true, false))
        } else if r.never_vpn {
            Some((false, false, true))
        } else {
            None
        },
    }
}

/// The tunnel the cycled rule carries: a fresh rule takes the first
/// profile, a cycled one keeps its tunnel.
pub open spec fn cycle_tunnel(cur: Option<NetworkRule>, first: Option<Seq<char>>) -> Option<
    Seq<char>,
> {
    match cur {
        None => first,
        Some(r) => match r.tunnel_name {
            Some(t) => Some(t@),
            None => None,
        },
    }
}

/// The action one press of the rule cycle schedules on an active
/// network: connecting rules connect (when a tunnel is known),
/// the rest disconnect.
pub open spec fn cycle_action(cur: Option<NetworkRule>, tun: Option<Seq<char>>) -> Option<
    PendingAction,
> {
    match cur {
        None => if tun is Some {
            Some(PendingAction::Connect)
        } else {
            None
        },
        Some(r) => if r.always_vpn {
            Some(PendingAction::Disconnect)
        } else if r.never_vpn {
            if tun is Some {
                Some(PendingAction::Connect)
            } else {
                None
            }
        } else {
            Some(PendingAction::Disconnect)
        },
    }
}

/// The suffix of the status line one press of the rule cycle leaves.
pub open spec fn cycle_label(cur: Option<NetworkRule>) -> Seq<char> {
    match cur {
        None => ": Always"@,
        Some(r) => if r.always_vpn {
            ": Never"@
        } else if r.never_vpn {
            ": Session"@
        } else {
            ": No rule"@
        },
    }
}

/// Four presses from no rule pass through always, never and session
/// and land back on no rule: the cycle closes with length four.
pub proof fn lemma_rule_cycle_closes(r1: NetworkRule, r2: NetworkRule, r3: NetworkRule)
    requires
        r1.always_vpn && !r1.never_vpn && !r1.session_vpn,
        !r2.always_vpn && r2.never_vpn && !r2.session_vpn,
        !r3.always_vpn && !r3.never_vpn && r3.session_vpn,
    ensures
        cycle_next_mode(None) == Some((true, false, false)),
        cycle_next_mode(Some(r1)) == Some((false, true, false)),
        cycle_next_mode(Some(r2)) == Some((false, false, true)),
        cycle_next_mode(Some(r3)) is None,
{
}

/// The first profile named `name`, by position.
pub open spec fn spec_profile_pos(ts: Seq<WgProfile>, name: Seq<char>) -> Option<int>
    decreases ts.len(),
{
    if ts.len() == 0 {
        None
    } else if ts[0].name@ == name {
        Some(0)
    } else {
        match spec_profile_pos(ts.drop_first(), name) {
            Some(i) => Some(i + 1),
            None => None,
        }
    }
}

impl App {
    /// Cycles the selected network's rule one step (none, always,
    /// never, session, none), keeping its tunnel, and on an active
    /// network schedules the matching action behind the countdown.
    pub fn cycle_tunnel_rule(&mut self, now_ms: u64)
        ensures
            !(old(self).section == Section::Networks && old(self).selected_network < old(
                self,
            ).networks@.len()) ==> *final(self) == *old(self),
            (old(self).section == Section::Networks && old(self).selected_network < old(
                self,
            ).networks@.len()) ==> {
                let net = old(self).networks@[old(self).selected_network as int];
                let id = spec_identifier(net);
                let cur = spec_find_rule(old(self).network_rules@, id);
                let removed = spec_remove_rules(old(self).network_rules@, id);
                let first = if old(self).tunnels@.len() > 0 {
                    Some(old(self).tunnels@[0].name@)
                } else {
                    None::<Seq<char>>
                };
                let tun = cycle_tunnel(cur, first);
                let act = cycle_action(cur, tun);
                &&& match cycle_next_mode(cur) {
                    Some(flags) => {
                        &&& final(self).network_rules@.len() == removed.len() + 1
                        &&& final(self).network_rules@.drop_last() == removed
                        &&& final(self).network_rules@.last().identifier@ == id
                        &&& opt_view(final(self).network_rules@.last().tunnel_name) == tun
                        &&& final(self).network_rules@.last().always_vpn == flags.0
                        &&& final(self).network_rules@.last().never_vpn == flags.1
                        &&& final(self).network_rules@.last().session_vpn == flags.2
                    },
                    None => final(self).network_rules@ == removed,
                }
                &&& final(self).config.network_rules@ == final(self).network_rules@
                &&& final(self).config == (AppConfig {
                    network_rules: final(self).config.network_rules,
                    ..old(self).config
                })
                &&& if net.connected && act is Some {
                    &&& final(self).pending_change matches Some(c) && c.network_id@ == id
                        && c.network_name@ == net.name@ && opt_view(c.tunnel_name) == tun
                        && Some(c.action) == act
                    &&& final(self).countdown_start == Some(now_ms)
                    &&& final(self).countdown_seconds == COUNTDOWN_SECONDS as u8
                } else {
                    &&& final(self).pending_change == old(self).pending_change
                    &&& final(self).countdown_start == old(self).countdown_start
                    &&& final(self).countdown_seconds == old(self).countdown_seconds
                }
                &&& final(self).status_message matches Some(m) && m@ == net.name@ + cycle_label(
                    cur,
                )
                &&& final(self).status_message_time == Some(now_ms)
                &&& *final(self) == (App {
                    network_rules: final(self).network_rules,
                    config: final(self).config,
                    pending_change: final(self).pending_change,
                    countdown_start: final(self).countdown_start,
                    countdown_seconds: final(self).countdown_seconds,
                    status_message: final(self).status_message,
                    status_message_time: final(self).status_message_time,
                    ..*old(self)
                })
            },
    {
        if !(self.section == Section::Networks) {
            return ;
        }
        if self.selected_network >= self.networks.len() {
            return ;
        }
        let net_name = self.networks[self.selected_network].name.clone();
        let net_connected = self.networks[self.selected_network].connected;
        let id = self.networks[self.selected_network].identifier();
        let cur = find_rule(&self.network_rules, id.as_str());
        let removed = remove_rules(&self.network_rules, id.as_str());
        self.network_rules = removed;
        let first_tunnel: Option<String> = if self.tunnels.len() > 0 {
            Some(self.tunnels[0].name.clone())
        } else {
            None
        };
        let (tunnel_name, flags, action, label): (
            Option<String>,
            Option<(bool, bool, bool)>,
            Option<PendingAction>,
            &str,
        ) = match &cur {
            None => {
                let t = first_tunnel;
                let act = if t.is_some() {
                    Some(PendingAction::Connect)
                } else {
                    None
                };
                (t, Some((true, false, false)), act, ": Always")
            },
            Some(r) => {
                if r.always_vpn {
                    (
                        clone_opt_string(&r.tunnel_name),
                        Some((false, true, false)),
                        Some(PendingAction::Disconnect),
                        ": Never",
                    )
                } else if r.never_vpn {
                    let t = clone_opt_string(&r.tunnel_name);
                    let act = if t.is_some() {
                        Some(PendingAction::Connect)
                    } else {
                        None
                    };
                    (t, Some((false, false, true)), act, ": Session")
                } else {
                    (
                        clone_opt_string(&r.tunnel_name),
                        None,
                        Some(PendingAction::Disconnect),
                        ": No rule",
                    )
                }
            },
        };
        let sched_tunnel = clone_opt_string(&tunnel_name);
        match flags {
            Some(f) => {
                let rule = NetworkRule {
                    identifier: id.clone(),
                    tunnel_name,
                    always_vpn: f.0,
                    never_vpn: f.1,
                    session_vpn: f.2,
                };
                self.network_rules.push(rule);
            },
            None => {},
        }
        self.config.network_rules = clone_rules(&self.network_rules);
        if net_connected && action.is_some() {
            match action {
                Some(act) => {
                    let change = PendingChange {
                        network_id: id,
                        network_name: net_name.clone(),
                        tunnel_name: sched_tunnel,
                        action: act,
                    };
                    self.schedule_change(change, now_ms);
                },
                None => {},
            }
        }
        let text = net_name.concat(label);
        self.set_status(text, now_ms);
    }
}

/// Finds the first profile named `name`.
pub fn find_profile_pos(ts: &Vec<WgProfile>, name: &str) -> (r: Option<usize>)
    ensures
        match r {
            Some(i) => i < ts@.len() && spec_profile_pos(ts@, name@) == Some(i as int),
            None => spec_profile_pos(ts@, name@) is None,
        },
{
    let nv = crate::strutil::str_chars(name);
    let ghost s = ts@;
    proof {
        assert(s.skip(0) =~= s);
    }
    let mut i: usize = 0;
    while i < ts.len()
        invariant
            i <= ts@.len(),
            s == ts@,
            nv@ == name@,
            spec_profile_pos(s, name@) == match spec_profile_pos(s.skip(i as int), name@) {
                Some(j) => Some(i + j),
                None => None::<int>,
            },
        decreases ts@.len() - i,
    {
        proof {
            assert(s.skip(i as int)[0] == s[i as int]);
            assert(s.skip(i as int).drop_first() =~= s.skip(i + 1));
        }
        let tv = crate::strutil::str_chars(ts[i].name.as_str());
        if crate::strutil::chars_eq(&tv, &nv) {
            return Some(i);
        }
        i = i + 1;
    }
    proof {
        assert(s.skip(s.len() as int) =~= Seq::<WgProfile>::empty());
    }
    None
}

/// The mode flags the tunnel cycle keeps: the current rule's, or
/// always-on for a network that had none.
pub open spec fn keep_flags(cur: Option<NetworkRule>) -> (bool, bool, bool) {
    match cur {
        None => (true, false, false),
        Some(r) => (r.always_vpn, r.never_vpn, r.session_vpn),
    }
}

/// The profile the tunnel cycle moves to: the one after the rule's
/// current tunnel, wrapping around; from nothing it starts at the
/// first profile.
pub open spec fn next_tunnel_idx(ts: Seq<WgProfile>, cur: Option<NetworkRule>) -> int {
    let pos = match cur {
        None => None,
        Some(r) => match r.tunnel_name {
            Some(t) => spec_profile_pos(ts, t@),
            None => None,
        },
    };
    match pos {
        Some(i) => (i + 1) % (ts.len() as int),
        None => 0,
    }
}

/// The mode word shown for a rule in the tunnel-cycle status line.
pub open spec fn mode_word(flags: (bool, bool, bool)) -> Seq<char> {
    if flags.0 {
        "Always"@
    } else if flags.2 {
        "Session"@
    } else if flags.1 {
        "Never"@
    } else {
        "-"@
    }
}

impl App {
    /// Cycles which tunnel the selected network's rule points at,
    /// keeping the rule's mode; on an active network with a connecting
    /// rule it schedules a reconnect behind the countdown.
    pub fn cycle_network_tunnel(&mut self, now_ms: u64)
        ensures
            !(old(self).section == Section::Networks && old(self).selected_network < old(
                self,
            ).networks@.len()) ==> *final(self) == *old(self),
            (old(self).section == Section::Networks && old(self).selected_network < old(
                self,
            ).networks@.len() && old(self).tunnels@.len() == 0) ==> *final(self) == (App {
                status_message: final(self).status_message,
                status_message_time: Some(now_ms),
                ..*old(self)
            }) && final(self).status_message is Some,
            (old(self).section == Section::Networks && old(self).selected_network < old(
                self,
            ).networks@.len() && old(self).tunnels@.len() > 0) ==> {
                let net = old(self).networks@[old(self).selected_network as int];
                let id = spec_identifier(net);
                let cur = spec_find_rule(old(self).network_rules@, id);
                let removed = spec_remove_rules(old(self).network_rules@, id);
                let flags = keep_flags(cur);
                let idx = next_tunnel_idx(old(self).tunnels@, cur);
                let chosen = old(self).tunnels@[idx].name@;
                &&& final(self).network_rules@.len() == removed.len() + 1
                &&& final(self).network_rules@.drop_last() == removed
                &&& final(self).network_rules@.last().identifier@ == id
                &&& opt_view(final(self).network_rules@.last().tunnel_name) == Some(chosen)
                &&& final(self).network_rules@.last().always_vpn == flags.0
                &&& final(self).network_rules@.last().never_vpn == flags.1
                &&& final(self).network_rules@.last().session_vpn == flags.2
                &&& final(self).config.network_rules@ == final(self).network_rules@
                &&& final(self).config == (AppConfig {
                    network_rules: final(self).config.network_rules,
                    ..old(self).config
                })
                &&& if net.connected && (flags.0 || flags.2) {
                    &&& final(self).pending_change matches Some(c) && c.network_id@ == id
                        && c.network_name@ == net.name@ && opt_view(c.tunnel_name) == Some(chosen)
                        && c.action == PendingAction::Reconnect
                    &&& final(self).countdown_start == Some(now_ms)
                    &&& final(self).countdown_seconds == COUNTDOWN_SECONDS as u8
                } else {
                    &&& final(self).pending_change == old(self).pending_change
                    &&& final(self).countdown_start == old(self).countdown_start
                    &&& final(self).countdown_seconds == old(self).countdown_seconds
                }
                &&& final(self).status_message matches Some(m) && m@ == net.name@ + ": "@
                    + mode_word(flags) + " \u{2192} "@ + chosen
                &&& final(self).status_message_time == Some(now_ms)
                &&& *final(self) == (App {
                    network_rules: final(self).network_rules,
                    config: final(self).config,
                    pending_change: final(self).pending_change,
                    countdown_start: final(self).countdown_start,
                    countdown_seconds: final(self).countdown_seconds,
                    status_message: final(self).status_message,
                    status_message_time: final(self).status_message_time,
                    ..*old(self)
                })
            },
    {
        if !(self.section == Section::Networks) {
            return ;
        }
        if self.selected_network >= self.networks.len() {
            return ;
        }
        if self.tunnels.len() == 0 {
            let msg = String::from_str("No tunnels. Press 'f' to import.");
            self.set_status(msg, now_ms);
            return ;
        }
        let net_name = self.networks[self.selected_network].name.clone();
        let net_connected = self.networks[self.selected_network].connected;
        let id = self.networks[self.selected_network].identifier();
        let cur = find_rule(&self.network_rules, id.as_str());
        let removed = remove_rules(&self.network_rules, id.as_str());
        self.network_rules = removed;
        let cur_idx: Option<usize> = match &cur {
            None => None,
            Some(r) => match &r.tunnel_name {
                Some(t) => find_profile_pos(&self.tunnels, t.as_str()),
                None => None,
            },
        };
        let next_idx: usize = match cur_idx {
            Some(i) => (i + 1) % self.tunnels.len(),
            None => 0,
        };
        let chosen = self.tunnels[next_idx].name.clone();
        let flags: (bool, bool, bool) = match &cur {
            None => (true, false, false),
            Some(r) => (r.always_vpn, r.never_vpn, r.session_vpn),
        };
        let rule = NetworkRule {
            identifier: id.clone(),
            tunnel_name: Some(chosen.clone()),
            always_vpn: flags.0,
            never_vpn: flags.1,
            session_vpn: flags.2,
        };
        self.network_rules.push(rule);
        self.config.network_rules = clone_rules(&self.network_rules);
        let word: &str = if flags.0 {
            "Always"
        } else if flags.2 {
            "Session"
        } else if flags.1 {
            "Never"
        } else {
            "-"
        };
        let text = net_name.clone().concat(": ").concat(word).concat(" \u{2192} ").concat(
            chosen.as_str(),
        );
        if net_connected && (flags.0 || flags.2) {
            let change = PendingChange {
                network_id: id,
                network_name: net_name,
                tunnel_name: Some(chosen),
                action: PendingAction::Reconnect,
            };
            self.schedule_change(change, now_ms);
        }
        self.set_status(text, now_ms);
    }

    /// The helper calls that connect or disconnect the selected
    /// tunnel right now: an armed kill switch is dropped first, a live
    /// tunnel is disconnected before the new one comes up, and the new
    /// tunnel's kill switch is armed last.
    pub fn use_tunnel_now_plan(&self) -> (r: Vec<HelperOp>)
        ensures
            !(self.section == Section::Tunnels && self.selected_tunnel < self.tunnels@.len())
                ==> r@ =~= Seq::<HelperOp>::empty(),
            (self.section == Section::Tunnels && self.selected_tunnel < self.tunnels@.len()) ==> {
                let t = self.tunnels@[self.selected_tunnel as int].name;
                if self.vpn_status.connected && opt_view(self.vpn_status.interface) == Some(t@) {
                    r@ == if self.kill_switch_enabled {
                        seq![HelperOp::KillSwitchOff, HelperOp::Disconnect]
                    } else {
                        seq![HelperOp::Disconnect]
                    }
                } else {
                    {
                        let pre = if self.vpn_status.connected {
                            if self.kill_switch_enabled {
                                seq![HelperOp::KillSwitchOff, HelperOp::Disconnect]
                            } else {
                                seq![HelperOp::Disconnect]
                            }
                        } else {
                            Seq::<HelperOp>::empty()
                        };
                        let post = if spec_tunnel_ks(self.config.known_tunnels@, t@) {
                            seq![HelperOp::Connect(t), HelperOp::KillSwitchOn]
                        } else {
                            seq![HelperOp::Connect(t)]
                        };
                        r@ == pre + post
                    }
                }
            },
    {
        let mut ops: Vec<HelperOp> = Vec::new();
        if !(self.section == Section::Tunnels) {
            return ops;
        }
        if self.selected_tunnel >= self.tunnels.len() {
            return ops;
        }
        let t = self.tunnels[self.selected_tunnel].name.clone();
        let same = self.vpn_status.connected && (match &self.vpn_status.interface {
            Some(i) => {
                let iv = crate::strutil::str_chars(i.as_str());
                let tv = crate::strutil::str_chars(t.as_str());
                crate::strutil::chars_eq(&iv, &tv)
            },
            None => false,
        });
        if same {
            if self.kill_switch_enabled {
                ops.push(HelperOp::KillSwitchOff);
            }
            ops.push(HelperOp::Disconnect);
            proof {
                if self.kill_switch_enabled {
                    assert(ops@ =~= seq![HelperOp::KillSwitchOff, HelperOp::Disconnect]);
                } else {
                    assert(ops@ =~= seq![HelperOp::Disconnect]);
                }
                assert(opt_view(self.vpn_status.interface) == Some(
                    self.tunnels@[self.selected_tunnel as int].name@,
                ));
            }
            return ops;
        }
        if self.vpn_status.connected {
            if self.kill_switch_enabled {
                ops.push(HelperOp::KillSwitchOff);
            }
            ops.push(HelperOp::Disconnect);
        }
        let armed = match find_tunnel(&self.config.known_tunnels, t.as_str()) {
            Some(info) => info.kill_switch,
            None => false,
        };
        let ghost pre = ops@;
        ops.push(HelperOp::Connect(t));
        if armed {
            ops.push(HelperOp::KillSwitchOn);
        }
        proof {
            let t0 = self.tunnels@[self.selected_tunnel as int].name;
            if self.vpn_status.connected {
                if self.kill_switch_enabled {
                    assert(pre =~= seq![HelperOp::KillSwitchOff, HelperOp::Disconnect]);
                } else {
                    assert(pre =~= seq![HelperOp::Disconnect]);
                }
            } else {
                assert(pre =~= Seq::<HelperOp>::empty());
            }
            if armed {
                assert(ops@ =~= pre + seq![HelperOp::Connect(t0), HelperOp::KillSwitchOn]);
            } else {
                assert(ops@ =~= pre + seq![HelperOp::Connect(t0)]);
            }
        }
        ops
    }

    /// Records a successful connect: the tunnel becomes the last
    /// connected one and the kill-switch flag reflects whether the
    /// switch came up with it.
    pub fn note_connect_outcome(&mut self, tunnel: &str, ks_on: bool, now_ms: u64)
        ensures
            final(self).config.last_connected matches Some(l) && l@ == tunnel@,
            final(self).config == (AppConfig {
                last_connected: final(self).config.last_connected,
                ..old(self).config
            }),
            final(self).kill_switch_enabled == ks_on,
            final(self).status_message matches Some(m) && m@ == if ks_on {
                "Connected to "@ + tunnel@ + " (kill switch on)"@
            } else {
                "Connected to "@ + tunnel@
            },
            final(self).status_message_time == Some(now_ms),
            *final(self) == (App {
                config: final(self).config,
                kill_switch_enabled: ks_on,
                status_message: final(self).status_message,
                status_message_time: final(self).status_message_time,
                ..*old(self)
            }),
    {
        self.config.last_connected = Some(String::from_str(tunnel));
        self.kill_switch_enabled = ks_on;
        let msg = if ks_on {
            String::from_str("Connected to ").concat(tunnel).concat(" (kill switch on)")
        } else {
            String::from_str("Connected to ").concat(tunnel)
        };
        self.set_status(msg, now_ms);
    }

    /// Decides the startup kill-switch reconciliation from the status
    /// probe's answer: a switch already up from an earlier session is
    /// recorded as on; otherwise a connected tunnel whose saved flag
    /// is set arms the switch at once, without a countdown. (The
    /// reverse case — a connected tunnel whose flag is off under a
    /// probe that found the switch down — deliberately leaves the
    /// switch alone.)
    pub fn startup_killswitch_plan(&self, already_enabled: bool) -> (r: StartupKillSwitch)
        ensures
            already_enabled ==> r == StartupKillSwitch::RecordEnabled,
            !already_enabled ==> r == if self.vpn_status.connected && (match self
                .vpn_status
                .interface {
                Some(i) => spec_tunnel_ks(self.config.known_tunnels@, i@),
                None => false,
            }) {
                StartupKillSwitch::Arm
            } else {
                StartupKillSwitch::Leave
            },
    {
        if already_enabled {
            return StartupKillSwitch::RecordEnabled;
        }
        if self.vpn_status.connected {
            match &self.vpn_status.interface {
                Some(iface) => {
                    let armed = match find_tunnel(&self.config.known_tunnels, iface.as_str()) {
                        Some(info) => info.kill_switch,
                        None => false,
                    };
                    if armed {
                        return StartupKillSwitch::Arm;
                    }
                },
                None => {},
            }
        }
        StartupKillSwitch::Leave
    }

    /// The tunnel the startup auto-reconnect goes for: the saved last
    /// connection, when nothing is up, the option is on, and that
    /// tunnel still exists.
    pub fn auto_reconnect_candidate(&self) -> (r: Option<String>)
        ensures
            match r {
                Some(t) => {
                    &&& !self.vpn_status.connected
                    &&& self.config.auto_reconnect
                    &&& opt_view(self.config.last_connected) == Some(t@)
                    &&& spec_profile_pos(self.tunnels@, t@) is Some
                },
                None => !(!self.vpn_status.connected && self.config.auto_reconnect
                    && self.config.last_connected is Some && spec_profile_pos(
                    self.tunnels@,
                    self.config.last_connected->0@,
                ) is Some),
            },
    {
        if self.vpn_status.connected || !self.config.auto_reconnect {
            return None;
        }
        match &self.config.last_connected {
            Some(last) => {
                match find_profile_pos(&self.tunnels, last.as_str()) {
                    Some(_) => Some(last.clone()),
                    None => None,
                }
            },
            None => None,
        }
    }

    /// Which periodic work this tick owes: a status refresh each
    /// second; the IP lookup once pending, connected and unblocked; a
    /// connectivity check each ten seconds and a health check each
    /// thirty, neither while the kill switch blocks the probes.
    pub fn tick_due(&self, now_ms: u64) -> (r: (bool, bool, bool, bool))
        requires
            self.last_status_refresh <= now_ms,
            self.last_connectivity_check <= now_ms,
            self.last_health_check <= now_ms,
        ensures
            r.0 == (now_ms - self.last_status_refresh >= 1000),
            r.1 == (self.ip_fetch_pending && self.vpn_status.connected
                && !self.kill_switch_enabled),
            r.2 == (!self.kill_switch_enabled && now_ms - self.last_connectivity_check >= 10000),
            r.3 == (self.vpn_status.connected && !self.kill_switch_enabled && now_ms
                - self.last_health_check >= 30000),
    {
        (
            now_ms - self.last_status_refresh >= 1000,
            self.ip_fetch_pending && self.vpn_status.connected && !self.kill_switch_enabled,
            !self.kill_switch_enabled && now_ms - self.last_connectivity_check >= 10000,
            self.vpn_status.connected && !self.kill_switch_enabled && now_ms
                - self.last_health_check >= 30000,
        )
    }

    /// Takes a fresh tunnel status in: a new connection queues the
    /// public-IP lookup, a drop forgets the old public IP.
    pub fn note_status_refresh(&mut self, status: WgStatus, now_ms: u64)
        ensures
            final(self).vpn_status == status,
            final(self).last_status_refresh == now_ms,
            final(self).ip_fetch_pending == (old(self).ip_fetch_pending || (!old(
                self,
            ).vpn_status.connected && status.connected)),
            final(self).public_ip == if old(self).vpn_status.connected && !status.connected {
                None::<String>
            } else {
                old(self).public_ip
            },
            *final(self) == (App {
                vpn_status: final(self).vpn_status,
                last_status_refresh: now_ms,
                ip_fetch_pending: final(self).ip_fetch_pending,
                public_ip: final(self).public_ip,
                ..*old(self)
            }),
    {
        let was_connected = self.vpn_status.connected;
        let now_connected = status.connected;
        self.vpn_status = status;
        self.last_status_refresh = now_ms;
        if !was_connected && now_connected {
            self.ip_fetch_pending = true;
        }
        if was_connected && !now_connected {
            self.public_ip = None;
        }
    }

    /// Saves the per-tunnel kill-switch flag, creating the record if
    /// the tunnel was unknown.
    pub fn set_tunnel_kill_switch(&mut self, name: &str, enabled: bool)
        ensures
            *final(self) == (App { config: final(self).config, ..*old(self) }),
            final(self).config == (AppConfig {
                known_tunnels: final(self).config.known_tunnels,
                ..old(self).config
            }),
            spec_tunnel_pos(old(self).config.known_tunnels@, name@) matches Some(i)
                ==> final(self).config.known_tunnels@ == old(self).config.known_tunnels@.update(
                i,
                (TunnelInfo { kill_switch: enabled, ..old(self).config.known_tunnels@[i] }),
            ),
            spec_tunnel_pos(old(self).config.known_tunnels@, name@) is None ==> {
                let ts = final(self).config.known_tunnels@;
                &&& ts.len() == old(self).config.known_tunnels@.len() + 1
                &&& ts.drop_last() == old(self).config.known_tunnels@
                &&& ts.last().name@ == name@
                &&& ts.last().protocol@ == "wireguard"@
                &&& ts.last().kill_switch == enabled
            },
            spec_tunnel_ks(final(self).config.known_tunnels@, name@) == enabled,
    {
        let pos = find_tunnel_pos(&self.config.known_tunnels, name);
        match pos {
            Some(i) => {
                let entry = TunnelInfo {
                    name: self.config.known_tunnels[i].name.clone(),
                    protocol: self.config.known_tunnels[i].protocol.clone(),
                    kill_switch: enabled,
                };
                proof {
                    lemma_find_at_tunnel_pos(old(self).config.known_tunnels@, name@);
                    lemma_find_tunnel_update_first(
                        old(self).config.known_tunnels@,
                        name@,
                        i as int,
                        entry,
                    );
                }
                self.config.known_tunnels.set(i, entry);
            },
            None => {
                let t = TunnelInfo {
                    name: String::from_str(name),
                    protocol: String::from_str("wireguard"),
                    kill_switch: enabled,
                };
                proof {
                    lemma_find_at_tunnel_pos(old(self).config.known_tunnels@, name@);
                    lemma_find_tunnel_push(old(self).config.known_tunnels@, t, name@);
                }
                self.config.known_tunnels.push(t);
                proof {
                    assert(final(self).config.known_tunnels@.drop_last()
                        =~= old(self).config.known_tunnels@);
                }
            },
        }
    }

    /// Opens the blank manual-config popup.
    pub fn start_manual_config(&mut self)
        ensures
            final(self).popup == Popup::ManualConfig,
            final(self).input_buffer@ =~= Seq::<char>::empty(),
            final(self).config_preview@ =~= Seq::<char>::empty(),
            final(self).preview_field == 0,
            *final(self) == (App {
                popup: Popup::ManualConfig,
                input_buffer: final(self).input_buffer,
                config_preview: final(self).config_preview,
                preview_field: 0,
                ..*old(self)
            }),
    {
        self.popup = Popup::ManualConfig;
        self.input_buffer = String::new();
        self.config_preview = String::new();
        self.preview_field = 0;
    }
}

/// The helper calls a pending change runs when its countdown ends,
/// in order: the kill switch never outlives its tunnel (off before
/// disconnecting) and never precedes it (on only after connecting).
pub fn pending_ops(change: &PendingChange, ks_enabled: bool, tunnel_ks: bool) -> (r: Vec<
    HelperOp,
>)
    ensures
        change.action == PendingAction::Connect ==> r@ == match change.tunnel_name {
            Some(t) => if tunnel_ks {
                seq![HelperOp::Connect(t), HelperOp::KillSwitchOn]
            } else {
                seq![HelperOp::Connect(t)]
            },
            None => Seq::<HelperOp>::empty(),
        },
        change.action == PendingAction::Disconnect ==> r@ == if ks_enabled {
            seq![HelperOp::KillSwitchOff, HelperOp::Disconnect]
        } else {
            seq![HelperOp::Disconnect]
        },
        change.action == PendingAction::Reconnect ==> r@ == match change.tunnel_name {
            Some(t) => {
                let pre = if ks_enabled {
                    seq![HelperOp::KillSwitchOff, HelperOp::Disconnect, HelperOp::Connect(t)]
                } else {
                    seq![HelperOp::Disconnect, HelperOp::Connect(t)]
                };
                if tunnel_ks {
                    pre.push(HelperOp::KillSwitchOn)
                } else {
                    pre
                }
            },
            None => Seq::<HelperOp>::empty(),
        },
        change.action == PendingAction::KillSwitchOn ==> r@ == seq![HelperOp::KillSwitchOn],
        change.action == PendingAction::KillSwitchOff ==> r@ == seq![HelperOp::KillSwitchOff],
{
    let mut ops: Vec<HelperOp> = Vec::new();
    match change.action {
        PendingAction::Connect => {
            match &change.tunnel_name {
                Some(t) => {
                    ops.push(HelperOp::Connect(t.clone()));
                    if tunnel_ks {
                        ops.push(HelperOp::KillSwitchOn);
                    }
                    proof {
                        let t0 = change.tunnel_name->0;
                        if tunnel_ks {
                            assert(ops@ =~= seq![
                                HelperOp::Connect(t0),
                                HelperOp::KillSwitchOn,
                            ]);
                        } else {
                            assert(ops@ =~= seq![HelperOp::Connect(t0)]);
                        }
                    }
                },
                None => {},
            }
        },
        PendingAction::Disconnect => {
            if ks_enabled {
                ops.push(HelperOp::KillSwitchOff);
            }
            ops.push(HelperOp::Disconnect);
            proof {
                if ks_enabled {
                    assert(ops@ =~= seq![HelperOp::KillSwitchOff, HelperOp::Disconnect]);
                } else {
                    assert(ops@ =~= seq![HelperOp::Disconnect]);
                }
            }
        },
        PendingAction::Reconnect => {
            match &change.tunnel_name {
                Some(t) => {
                    if ks_enabled {
                        ops.push(HelperOp::KillSwitchOff);
                    }
                    ops.push(HelperOp::Disconnect);
                    ops.push(HelperOp::Connect(t.clone()));
                    if tunnel_ks {
                        ops.push(HelperOp::KillSwitchOn);
                    }
                    proof {
                        let t0 = change.tunnel_name->0;
                        let pre = if ks_enabled {
                            seq![
                                HelperOp::KillSwitchOff,
                                HelperOp::Disconnect,
                                HelperOp::Connect(t0),
                            ]
                        } else {
                            seq![HelperOp::Disconnect, HelperOp::Connect(t0)]
                        };
                        if tunnel_ks {
                            assert(ops@ =~= pre.push(HelperOp::KillSwitchOn));
                        } else {
                            assert(ops@ =~= pre);
                        }
                    }
                },
                None => {},
            }
        },
        PendingAction::KillSwitchOn => {
            ops.push(HelperOp::KillSwitchOn);
            proof {
                assert(ops@ =~= seq![HelperOp::KillSwitchOn]);
            }
        },
        PendingAction::KillSwitchOff => {
            ops.push(HelperOp::KillSwitchOff);
            proof {
                assert(ops@ =~= seq![HelperOp::KillSwitchOff]);
            }
        },
    }
    ops
}

/// Parts joined with a separator string.
pub open spec fn join_parts(parts: Seq<Seq<char>>, sep: Seq<char>) -> Seq<char>
    decreases parts.len(),
{
    if parts.len() == 0 {
        Seq::<char>::empty()
    } else if parts.len() == 1 {
        parts[0]
    } else {
        parts[0] + sep + join_parts(parts.drop_first(), sep)
    }
}

proof fn lemma_join_parts_snoc(p: Seq<Seq<char>>, x: Seq<char>, sep: Seq<char>)
    ensures
        join_parts(p.push(x), sep) == if p.len() == 0 {
            x
        } else {
            join_parts(p, sep) + sep + x
        },
    decreases p.len(),
{
    if p.len() == 0 {
        assert(p.push(x)[0] =~= x);
    } else {
        lemma_join_parts_snoc(p.drop_first(), x, sep);
        assert(p.push(x).drop_first() =~= p.drop_first().push(x));
        if p.len() == 1 {
            assert(p.drop_first().len() == 0);
        } else {
            assert(join_parts(p, sep) + sep + x =~= p[0] + sep + (join_parts(p.drop_first(), sep)
                + sep + x));
        }
    }
}

fn join_parts_exec(parts: &Vec<Vec<char>>, sep: &str) -> (r: Vec<char>)
    ensures
        r@ == join_parts(crate::strutil::views(parts@), sep@),
{
    let sv = crate::strutil::str_chars(sep);
    let mut r: Vec<char> = Vec::new();
    let ghost pv = crate::strutil::views(parts@);
    let mut i: usize = 0;
    while i < parts.len()
        invariant
            i <= parts@.len(),
            sv@ == sep@,
            pv == crate::strutil::views(parts@),
            r@ == join_parts(pv.take(i as int), sep@),
        decreases parts@.len() - i,
    {
        proof {
            lemma_join_parts_snoc(pv.take(i as int), pv[i as int], sep@);
            assert(pv.take(i + 1) =~= pv.take(i as int).push(pv[i as int]));
        }
        if i > 0 {
            let ghost before = r@;
            let mut j: usize = 0;
            while j < sv.len()
                invariant
                    j <= sv@.len(),
                    r@ == before + sv@.take(j as int),
                decreases sv@.len() - j,
            {
                r.push(sv[j]);
                proof {
                    assert(before + sv@.take(j + 1) =~= (before + sv@.take(j as int)).push(
                        sv@[j as int],
                    ));
                }
                j = j + 1;
            }
            proof {
                assert(sv@.take(sv@.len() as int) =~= sv@);
            }
        }
        let ghost mid = r@;
        let part = &parts[i];
        let mut j: usize = 0;
        while j < part.len()
            invariant
                j <= part@.len(),
                r@ == mid + part@.take(j as int),
            decreases part@.len() - j,
        {
            r.push(part[j]);
            proof {
                assert(mid + part@.take(j + 1) =~= (mid + part@.take(j as int)).push(
                    part@[j as int],
                ));
            }
            j = j + 1;
        }
        proof {
            assert(part@.take(part@.len() as int) =~= part@);
            if i > 0 {
                assert(r@ =~= join_parts(pv.take(i as int), sep@) + sep@ + pv[i as int]);
            } else {
                assert(r@ =~= pv[0]);
            }
        }
        i = i + 1;
    }
    proof {
        assert(pv.take(pv.len() as int) =~= pv);
    }
    r
}

/// The first network marked connected.
pub open spec fn first_connected(ns: Seq<NetworkInfo>) -> Option<NetworkInfo>
    decreases ns.len(),
{
    if ns.len() == 0 {
        None
    } else if ns[0].connected {
        Some(ns[0])
    } else {
        first_connected(ns.drop_first())
    }
}

/// The info line's parts while connected, in display order.
pub open spec fn spec_info_parts(a: App, uptime_secs: Option<u64>) -> Seq<Seq<char>> {
    let healthy = a.vpn_health.interface_exists && a.vpn_health.has_peer
        && a.vpn_health.routing_configured && a.vpn_health.can_reach_internet;
    let degraded = a.vpn_health.interface_exists && a.vpn_health.has_peer && (
    !a.vpn_health.handshake_recent || !a.vpn_health.routing_configured);
    let icon = if healthy {
        "\u{f0498}"@
    } else if degraded {
        "\u{f0499}"@
    } else {
        "\u{f048d}"@
    };
    let p1 = match a.vpn_status.interface {
        Some(i) => seq![icon + " "@ + i@],
        None => Seq::<Seq<char>>::empty(),
    };
    let p2 = match a.public_ip {
        Some(ip) => seq!["\u{f0a5f} "@ + ip@],
        None => Seq::<Seq<char>>::empty(),
    };
    let p3 = match (a.vpn_status.interface, uptime_secs) {
        (Some(_), Some(u)) => seq![
            "\u{f051f} "@ + crate::format::spec_format_duration(u as nat),
        ],
        _ => Seq::<Seq<char>>::empty(),
    };
    let p4 = match (a.vpn_status.transfer_rx, a.vpn_status.transfer_tx) {
        (Some(rx), Some(tx)) => seq![
            "\u{2193}"@ + crate::format::spec_format_bytes(
                crate::wgstatus::spec_transfer_bytes(rx@, true),
            ) + " \u{2191}"@ + crate::format::spec_format_bytes(
                crate::wgstatus::spec_transfer_bytes(tx@, true),
            ),
        ],
        _ => Seq::<Seq<char>>::empty(),
    };
    let p5 = if a.vpn_status.routing_ok {
        seq!["\u{f0498} Full"@]
    } else {
        seq!["\u{f0499} Split"@]
    };
    let p6 = if !a.kill_switch_enabled {
        if a.vpn_status.handshake_stale {
            seq!["\u{23f3} stale"@]
        } else if !a.vpn_health.can_reach_internet && a.vpn_health.interface_exists {
            seq!["\u{26a0} no internet"@]
        } else {
            Seq::<Seq<char>>::empty()
        }
    } else {
        Seq::<Seq<char>>::empty()
    };
    p1 + p2 + p3 + p4 + p5 + p6
}

/// The info line's content for a state.
pub open spec fn spec_info_message(a: App, uptime_secs: Option<u64>) -> Seq<char> {
    if a.vpn_status.connected {
        join_parts(spec_info_parts(a, uptime_secs), " \u{2502} "@)
    } else if !a.connectivity.has_interface {
        "\u{f092d} No network"@
    } else if !a.connectivity.has_ip_address {
        "\u{f092b} No IP address"@
    } else if !a.connectivity.has_internet {
        if a.connectivity.can_reach_gateway {
            "\u{f0929} No internet (captive portal?)"@
        } else {
            "\u{f0929} No internet"@
        }
    } else {
        match first_connected(a.networks@) {
            Some(n) => "\u{f05a9} "@ + n.name@ + " (no VPN)"@,
            None => "\u{f05a9} Online (no VPN)"@,
        }
    }
}

impl App {
    /// Rebuilds the info line from the current state. The interface
    /// uptime comes from outside, read off the live interface.
    #[verifier::rlimit(60)]
    pub fn update_info_message(&mut self, uptime_secs: Option<u64>)
        ensures
            *final(self) == (App { info_message: final(self).info_message, ..*old(self) }),
            final(self).info_message matches Some(msg) && msg@ == spec_info_message(
                *old(self),
                uptime_secs,
            ),
    {
        if self.vpn_status.connected {
            let mut parts: Vec<Vec<char>> = Vec::new();
            let healthy = self.vpn_health.is_healthy();
            let degraded = self.vpn_health.is_degraded();
            let icon: &str = if healthy {
                "\u{f0498}"
            } else if degraded {
                "\u{f0499}"
            } else {
                "\u{f048d}"
            };
            match &self.vpn_status.interface {
                Some(i) => {
                    let mut p = crate::strutil::str_chars(icon);
                    p.push(' ');
                    let iv = crate::strutil::str_chars(i.as_str());
                    crate::strutil::append_chars(&mut p, &iv);
                    proof {
                        reveal_strlit(" ");
                        assert(" "@.len() == 1 && " "@[0] == ' ');
                        assert(p@ =~= icon@ + " "@ + i@);
                    }
                    parts.push(p);
                },
                None => {},
            }
            match &self.public_ip {
                Some(ip) => {
                    let mut p = crate::strutil::str_chars("\u{f0a5f} ");
                    crate::strutil::append_chars(&mut p, &crate::strutil::str_chars(ip.as_str()));
                    parts.push(p);
                },
                None => {},
            }
            if matches!(&self.vpn_status.interface, Some(_)) {
                match uptime_secs {
                    Some(u) => {
                        let mut p = crate::strutil::str_chars("\u{f051f} ");
                        let d = crate::format::format_duration(u);
                        crate::strutil::append_chars(
                            &mut p,
                            &crate::strutil::str_chars(d.as_str()),
                        );
                        parts.push(p);
                    },
                    None => {},
                }
            }
            match (&self.vpn_status.transfer_rx, &self.vpn_status.transfer_tx) {
                (Some(rx), Some(tx)) => {
                    let rb = crate::wgstatus::parse_transfer_to_bytes(rx.as_str());
                    let tb = crate::wgstatus::parse_transfer_to_bytes(tx.as_str());
                    let mut p = crate::strutil::str_chars("\u{2193}");
                    crate::strutil::append_chars(
                        &mut p,
                        &crate::strutil::str_chars(crate::format::format_bytes(rb).as_str()),
                    );
                    crate::strutil::append_chars(&mut p, &crate::strutil::str_chars(" \u{2191}"));
                    crate::strutil::append_chars(
                        &mut p,
                        &crate::strutil::str_chars(crate::format::format_bytes(tb).as_str()),
                    );
                    parts.push(p);
                },
                _ => {},
            }
            if self.vpn_status.routing_ok {
                parts.push(crate::strutil::str_chars("\u{f0498} Full"));
            } else {
                parts.push(crate::strutil::str_chars("\u{f0499} Split"));
            }
            if !self.kill_switch_enabled {
                if self.vpn_status.handshake_stale {
                    parts.push(crate::strutil::str_chars("\u{23f3} stale"));
                } else if !self.vpn_health.can_reach_internet && self.vpn_health.interface_exists {
                    parts.push(crate::strutil::str_chars("\u{26a0} no internet"));
                }
            }
            proof {
                assert(crate::strutil::views(parts@) =~= spec_info_parts(*old(self), uptime_secs));
            }
            let joined = join_parts_exec(&parts, " \u{2502} ");
            self.info_message = Some(crate::strutil::chars_string(&joined));
        } else if !self.connectivity.has_interface {
            self.info_message = Some(String::from_str("\u{f092d} No network"));
        } else if !self.connectivity.has_ip_address {
            self.info_message = Some(String::from_str("\u{f092b} No IP address"));
        } else if !self.connectivity.has_internet {
            if self.connectivity.can_reach_gateway {
                self.info_message = Some(
                    String::from_str("\u{f0929} No internet (captive portal?)"),
                );
            } else {
                self.info_message = Some(String::from_str("\u{f0929} No internet"));
            }
        } else {
            let ghost ns = self.networks@;
            proof {
                assert(ns.skip(0) =~= ns);
            }
            let mut found: Option<String> = None;
            let mut i: usize = 0;
            while i < self.networks.len() && found.is_none()
                invariant
                    i <= self.networks@.len(),
                    ns == self.networks@,
                    match found {
                        Some(nm) => first_connected(ns) matches Some(n) && n.name@ == nm@,
                        None => first_connected(ns) == first_connected(ns.skip(i as int)),
                    },
                decreases self.networks@.len() - i,
            {
                proof {
                    assert(ns.skip(i as int)[0] == ns[i as int]);
                    assert(ns.skip(i as int).drop_first() =~= ns.skip(i + 1));
                }
                if self.networks[i].connected {
                    found = Some(self.networks[i].name.clone());
                }
                i = i + 1;
            }
            proof {
                assert(ns.skip(ns.len() as int) =~= Seq::<NetworkInfo>::empty());
            }
            match found {
                Some(nm) => {
                    let msg = String::from_str("\u{f05a9} ").concat(nm.as_str()).concat(
                        " (no VPN)",
                    );
                    self.info_message = Some(msg);
                },
                None => {
                    self.info_message = Some(String::from_str("\u{f05a9} Online (no VPN)"));
                },
            }
        }
    }
}

impl App {
    /// Reads a transfer amount such as `"1.23 GiB"` to bytes.
    pub fn parse_transfer_to_bytes(s: &str) -> (r: u64)
        ensures
            r as nat == crate::wgstatus::spec_transfer_bytes(s@, true),
    {
        crate::wgstatus::parse_transfer_to_bytes(s)
    }

    /// Writes a byte count with its binary unit.
    pub fn format_bytes(bytes: u64) -> (r: String)
        ensures
            r@ == crate::format::spec_format_bytes(bytes as nat),
    {
        crate::format::format_bytes(bytes)
    }

    /// Writes a duration in the largest fitting units.
    pub fn format_duration(secs: u64) -> (r: String)
        ensures
            r@ == crate::format::spec_format_duration(secs as nat),
    {
        crate::format::format_duration(secs)
    }
}

/// The waybar class for a status: connected with a fresh handshake,
/// degraded when the handshake has gone stale, else disconnected.
pub fn status_class(status: &WgStatus) -> (r: String)
    ensures
        status.connected && !status.handshake_stale ==> r@ == "connected"@,
        status.connected && status.handshake_stale ==> r@ == "degraded"@,
        !status.connected ==> r@ == "disconnected"@,
{
    if status.connected && !status.handshake_stale {
        String::from_str("connected")
    } else if status.connected {
        String::from_str("degraded")
    } else {
        String::from_str("disconnected")
    }
}

/// The tunnel counts as effectively connected only with a fresh
/// handshake.
pub fn is_effectively_connected(status: &WgStatus) -> (r: bool)
    ensures
        r == (status.connected && !status.handshake_stale),
{
    status.connected && !status.handshake_stale
}

/// The state after scheduling `change` at `now_ms`: the slot holds the
/// change alone and the countdown restarts at its full value.
pub open spec fn spec_schedule(a: App, change: PendingChange, now_ms: u64) -> App {
    App {
        pending_change: Some(change),
        countdown_start: Some(now_ms),
        countdown_seconds: COUNTDOWN_SECONDS as u8,
        ..a
    }
}

/// Scheduling leaves exactly one pending change — the one scheduled —
/// whatever was in flight before, and resets the countdown to its
/// full four seconds.
pub proof fn lemma_schedule_replaces(a: App, change: PendingChange, now_ms: u64)
    ensures
        spec_schedule(a, change, now_ms).pending_change == Some(change),
        spec_schedule(a, change, now_ms).countdown_seconds == 4,
        spec_schedule(a, change, now_ms).countdown_start == Some(now_ms),
{
}

} // verus!
