//! The reconciliation engine's decisions: what the control loop does
//! on a network change, on a failed health check, and after a resume.
//! The loop itself performs the helper calls and probes and feeds
//! their outcomes back in.

use vstd::prelude::*;
use crate::config::{AppConfig, NetworkRule, spec_find_rule, find_rule};
use crate::netinfo::{NetworkInfo, spec_identifier};
use crate::power::PowerStateTracker;
use crate::wgstatus::{WgStatus, opt_view};
use crate::config::clone_opt_string;

verus! {

/// Seconds between control-loop ticks.
pub const CHECK_INTERVAL_SECS: u64 = 5;

/// Seconds the engine waits for the network after a resume.
pub const NETWORK_READY_TIMEOUT_SECS: u64 = 30;

/// Base delay before a reconnect attempt, in milliseconds.
pub const VPN_RECONNECT_DELAY_MS: u64 = 2000;

/// Seconds between tunnel liveness checks.
pub const VPN_HEALTH_CHECK_INTERVAL: u64 = 30;

/// Reconnect attempts before the engine gives up until the next
/// network change.
pub const MAX_RECONNECT_ATTEMPTS: u32 = 3;

/// The engine's memory between ticks.
#[derive(Debug)]
pub struct MonitorState {
    pub last_network_id: Option<String>,
    pub last_vpn_connected: bool,
    pub last_vpn_interface: Option<String>,
    pub health_check_counter: u64,
    pub reconnect_attempts: u32,
    pub power_tracker: PowerStateTracker,
}

impl MonitorState {
    /// The starting state around a fresh power baseline.
    pub fn new(power_tracker: PowerStateTracker) -> (r: MonitorState)
        ensures
            r.last_network_id is None,
            !r.last_vpn_connected,
            r.last_vpn_interface is None,
            r.health_check_counter == 0,
            r.reconnect_attempts == 0,
            r.power_tracker == power_tracker,
    {
        MonitorState {
            last_network_id: None,
            last_vpn_connected: false,
            last_vpn_interface: None,
            health_check_counter: 0,
            reconnect_attempts: 0,
            power_tracker,
        }
    }

    /// Advances the liveness-check counter by one tick and reports
    /// whether a health check is due (the counter then restarts).
    pub fn health_tick(&mut self) -> (due: bool)
        requires
            old(self).health_check_counter <= VPN_HEALTH_CHECK_INTERVAL,
        ensures
            due == (old(self).health_check_counter + CHECK_INTERVAL_SECS
                >= VPN_HEALTH_CHECK_INTERVAL),
            *final(self) == (MonitorState {
                health_check_counter: if due {
                    0
                } else {
                    (old(self).health_check_counter + CHECK_INTERVAL_SECS) as u64
                },
                ..*old(self)
            }),
    {
        self.health_check_counter = self.health_check_counter + CHECK_INTERVAL_SECS;
        if self.health_check_counter >= VPN_HEALTH_CHECK_INTERVAL {
            self.health_check_counter = 0;
            true
        } else {
            false
        }
    }

    /// Records the tunnel state this tick ends with.
    pub fn note_status(&mut self, status: &WgStatus)
        ensures
            *final(self) == (MonitorState {
                last_vpn_connected: status.connected,
                last_vpn_interface: final(self).last_vpn_interface,
                ..*old(self)
            }),
            opt_view(final(self).last_vpn_interface) == opt_view(status.interface),
    {
        self.last_vpn_connected = status.connected;
        self.last_vpn_interface = clone_opt_string(&status.interface);
    }

    /// Starts one reconnect attempt: the counter steps up and the
    /// exponential backoff doubles with it, capped at sixteen times
    /// the base delay (two seconds up to thirty-two).
    pub fn begin_reconnect(&mut self) -> (backoff_ms: u64)
        requires
            old(self).reconnect_attempts < 0xffff_ffff,
        ensures
            *final(self) == (MonitorState {
                reconnect_attempts: (old(self).reconnect_attempts + 1) as u32,
                ..*old(self)
            }),
            backoff_ms == VPN_RECONNECT_DELAY_MS * (1u64 << (if old(self).reconnect_attempts + 1
                < 4 {
                (old(self).reconnect_attempts + 1) as u64
            } else {
                4u64
            })),
    {
        self.reconnect_attempts = self.reconnect_attempts + 1;
        let e: u64 = if self.reconnect_attempts < 4 {
            self.reconnect_attempts as u64
        } else {
            4
        };
        proof {
            assert(e <= 4);
            assert((1u64 << e) <= 16) by (bit_vector)
                requires
                    e <= 4,
            ;
        }
        VPN_RECONNECT_DELAY_MS * (1u64 << e)
    }

    /// Ends a reconnect attempt: a verified success clears the
    /// counter, a failure keeps it for the backoff to grow.
    pub fn finish_reconnect(&mut self, success: bool)
        ensures
            *final(self) == (MonitorState {
                reconnect_attempts: if success {
                    0
                } else {
                    old(self).reconnect_attempts
                },
                ..*old(self)
            }),
    {
        if success {
            self.reconnect_attempts = 0;
        }
    }

    /// Gives up on reconnecting until the next network change.
    pub fn record_give_up(&mut self)
        ensures
            *final(self) == (MonitorState { reconnect_attempts: 0, ..*old(self) }),
    {
        self.reconnect_attempts = 0;
    }
}

/// The tunnel is actually carrying traffic: up, routed, and — when
/// the handshake has gone stale — still able to reach the internet
/// (the probe's outcome comes in as `internet_probe`).
pub open spec fn spec_vpn_health(status: WgStatus, internet_probe: bool) -> bool {
    if !status.connected {
        false
    } else if !status.routing_ok {
        false
    } else if status.handshake_stale {
        internet_probe
    } else {
        true
    }
}

/// Whether the tunnel is actually working, not merely up.
pub fn verify_vpn_health(status: &WgStatus, internet_probe: bool) -> (r: bool)
    ensures
        r == spec_vpn_health(*status, internet_probe),
{
    if !status.connected {
        return false;
    }
    if !status.routing_ok {
        return false;
    }
    if status.handshake_stale {
        return internet_probe;
    }
    true
}

/// What a network change asks of the tunnel.
#[derive(Debug, Clone, PartialEq)]
pub enum ChangePlan {
    /// Bring the tunnel up on this profile (`session` marks a
    /// session rule, which only differs in its notification).
    Connect { profile: String, session: bool },
    /// Take the tunnel down.
    Disconnect,
    /// Leave the tunnel alone.
    Nothing,
}

/// The preferred tunnel of a rule: its own, else the default profile.
pub open spec fn rule_tunnel(r: NetworkRule, config: AppConfig) -> Option<Seq<char>> {
    match r.tunnel_name {
        Some(t) => Some(t@),
        None => match config.default_profile {
            Some(d) => Some(d@),
            None => None,
        },
    }
}

/// Decides what to do when the active network has changed: an
/// always or session rule connects its tunnel, a never rule
/// disconnects, no rule leaves the tunnel alone.
pub fn plan_network_change(config: &AppConfig, current: &Option<NetworkInfo>) -> (r: ChangePlan)
    ensures
        current is None ==> r == ChangePlan::Nothing,
        current matches Some(net) ==> {
            let rule = spec_find_rule(config.network_rules@, spec_identifier(*net));
            match rule {
                Some(ru) => {
                    if ru.always_vpn || ru.session_vpn {
                        match rule_tunnel(ru, *config) {
                            Some(p) => r matches ChangePlan::Connect { profile, session }
                                && profile@ == p && session == (!ru.always_vpn && ru.session_vpn),
                            None => r == ChangePlan::Nothing,
                        }
                    } else if ru.never_vpn {
                        r == ChangePlan::Disconnect
                    } else {
                        r == ChangePlan::Nothing
                    }
                },
                None => r == ChangePlan::Nothing,
            }
        },
{
    match current {
        None => ChangePlan::Nothing,
        Some(net) => {
            let id = net.identifier();
            let rule = find_rule(&config.network_rules, id.as_str());
            match rule {
                Some(ru) => {
                    if ru.always_vpn || ru.session_vpn {
                        let tunnel = match &ru.tunnel_name {
                            Some(t) => Some(t.clone()),
                            None => clone_opt_string(&config.default_profile),
                        };
                        match tunnel {
                            Some(p) => ChangePlan::Connect {
                                profile: p,
                                session: !ru.always_vpn && ru.session_vpn,
                            },
                            None => ChangePlan::Nothing,
                        }
                    } else if ru.never_vpn {
                        ChangePlan::Disconnect
                    } else {
                        ChangePlan::Nothing
                    }
                },
                None => ChangePlan::Nothing,
            }
        },
    }
}

/// What the periodic liveness check asks for.
#[derive(Debug, Clone, PartialEq)]
pub enum HealthPlan {
    /// Try to bring this profile back, within the attempt bound.
    Reconnect(String),
    /// The bound is spent: notify and stand down.
    GiveUp,
    /// Nothing to do.
    Nothing,
}

/// The profile a drop-recovery falls back through: the rule's tunnel,
/// the default profile, then the interface that was last up.
pub open spec fn drop_profile(
    r: NetworkRule,
    config: AppConfig,
    state_iface: Option<String>,
) -> Option<Seq<char>> {
    match r.tunnel_name {
        Some(t) => Some(t@),
        None => match config.default_profile {
            Some(d) => Some(d@),
            None => match state_iface {
                Some(i) => Some(i@),
                None => None,
            },
        },
    }
}

/// Decides what the liveness check does. An unexpected drop under a
/// connecting rule reconnects while attempts remain and gives up at
/// the bound; a connected but unhealthy tunnel reconnects on its own
/// interface under the same bound.
pub fn plan_health_check(
    config: &AppConfig,
    state: &MonitorState,
    current: &Option<NetworkInfo>,
    status: &WgStatus,
    healthy: bool,
) -> (r: HealthPlan)
    ensures
        state.last_vpn_connected && !status.connected ==> match current {
            Some(net) => {
                let rule = spec_find_rule(config.network_rules@, spec_identifier(*net));
                match rule {
                    Some(ru) => {
                        if (ru.always_vpn || ru.session_vpn) && state.reconnect_attempts
                            < MAX_RECONNECT_ATTEMPTS {
                            match drop_profile(ru, *config, state.last_vpn_interface) {
                                Some(p) => r matches HealthPlan::Reconnect(q) && q@ == p,
                                None => r == HealthPlan::Nothing,
                            }
                        } else if state.reconnect_attempts >= MAX_RECONNECT_ATTEMPTS {
                            r == HealthPlan::GiveUp
                        } else {
                            r == HealthPlan::Nothing
                        }
                    },
                    None => r == HealthPlan::Nothing,
                }
            },
            None => r == HealthPlan::Nothing,
        },
        !(state.last_vpn_connected && !status.connected) && status.connected && !healthy
            ==> match current {
            Some(net) => {
                let rule = spec_find_rule(config.network_rules@, spec_identifier(*net));
                match rule {
                    Some(ru) => {
                        if (ru.always_vpn || ru.session_vpn) && state.reconnect_attempts
                            < MAX_RECONNECT_ATTEMPTS {
                            match status.interface {
                                Some(i) => r matches HealthPlan::Reconnect(q) && q@ == i@,
                                None => r == HealthPlan::Nothing,
                            }
                        } else {
                            r == HealthPlan::Nothing
                        }
                    },
                    None => r == HealthPlan::Nothing,
                }
            },
            None => r == HealthPlan::Nothing,
        },
        !(state.last_vpn_connected && !status.connected) && !(status.connected && !healthy) ==> r
            == HealthPlan::Nothing,
{
    if state.last_vpn_connected && !status.connected {
        match current {
            Some(net) => {
                let id = net.identifier();
                let rule = find_rule(&config.network_rules, id.as_str());
                match rule {
                    Some(ru) => {
                        if (ru.always_vpn || ru.session_vpn) && state.reconnect_attempts
                            < MAX_RECONNECT_ATTEMPTS {
                            let tunnel = match &ru.tunnel_name {
                                Some(t) => Some(t.clone()),
                                None => match &config.default_profile {
                                    Some(d) => Some(d.clone()),
                                    None => clone_opt_string(&state.last_vpn_interface),
                                },
                            };
                            match tunnel {
                                Some(p) => HealthPlan::Reconnect(p),
                                None => HealthPlan::Nothing,
                            }
                        } else if state.reconnect_attempts >= MAX_RECONNECT_ATTEMPTS {
                            HealthPlan::GiveUp
                        } else {
                            HealthPlan::Nothing
                        }
                    },
                    None => HealthPlan::Nothing,
                }
            },
            None => HealthPlan::Nothing,
        }
    } else if status.connected && !healthy {
        match current {
            Some(net) => {
                let id = net.identifier();
                let rule = find_rule(&config.network_rules, id.as_str());
                match rule {
                    Some(ru) => {
                        if (ru.always_vpn || ru.session_vpn) && state.reconnect_attempts
                            < MAX_RECONNECT_ATTEMPTS {
                            match &status.interface {
                                Some(i) => HealthPlan::Reconnect(i.clone()),
                                None => HealthPlan::Nothing,
                            }
                        } else {
                            HealthPlan::Nothing
                        }
                    },
                    None => HealthPlan::Nothing,
                }
            },
            None => HealthPlan::Nothing,
        }
    } else {
        HealthPlan::Nothing
    }
}

/// What the post-resume evaluation asks for.
#[derive(Debug, Clone, PartialEq)]
pub enum ResumeAction {
    /// An always rule whose tunnel is absent, wrong or unhealthy:
    /// bring this profile back.
    Reconnect(String),
    /// An always rule verified working: only announce it.
    VerifiedOk(String),
    /// Suspend ended the session: drop the session rule for this
    /// network and disconnect if the tunnel is up.
    EndSession { disconnect: bool },
    /// A never rule with the tunnel up: take it down.
    Disconnect,
    /// No rule, tunnel up but unhealthy: take it down.
    DisconnectUnhealthy,
    /// Leave things as they are.
    Nothing,
}

/// Decides the recovery step after a resume, from the current
/// network's rule and the tunnel's verified health.
pub fn plan_resume(
    config: &AppConfig,
    current: &Option<NetworkInfo>,
    status: &WgStatus,
    healthy: bool,
) -> (r: ResumeAction)
    ensures
        current is None ==> r == ResumeAction::Nothing,
        current matches Some(net) ==> {
            let rule = spec_find_rule(config.network_rules@, spec_identifier(*net));
            match rule {
                Some(ru) => {
                    if ru.always_vpn {
                        match rule_tunnel(ru, *config) {
                            Some(p) => {
                                if !status.connected || opt_view(status.interface) != Some(p) {
                                    r matches ResumeAction::Reconnect(q) && q@ == p
                                } else if !healthy {
                                    r matches ResumeAction::Reconnect(q) && q@ == p
                                } else {
                                    r matches ResumeAction::VerifiedOk(q) && q@ == p
                                }
                            },
                            None => r == ResumeAction::Nothing,
                        }
                    } else if ru.session_vpn {
                        r == (ResumeAction::EndSession { disconnect: status.connected })
                    } else if ru.never_vpn {
                        r == if status.connected {
                            ResumeAction::Disconnect
                        } else {
                            ResumeAction::Nothing
                        }
                    } else {
                        r == if status.connected && !healthy {
                            ResumeAction::DisconnectUnhealthy
                        } else {
                            ResumeAction::Nothing
                        }
                    }
                },
                None => r == if status.connected && !healthy {
                    ResumeAction::DisconnectUnhealthy
                } else {
                    ResumeAction::Nothing
                },
            }
        },
{
    match current {
        None => ResumeAction::Nothing,
        Some(net) => {
            let id = net.identifier();
            let rule = find_rule(&config.network_rules, id.as_str());
            match rule {
                Some(ru) => {
                    if ru.always_vpn {
                        let tunnel = match &ru.tunnel_name {
                            Some(t) => Some(t.clone()),
                            None => clone_opt_string(&config.default_profile),
                        };
                        match tunnel {
                            Some(p) => {
                                let same = status.connected && (match &status.interface {
                                    Some(i) => {
                                        let iv = crate::strutil::str_chars(i.as_str());
                                        let pv = crate::strutil::str_chars(p.as_str());
                                        crate::strutil::chars_eq(&iv, &pv)
                                    },
                                    None => false,
                                });
                                if !same {
                                    ResumeAction::Reconnect(p)
                                } else if !healthy {
                                    ResumeAction::Reconnect(p)
                                } else {
                                    ResumeAction::VerifiedOk(p)
                                }
                            },
                            None => ResumeAction::Nothing,
                        }
                    } else if ru.session_vpn {
                        ResumeAction::EndSession { disconnect: status.connected }
                    } else if ru.never_vpn {
                        if status.connected {
                            ResumeAction::Disconnect
                        } else {
                            ResumeAction::Nothing
                        }
                    } else {
                        if status.connected && !healthy {
                            ResumeAction::DisconnectUnhealthy
                        } else {
                            ResumeAction::Nothing
                        }
                    }
                },
                None => {
                    if status.connected && !healthy {
                        ResumeAction::DisconnectUnhealthy
                    } else {
                        ResumeAction::Nothing
                    }
                },
            }
        },
    }
}

impl MonitorState {
    /// Ends a completed resume recovery: the engine remembers the
    /// tunnel state it sees now, the reconnect counter returns to
    /// zero, and the power baseline moves to now.
    pub fn finish_resume(
        &mut self,
        current_id: Option<String>,
        status: &WgStatus,
        now_ms: u64,
        uptime_secs: u64,
    )
        ensures
            final(self).last_network_id == current_id,
            final(self).last_vpn_connected == status.connected,
            opt_view(final(self).last_vpn_interface) == opt_view(status.interface),
            final(self).reconnect_attempts == 0,
            final(self).power_tracker.last_check_ms == now_ms,
            final(self).power_tracker.last_uptime == uptime_secs,
            final(self).health_check_counter == old(self).health_check_counter,
            final(self).power_tracker.expected_interval_ms == old(
                self,
            ).power_tracker.expected_interval_ms,
            final(self).power_tracker.resume_threshold_factor == old(
                self,
            ).power_tracker.resume_threshold_factor,
    {
        self.last_network_id = current_id;
        self.last_vpn_connected = status.connected;
        self.last_vpn_interface = clone_opt_string(&status.interface);
        self.reconnect_attempts = 0;
        self.power_tracker.reset_baseline(now_ms, uptime_secs);
    }

    /// Ends an aborted resume recovery (network never came back, or
    /// no internet behind it): only the power baseline moves.
    pub fn abort_resume(&mut self, now_ms: u64, uptime_secs: u64)
        ensures
            *final(self) == (MonitorState {
                power_tracker: final(self).power_tracker,
                ..*old(self)
            }),
            final(self).power_tracker == (PowerStateTracker {
                last_check_ms: now_ms,
                last_uptime: uptime_secs,
                ..old(self).power_tracker
            }),
    {
        self.power_tracker.reset_baseline(now_ms, uptime_secs);
    }
}

} // verus!
