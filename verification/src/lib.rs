//! Verified core of a host-resident VPN orchestrator.
//!
//! The library holds the policy and reconciliation logic: network identity,
//! tunnel status interpretation, the persisted policy store and its text
//! format, the pending-change arbiter, the kill-switch protocol, the
//! suspend/resume detector, and the reconciliation planners. All I/O (the
//! privileged helper, probes, notifications, the terminal) lives outside,
//! in a thin shell that feeds observations in and carries plans out.

pub mod app_state;
pub mod config;
pub mod configtext;
pub mod connectivity;
pub mod engine;
pub mod format;
pub mod helper;
pub mod killswitch;
pub mod netinfo;
pub mod power;
pub mod profiles;
pub mod strutil;
pub mod wgstatus;
