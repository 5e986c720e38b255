//! The kill-switch protocol: status interpretation, the tolerated
//! disable diagnostics, and the verify-and-retry rule that only
//! reports the switch down when a status probe agrees.

use vstd::prelude::*;
use crate::strutil::{str_chars, chars_trim, chars_contains, chars_eq, spec_trim, contains_seq};
use crate::wgstatus::WgStatus;

verus! {

/// Whether a `killswitch-status` report reads `enabled`.
pub fn killswitch_status_enabled(stdout: &str) -> (r: bool)
    ensures
        r == (spec_trim(stdout@) == "enabled"@),
{
    let v = str_chars(stdout);
    let t = chars_trim(&v);
    chars_eq(&t, &str_chars("enabled"))
}

/// Whether a failed `killswitch-off` only complained that the
/// firewall table was already gone.
pub fn disable_error_tolerable(stderr: &str) -> (r: bool)
    ensures
        r == (contains_seq(stderr@, "No such file"@) || contains_seq(stderr@, "does not exist"@)),
{
    let v = str_chars(stderr);
    chars_contains(&v, &str_chars("No such file")) || chars_contains(&v, &str_chars(
        "does not exist",
    ))
}

/// The interface the kill switch is armed for: the live tunnel
/// interface, or the conventional name when none is known.
pub fn killswitch_iface(status: &WgStatus) -> (r: String)
    ensures
        match status.interface {
            Some(i) => r@ == i@,
            None => r@ == "wg0"@,
        },
{
    match &status.interface {
        Some(i) => i.clone(),
        None => String::from_str("wg0"),
    }
}

/// Whether the disable procedure retries: only when the first status
/// probe after the first `killswitch-off` still reads enabled.
pub open spec fn spec_disable_retries(first_probe_enabled: bool) -> bool {
    first_probe_enabled
}

/// Whether the disable procedure reports success, given what the one
/// or two status probes read.
pub open spec fn spec_disable_ok(first_probe_enabled: bool, second_probe_enabled: bool) -> bool {
    !first_probe_enabled || !second_probe_enabled
}

/// What the last status probe the procedure ran reported.
pub open spec fn spec_last_probe(first_probe_enabled: bool, second_probe_enabled: bool) -> bool {
    if first_probe_enabled {
        second_probe_enabled
    } else {
        first_probe_enabled
    }
}

/// The disable decision from the probes: whether a retry is owed, and
/// whether the procedure ends in success or in the critical failure.
pub fn disable_outcome(first_probe_enabled: bool, second_probe_enabled: bool) -> (r: (
    bool,
    bool,
))
    ensures
        r.0 == spec_disable_retries(first_probe_enabled),
        r.1 == spec_disable_ok(first_probe_enabled, second_probe_enabled),
{
    (first_probe_enabled, !first_probe_enabled || !second_probe_enabled)
}

/// The procedure reports success exactly when its last status probe
/// read the switch as down: a disable that returns Ok has seen
/// `is_enabled` come back false.
pub proof fn lemma_disable_verified(first_probe_enabled: bool, second_probe_enabled: bool)
    ensures
        spec_disable_ok(first_probe_enabled, second_probe_enabled) == !spec_last_probe(
            first_probe_enabled,
            second_probe_enabled,
        ),
{
}

} // verus!
