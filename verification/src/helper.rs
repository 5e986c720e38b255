//! The privileged helper's outcomes, as the callers classify them.

use vstd::prelude::*;

verus! {

/// What one bounded helper invocation came back with. A timed-out
/// call carries no exit status worth reading.
#[derive(Debug, Clone)]
pub struct HelperOutcome {
    pub timed_out: bool,
    pub exit_ok: bool,
    pub stdout: String,
    pub stderr: String,
}

/// The two helper failure kinds the engine distinguishes: a call that
/// never answered, and one that answered with a non-zero exit.
#[derive(Debug, Clone, Copy, PartialEq, Eq, Structural)]
pub enum HelperErrorKind {
    Timeout,
    Refused,
}

/// The classification of a helper outcome.
pub open spec fn spec_classify(timed_out: bool, exit_ok: bool) -> Option<HelperErrorKind> {
    if timed_out {
        Some(HelperErrorKind::Timeout)
    } else if !exit_ok {
        Some(HelperErrorKind::Refused)
    } else {
        None
    }
}

/// Sorts a helper outcome into success, timeout or refusal.
pub fn classify_helper(outcome: &HelperOutcome) -> (r: Option<HelperErrorKind>)
    ensures
        r == spec_classify(outcome.timed_out, outcome.exit_ok),
{
    if outcome.timed_out {
        Some(HelperErrorKind::Timeout)
    } else if !outcome.exit_ok {
        Some(HelperErrorKind::Refused)
    } else {
        None
    }
}

/// A timeout is never read as a refusal, whatever exit status the
/// dead call would have carried, and a plain non-zero exit is never
/// read as a timeout.
pub proof fn lemma_timeout_not_refused(timed_out: bool, exit_ok: bool)
    ensures
        timed_out ==> spec_classify(timed_out, exit_ok) == Some(HelperErrorKind::Timeout),
        !timed_out && !exit_ok ==> spec_classify(timed_out, exit_ok) == Some(
            HelperErrorKind::Refused,
        ),
        Some(HelperErrorKind::Timeout) != Some(HelperErrorKind::Refused),
{
}

} // verus!
