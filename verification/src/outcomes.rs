//! Reduction of external command outcomes.
//!
//! A probe run collapses to one boolean: only a clean exit counts as
//! success.  A reload run keeps a little more detail for the log, but every
//! outcome is non-fatal and none is retried.

use vstd::prelude::*;

verus! {

/// How one probe command run ended.
#[derive(Clone, Debug, PartialEq)]
pub enum ProbeOutcome {
    /// The command ran to completion; `success` is whether it exited zero.
    Exited { success: bool },
    /// The command could not be launched.
    SpawnFailed,
    /// The command outlived its timeout.
    TimedOut,
}

/// Reduce a probe outcome to the boolean reported to the aggregator: spawn
/// failures, non-zero exits and timeouts all collapse to `false`; only a
/// zero exit is a success.
pub fn probe_success(outcome: &ProbeOutcome) -> (r: bool)
    ensures
        r == (*outcome == ProbeOutcome::Exited { success: true }),
{
    match outcome {
        ProbeOutcome::Exited { success } => *success,
        ProbeOutcome::SpawnFailed => false,
        ProbeOutcome::TimedOut => false,
    }
}

/// How one reload command run ended.
#[derive(Clone, Debug, PartialEq)]
pub enum ReloadOutcome {
    /// The command exited zero.
    Success,
    /// The command exited non-zero; its captured output is kept for the log.
    Failed { stdout: String, stderr: String },
    /// The command could not be launched.
    SpawnError { error: String },
    /// The command outlived its timeout.
    TimedOut,
}

/// The log line for a reload outcome.
pub open spec fn spec_reload_report(outcome: ReloadOutcome, command: Seq<char>) -> Seq<char> {
    match outcome {
        ReloadOutcome::Success => "Reload successful"@,
        ReloadOutcome::Failed { stdout, stderr } => "Reload failure. stdout = "@ + stdout@
            + ", stderr = "@ + stderr@,
        ReloadOutcome::SpawnError { error } => "Could not launch reload command '"@ + command
            + "'. e = "@ + error@,
        ReloadOutcome::TimedOut => "Reload command timed out"@,
    }
}

/// Render the log line for a reload outcome.  Every outcome is handled; a
/// failed or timed-out reload is reported and then simply awaited out — the
/// next transition triggers the next attempt.
pub fn reload_report(outcome: &ReloadOutcome, command: &str) -> (r: String)
    ensures
        r@ == spec_reload_report(*outcome, command@),
{
    let mut out = String::new();
    match outcome {
        ReloadOutcome::Success => {
            out.append("Reload successful");
        },
        ReloadOutcome::Failed { stdout, stderr } => {
            out.append("Reload failure. stdout = ");
            out.append(stdout.as_str());
            out.append(", stderr = ");
            out.append(stderr.as_str());
        },
        ReloadOutcome::SpawnError { error } => {
            out.append("Could not launch reload command '");
            out.append(command);
            out.append("'. e = ");
            out.append(error.as_str());
        },
        ReloadOutcome::TimedOut => {
            out.append("Reload command timed out");
        },
    }
    proof {
        assert(out@ =~= spec_reload_report(*outcome, command@));
    }
    out
}

} // verus!
