use birdwatcher_rs::outcomes::{probe_success, reload_report, ProbeOutcome, ReloadOutcome};

/// Only a clean exit counts as probe success.
#[test]
fn probe_outcome_reduction() {
    assert!(probe_success(&ProbeOutcome::Exited { success: true }));
    assert!(!probe_success(&ProbeOutcome::Exited { success: false }));
    assert!(!probe_success(&ProbeOutcome::SpawnFailed));
    assert!(!probe_success(&ProbeOutcome::TimedOut));
}

/// Each reload outcome gets its own log line.
#[test]
fn reload_report_lines() {
    assert_eq!(reload_report(&ReloadOutcome::Success, "birdc"), "Reload successful");
    assert_eq!(
        reload_report(
            &ReloadOutcome::Failed { stdout: "out".to_owned(), stderr: "err".to_owned() },
            "birdc"
        ),
        "Reload failure. stdout = out, stderr = err"
    );
    assert_eq!(
        reload_report(&ReloadOutcome::SpawnError { error: "no such file".to_owned() }, "birdc"),
        "Could not launch reload command 'birdc'. e = no such file"
    );
    assert_eq!(reload_report(&ReloadOutcome::TimedOut, "birdc"), "Reload command timed out");
}
