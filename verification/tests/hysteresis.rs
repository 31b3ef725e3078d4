use birdwatcher_rs::service::{DurationMs, ServiceDefinition, ServiceState};

fn def(fall: u32, rise: u32) -> ServiceDefinition {
    ServiceDefinition {
        service_name: "svc".to_owned(),
        function_name: "svc_fn".to_owned(),
        command: "/bin/true".to_owned(),
        args: vec![],
        interval: DurationMs::from_secs(1),
        command_timeout: DurationMs::from_secs(1),
        fall,
        rise,
    }
}

/// Startup fast path: with `rise = 5`, a freshly initialised service
/// transitions to `Success` after exactly one successful probe.
#[test]
fn startup_fast_path() {
    let d = def(4, 5);
    let st = ServiceState::initial(5);
    assert_eq!(st, ServiceState::Failure { nb_of_success: 4 });
    let (next, transitioned) = st.update_with(true, &d);
    assert_eq!(next, ServiceState::Success { nb_of_failure: 0 });
    assert!(transitioned);
}

/// `fall = 1` flips down on the first failure from `Success`.
#[test]
fn fall_one_flips_immediately() {
    let d = def(1, 3);
    let (next, transitioned) = ServiceState::Success { nb_of_failure: 0 }.update_with(false, &d);
    assert_eq!(next, ServiceState::Failure { nb_of_success: 0 });
    assert!(transitioned);
}

/// `rise = 1` flips up on the first success from `Failure`.
#[test]
fn rise_one_flips_immediately() {
    let d = def(3, 1);
    let (next, transitioned) = ServiceState::Failure { nb_of_success: 0 }.update_with(true, &d);
    assert_eq!(next, ServiceState::Success { nb_of_failure: 0 });
    assert!(transitioned);
}

/// A `Success -> Failure` transition happens exactly on the `fall`-th
/// consecutive failure.
#[test]
fn down_after_exactly_fall_failures() {
    let d = def(3, 2);
    let mut st = ServiceState::Success { nb_of_failure: 0 };
    for step in 1..=2 {
        let (next, transitioned) = st.update_with(false, &d);
        assert!(!transitioned, "flipped too early at failure {step}");
        st = next;
    }
    let (next, transitioned) = st.update_with(false, &d);
    assert!(transitioned);
    assert_eq!(next, ServiceState::Failure { nb_of_success: 0 });
}

/// A success in between resets the failure count.
#[test]
fn success_resets_failure_count() {
    let d = def(2, 2);
    let st = ServiceState::Success { nb_of_failure: 0 };
    let (st, t1) = st.update_with(false, &d);
    assert!(!t1);
    let (st, t2) = st.update_with(true, &d);
    assert!(!t2);
    assert_eq!(st, ServiceState::Success { nb_of_failure: 0 });
    let (st, t3) = st.update_with(false, &d);
    assert!(!t3);
    let (st, t4) = st.update_with(false, &d);
    assert!(t4);
    assert_eq!(st, ServiceState::Failure { nb_of_success: 0 });
}

/// An up flip needs exactly `rise` consecutive successes once running.
#[test]
fn up_after_exactly_rise_successes() {
    let d = def(2, 3);
    let mut st = ServiceState::Failure { nb_of_success: 0 };
    for step in 1..=2 {
        let (next, transitioned) = st.update_with(true, &d);
        assert!(!transitioned, "flipped too early at success {step}");
        st = next;
    }
    let (next, transitioned) = st.update_with(true, &d);
    assert!(transitioned);
    assert_eq!(next, ServiceState::Success { nb_of_failure: 0 });
}

/// The largest thresholds: counters saturate into a flip without wrapping.
#[test]
fn largest_thresholds_do_not_overflow() {
    let d = def(u32::MAX, u32::MAX);
    let st = ServiceState::initial(u32::MAX);
    assert_eq!(st, ServiceState::Failure { nb_of_success: u32::MAX - 1 });
    let (next, transitioned) = st.update_with(true, &d);
    assert!(transitioned);
    assert_eq!(next, ServiceState::Success { nb_of_failure: 0 });

    let (next, transitioned) =
        ServiceState::Success { nb_of_failure: u32::MAX - 1 }.update_with(false, &d);
    assert!(transitioned);
    assert_eq!(next, ServiceState::Failure { nb_of_success: 0 });

    let (next, transitioned) = ServiceState::Success { nb_of_failure: 0 }.update_with(false, &d);
    assert!(!transitioned);
    assert_eq!(next, ServiceState::Success { nb_of_failure: 1 });
}

/// Idempotence: results that agree with the current state never report a
/// transition, in either direction.
#[test]
fn repeated_agreeing_results_never_transition() {
    let d = def(2, 2);
    let mut up = ServiceState::Success { nb_of_failure: 1 };
    for _ in 0..10 {
        let (next, transitioned) = up.update_with(true, &d);
        assert!(!transitioned);
        assert_eq!(next, ServiceState::Success { nb_of_failure: 0 });
        up = next;
    }
    let mut down = ServiceState::Failure { nb_of_success: 1 };
    for _ in 0..10 {
        let (next, transitioned) = down.update_with(false, &d);
        assert!(!transitioned);
        assert_eq!(next, ServiceState::Failure { nb_of_success: 0 });
        down = next;
    }
}
