use birdwatcher_rs::aggregator::{Aggregator, ProbeReport};
use birdwatcher_rs::config::{Config, GeneratedFile};
use birdwatcher_rs::service::{DurationMs, ServiceDefinition, ServiceState};

fn sample_config() -> Config {
    let def = |name: &str, fall: u32, rise: u32| ServiceDefinition {
        service_name: name.to_owned(),
        function_name: name.to_owned(),
        command: "/bin/true".to_owned(),
        args: vec![],
        interval: DurationMs::from_secs(1),
        command_timeout: DurationMs::from_secs(1),
        fall,
        rise,
    };
    Config {
        generated_file: GeneratedFile {
            path: "out.conf".to_owned(),
            function_return_type: true,
        },
        reload_command: "birdc".to_owned(),
        reload_command_args: vec!["configure".to_owned()],
        reload_timeout: DurationMs::from_secs(2),
        service_definitions: vec![def("svc1", 2, 5), def("svc2", 1, 1)],
    }
}

/// A fresh aggregator starts every service one success short of promotion
/// and renders every function as false.
#[test]
fn starts_all_down() {
    let agg = Aggregator::new(sample_config());
    let bundle = agg.bundle();
    assert_eq!(
        bundle.service_states,
        vec![
            ServiceState::Failure { nb_of_success: 4 },
            ServiceState::Failure { nb_of_success: 0 },
        ]
    );
    let text = agg.render();
    assert_eq!(
        text,
        "\nfunction svc1() -> bool\n{\n    return false;\n}\n\n\nfunction svc2() -> bool\n{\n    return false;\n}\n"
    );
}

/// The first success promotes a fresh service and hands back the new
/// configuration text (startup fast path, observed end to end).
#[test]
fn first_success_triggers_emission() {
    let mut agg = Aggregator::new(sample_config());
    let text = agg
        .handle_report(ProbeReport { service_id: 0, success: true })
        .expect("a transition must hand back the new configuration text");
    assert_eq!(
        text,
        "\nfunction svc1() -> bool\n{\n    return true;\n}\n\n\nfunction svc2() -> bool\n{\n    return false;\n}\n"
    );
    let bundle = agg.bundle();
    assert_eq!(bundle.service_states[0], ServiceState::Success { nb_of_failure: 0 });
}

/// Repeated agreeing reports never hand back text: nothing is written and
/// no reload is triggered without a flip.
#[test]
fn no_transition_no_emission() {
    let mut agg = Aggregator::new(sample_config());
    assert!(agg.handle_report(ProbeReport { service_id: 0, success: true }).is_some());
    for _ in 0..5 {
        assert_eq!(agg.handle_report(ProbeReport { service_id: 0, success: true }), None);
    }
    // One failure with fall = 2: still no transition.
    assert_eq!(agg.handle_report(ProbeReport { service_id: 0, success: false }), None);
    // The second consecutive failure flips the service down.
    assert!(agg.handle_report(ProbeReport { service_id: 0, success: false }).is_some());
}

/// The snapshot is an independent value carrying the configuration and the
/// current states.
#[test]
fn bundle_carries_config_and_states() {
    let config = sample_config();
    let mut agg = Aggregator::new(config.clone());
    agg.handle_report(ProbeReport { service_id: 1, success: true });
    let bundle = agg.bundle();
    assert_eq!(bundle.config, config);
    assert_eq!(
        bundle.service_states,
        vec![
            ServiceState::Failure { nb_of_success: 4 },
            ServiceState::Success { nb_of_failure: 0 },
        ]
    );
}
