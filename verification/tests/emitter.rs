use birdwatcher_rs::emitter::bird_functions_text;
use birdwatcher_rs::service::{DurationMs, ServiceDefinition, ServiceState};

fn def(function_name: &str) -> ServiceDefinition {
    ServiceDefinition {
        service_name: function_name.to_owned(),
        function_name: function_name.to_owned(),
        command: "/bin/true".to_owned(),
        args: vec![],
        interval: DurationMs::from_secs(1),
        command_timeout: DurationMs::from_secs(1),
        fall: 1,
        rise: 1,
    }
}

/// Two services in order; only the second is up.  The file holds both
/// function blocks, in definition order, returning false and true.
#[test]
fn two_services_one_up() {
    let defs = vec![def("svc1"), def("svc2")];
    let states = vec![
        ServiceState::Failure { nb_of_success: 0 },
        ServiceState::Success { nb_of_failure: 0 },
    ];
    let text = bird_functions_text(&defs, &states, true);
    assert_eq!(
        text,
        "\nfunction svc1() -> bool\n{\n    return false;\n}\n\n\nfunction svc2() -> bool\n{\n    return true;\n}\n"
    );
}

/// The return type annotation is omitted when the compatibility flag turns
/// it off.
#[test]
fn return_type_can_be_omitted() {
    let defs = vec![def("svc1")];
    let states = vec![ServiceState::Success { nb_of_failure: 2 }];
    let text = bird_functions_text(&defs, &states, false);
    assert_eq!(text, "\nfunction svc1()\n{\n    return true;\n}\n");
}

/// No services: an empty file.
#[test]
fn no_services_empty_text() {
    let text = bird_functions_text(&vec![], &vec![], true);
    assert_eq!(text, "");
}
