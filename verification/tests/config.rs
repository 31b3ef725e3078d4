use birdwatcher_rs::config::{Config, ConfigError, GeneratedFile, ThresholdField};
use birdwatcher_rs::service::{DurationMs, ServiceDefinition};

#[test]
fn empty_config_should_fail() {
    assert!(Config::from_string("".into()).is_err())
}

#[test]
fn one_service() {
    let config = Config::from_string(
        r#"
[generated_file]
path = "birdwatcher_generated.conf"

[bird_reload]
command = ["birdc", "configure"]
timeout_s = 1

[[service_definitions]]
service_name = "first_service"
function_name = "match_true"
command = ["/bin/ls", "myfile.txt"]
command_timeout_s = 2
interval_s = 3
fall = 4
rise = 5
"#
        .to_owned(),
    )
    .unwrap();
    assert_eq!(
        config.generated_file,
        GeneratedFile {
            path: "birdwatcher_generated.conf".to_owned(),
            function_return_type: true
        }
    );
    assert_eq!(config.reload_command, "birdc");
    assert_eq!(config.reload_command_args, ["configure"]);
    assert_eq!(config.reload_timeout, DurationMs::from_secs(1));

    assert_eq!(config.service_definitions.len(), 1);
    assert_eq!(
        config.service_definitions,
        vec![ServiceDefinition {
            service_name: "first_service".to_owned(),
            function_name: "match_true".to_owned(),
            command: "/bin/ls".to_owned(),
            args: vec!["myfile.txt".to_owned()],
            command_timeout: DurationMs::from_secs(2),
            interval: DurationMs::from_secs(3),
            fall: 4,
            rise: 5,
        },]
    );
}

#[test]
fn unknown_field_should_fail() {
    let config = Config::from_string(
        r#"
[generated_file]
path = "birdwatcher_generated.conf"

[bird_reload]
command = ["birdc", "configure"]
timeout_s = 2

[[service_definitions]]
service_name = "first_service"
function_name = "match_true"
command = ["/bin/ls", "1"]
command_timeout_s = 1
interval_s = 1.2
fall = 1
rise = 3
raise = 4
"#
        .to_owned(),
    );
    assert!(config.is_err());
    let e = config.err().unwrap();

    assert_eq!(e.message(), "unknown field `raise` in [service_definitions]");
}

#[test]
fn missing_field_should_fail() {
    let config = Config::from_string(
        r#"
[generated_file]
path = "birdwatcher_generated.conf"

[bird_reload]
command = ["birdc", "configure"]
timeout_s = 2

[[service_definitions]]
service_name = "first_service"
function_name = "match_true"
command = ["/bin/ls", "1"]
command_timeout_s = 1
interval_s = 1.2
fall = 1
"#
        .to_owned(),
    );
    assert!(config.is_err());
    let e = config.err().unwrap();

    assert_eq!(e.message(), "missing field `rise` in [service_definitions]");
}

/// An empty probe command list is rejected with an error naming the
/// offending service.
#[test]
fn empty_service_command_names_service() {
    let config = Config::from_string(
        r#"
[generated_file]
path = "out.conf"

[bird_reload]
command = ["birdc", "configure"]
timeout_s = 1

[[service_definitions]]
service_name = "svc1"
function_name = "fn1"
command = []
command_timeout_s = 1
interval_s = 1
fall = 1
rise = 1
"#
        .to_owned(),
    );
    let e = config.err().unwrap();
    match &e {
        ConfigError::EmptyServiceCommand { service_name } => {
            assert_eq!(service_name, "svc1");
        }
        other => panic!("unexpected error: {:?}", other),
    }
    assert_eq!(
        e.message(),
        "'service_definitions.command' of service 'svc1' should contain at least one element: the path to the executable to run"
    );
}

#[test]
fn empty_reload_command_rejected() {
    let config = Config::from_string(
        r#"
[generated_file]
path = "out.conf"

[bird_reload]
command = []
timeout_s = 1

[[service_definitions]]
service_name = "svc1"
function_name = "fn1"
command = ["/bin/true"]
command_timeout_s = 1
interval_s = 1
fall = 1
rise = 1
"#
        .to_owned(),
    );
    let e = config.err().unwrap();
    assert_eq!(e, ConfigError::EmptyReloadCommand);
    assert_eq!(
        e.message(),
        "'bird_reload.command' should contain at least one element: the path to the executable to run"
    );
}

#[test]
fn zero_rise_rejected() {
    let config = Config::from_string(
        r#"
[generated_file]
path = "out.conf"

[bird_reload]
command = ["birdc"]
timeout_s = 1

[[service_definitions]]
service_name = "svc1"
function_name = "fn1"
command = ["/bin/true"]
command_timeout_s = 1
interval_s = 1
fall = 2
rise = 0
"#
        .to_owned(),
    );
    let e = config.err().unwrap();
    assert_eq!(
        e,
        ConfigError::InvalidThreshold {
            service_name: "svc1".to_owned(),
            field: ThresholdField::Rise,
        }
    );
    assert_eq!(
        e.message(),
        "'service_definitions.rise' of service 'svc1' should be at least 1"
    );
}

#[test]
fn fractional_durations_become_milliseconds() {
    let config = Config::from_string(
        r#"
[generated_file]
path = "out.conf"
function_return_type = false

[bird_reload]
command = ["birdc"]
timeout_s = 2.5

[[service_definitions]]
service_name = "svc1"
function_name = "fn1"
command = ["/bin/true"]
command_timeout_s = 0.25
interval_s = 1.2
fall = 1
rise = 1
"#
        .to_owned(),
    )
    .unwrap();
    assert_eq!(config.generated_file.function_return_type, false);
    assert_eq!(config.reload_timeout, DurationMs::from_millis(2500));
    assert_eq!(config.service_definitions[0].command_timeout, DurationMs::from_millis(250));
    assert_eq!(config.service_definitions[0].interval, DurationMs::from_millis(1200));
}

#[test]
fn negative_duration_rejected() {
    let config = Config::from_string(
        r#"
[generated_file]
path = "out.conf"

[bird_reload]
command = ["birdc"]
timeout_s = -1
"#
        .to_owned(),
    );
    let e = config.err().unwrap();
    assert_eq!(
        e,
        ConfigError::InvalidDuration {
            table: "bird_reload".to_owned(),
            field: "timeout_s".to_owned(),
        }
    );
}

#[test]
fn wrong_type_rejected() {
    let config = Config::from_string(
        r#"
[generated_file]
path = 3

[bird_reload]
command = ["birdc"]
timeout_s = 1

service_definitions = []
"#
        .to_owned(),
    );
    let e = config.err().unwrap();
    assert_eq!(
        e,
        ConfigError::WrongType {
            table: "generated_file".to_owned(),
            field: "path".to_owned(),
        }
    );
    assert_eq!(e.message(), "invalid type for field `path` in [generated_file]");
}

#[test]
fn root_missing_section_reported() {
    let e = Config::from_string("".to_owned()).err().unwrap();
    assert_eq!(
        e,
        ConfigError::MissingField {
            table: "config".to_owned(),
            field: "generated_file".to_owned(),
        }
    );
}

#[test]
fn syntax_error_reported_as_toml() {
    let e = Config::from_string("= not toml".to_owned()).err().unwrap();
    assert!(matches!(e, ConfigError::Toml { .. }));
}
