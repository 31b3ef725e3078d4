//! The elaborated configuration and its validation.
//!
//! [`Config::from_raw`] turns a raw document into the elaborated form: every
//! `command` list must carry at least one element (the executable, split off
//! from the arguments), the optional return-type flag gets its default, and
//! the fall/rise thresholds must be at least one so that the hysteresis
//! invariants hold for the whole process lifetime.

use vstd::prelude::*;

use crate::raw;
use crate::service::{DurationMs, ServiceDefinition};

verus! {

/// The elaborated `generated_file` section: the optional flag has received
/// its default.
#[derive(Clone, Debug, PartialEq)]
pub struct GeneratedFile {
    pub path: String,
    pub function_return_type: bool,
}

/// The elaborated configuration: reload command split into executable and
/// arguments, service definitions in document order.
#[derive(Clone, Debug, PartialEq)]
pub struct Config {
    pub generated_file: GeneratedFile,
    pub reload_command: String,
    pub reload_command_args: Vec<String>,
    pub reload_timeout: DurationMs,
    pub service_definitions: Vec<ServiceDefinition>,
}

/// The mathematical value of a [`GeneratedFile`].
pub ghost struct GeneratedFileView {
    pub path: Seq<char>,
    pub function_return_type: bool,
}

impl View for GeneratedFile {
    type V = GeneratedFileView;

    open spec fn view(&self) -> GeneratedFileView {
        GeneratedFileView {
            path: self.path@,
            function_return_type: self.function_return_type,
        }
    }
}

/// The mathematical value of a [`Config`].
pub ghost struct ConfigView {
    pub generated_file: GeneratedFileView,
    pub reload_command: Seq<char>,
    pub reload_command_args: Seq<Seq<char>>,
    pub reload_timeout: u64,
    pub service_definitions: Seq<crate::service::ServiceDefinitionView>,
}

impl View for Config {
    type V = ConfigView;

    open spec fn view(&self) -> ConfigView {
        ConfigView {
            generated_file: self.generated_file@,
            reload_command: self.reload_command@,
            reload_command_args: self.reload_command_args.deep_view(),
            reload_timeout: self.reload_timeout.millis,
            service_definitions: self.service_definitions.deep_view(),
        }
    }
}

/// Which threshold field of a service definition is out of range.
#[derive(Clone, Copy, Debug, PartialEq, Eq, Structural)]
pub enum ThresholdField {
    Fall,
    Rise,
}

/// Why a configuration document was rejected.
#[derive(Clone, Debug, PartialEq)]
pub enum ConfigError {
    /// The document is not valid TOML.
    Toml { message: String },
    /// A table holds a field the schema does not know.
    UnknownField { table: String, field: String },
    /// A required field is absent.
    MissingField { table: String, field: String },
    /// A field holds a value of the wrong type.
    WrongType { table: String, field: String },
    /// A duration field does not hold a representable number of seconds.
    InvalidDuration { table: String, field: String },
    /// The reload command list is empty.
    EmptyReloadCommand,
    /// A service's command list is empty.
    EmptyServiceCommand { service_name: String },
    /// A service's `fall` or `rise` is zero.
    InvalidThreshold { service_name: String, field: ThresholdField },
}

/// The descriptive text of a [`ConfigError`].
pub open spec fn spec_message(e: ConfigError) -> Seq<char> {
    match e {
        ConfigError::Toml { message } => "TOML parse error: "@ + message@,
        ConfigError::UnknownField { table, field } => "unknown field `"@ + field@ + "` in ["@
            + table@ + "]"@,
        ConfigError::MissingField { table, field } => "missing field `"@ + field@ + "` in ["@
            + table@ + "]"@,
        ConfigError::WrongType { table, field } => "invalid type for field `"@ + field@ + "` in ["@
            + table@ + "]"@,
        ConfigError::InvalidDuration { table, field } => "invalid duration in field `"@ + field@
            + "` in ["@ + table@ + "]"@,
        ConfigError::EmptyReloadCommand => "'bird_reload.command' should contain at least one element: the path to the executable to run"@,
        ConfigError::EmptyServiceCommand { service_name } => "'service_definitions.command' of service '"@
            + service_name@
            + "' should contain at least one element: the path to the executable to run"@,
        ConfigError::InvalidThreshold { service_name, field } => "'service_definitions."@ + (match field {
            ThresholdField::Fall => "fall"@,
            ThresholdField::Rise => "rise"@,
        }) + "' of service '"@ + service_name@ + "' should be at least 1"@,
    }
}

impl ConfigError {
    /// Render the descriptive, location-specific text of this error.
    pub fn message(&self) -> (r: String)
        ensures
            r@ == spec_message(*self),
    {
        let mut out = String::new();
        match self {
            ConfigError::Toml { message } => {
                out.append("TOML parse error: ");
                out.append(message.as_str());
            },
            ConfigError::UnknownField { table, field } => {
                out.append("unknown field `");
                out.append(field.as_str());
                out.append("` in [");
                out.append(table.as_str());
                out.append("]");
            },
            ConfigError::MissingField { table, field } => {
                out.append("missing field `");
                out.append(field.as_str());
                out.append("` in [");
                out.append(table.as_str());
                out.append("]");
            },
            ConfigError::WrongType { table, field } => {
                out.append("invalid type for field `");
                out.append(field.as_str());
                out.append("` in [");
                out.append(table.as_str());
                out.append("]");
            },
            ConfigError::InvalidDuration { table, field } => {
                out.append("invalid duration in field `");
                out.append(field.as_str());
                out.append("` in [");
                out.append(table.as_str());
                out.append("]");
            },
            ConfigError::EmptyReloadCommand => {
                out.append(
                    "'bird_reload.command' should contain at least one element: the path to the executable to run",
                );
            },
            ConfigError::EmptyServiceCommand { service_name } => {
                out.append("'service_definitions.command' of service '");
                out.append(service_name.as_str());
                out.append(
                    "' should contain at least one element: the path to the executable to run",
                );
            },
            ConfigError::InvalidThreshold { service_name, field } => {
                out.append("'service_definitions.");
                match field {
                    ThresholdField::Fall => out.append("fall"),
                    ThresholdField::Rise => out.append("rise"),
                }
                out.append("' of service '");
                out.append(service_name.as_str());
                out.append("' should be at least 1");
            },
        }
        proof {
            assert(out@ =~= spec_message(*self));
        }
        out
    }
}

/// The validation error of one raw service definition, if any: an empty
/// command list first, then a zero `fall`, then a zero `rise`.
pub open spec fn spec_def_error(d: raw::ServiceDefinition) -> Option<ConfigError> {
    if d.command@.len() == 0 {
        Some(ConfigError::EmptyServiceCommand { service_name: d.service_name })
    } else if d.fall < 1 {
        Some(
            ConfigError::InvalidThreshold {
                service_name: d.service_name,
                field: ThresholdField::Fall,
            },
        )
    } else if d.rise < 1 {
        Some(
            ConfigError::InvalidThreshold {
                service_name: d.service_name,
                field: ThresholdField::Rise,
            },
        )
    } else {
        None
    }
}

/// The first service-definition error in document order, if any.
pub open spec fn spec_first_def_error(defs: Seq<raw::ServiceDefinition>) -> Option<ConfigError>
    decreases defs.len(),
{
    if defs.len() == 0 {
        None
    } else if spec_def_error(defs.first()) is Some {
        spec_def_error(defs.first())
    } else {
        spec_first_def_error(defs.drop_first())
    }
}

/// Whether a raw document passes validation.
pub open spec fn spec_raw_ok(r: raw::Config) -> bool {
    &&& r.bird_reload.command@.len() > 0
    &&& forall|i: int|
        0 <= i < r.service_definitions@.len() ==> spec_def_error(
            #[trigger] r.service_definitions@[i],
        ) is None
}

/// The error reported for an invalid raw document: the reload command is
/// checked first, then the services in order.
pub open spec fn spec_first_error(r: raw::Config) -> ConfigError {
    if r.bird_reload.command@.len() == 0 {
        ConfigError::EmptyReloadCommand
    } else {
        spec_first_def_error(r.service_definitions@)->0
    }
}

/// How one elaborated service definition relates to its raw form.
pub open spec fn spec_elab_def(d: raw::ServiceDefinition, e: ServiceDefinition) -> bool {
    &&& e.service_name == d.service_name
    &&& e.function_name == d.function_name
    &&& e.command == d.command@[0]
    &&& e.args@ == d.command@.skip(1)
    &&& e.interval == d.interval_s
    &&& e.command_timeout == d.command_timeout_s
    &&& e.fall == d.fall
    &&& e.rise == d.rise
}

/// The elaborated configuration invariant that the rest of the supervisor
/// relies on: every threshold is at least one.
pub open spec fn spec_config_wf(c: Config) -> bool {
    forall|i: int|
        0 <= i < c.service_definitions@.len() ==> ((#[trigger] c.service_definitions@[i]).fall >= 1
            && c.service_definitions@[i].rise >= 1)
}

/// How a whole elaborated configuration relates to its raw form.
pub open spec fn spec_elaborated(r: raw::Config, c: Config) -> bool {
    &&& c.generated_file.path == r.generated_file.path
    &&& c.generated_file.function_return_type == (match r.generated_file.function_return_type {
        Some(b) => b,
        None => true,
    })
    &&& r.bird_reload.command@.len() > 0
    &&& c.reload_command == r.bird_reload.command@[0]
    &&& c.reload_command_args@ == r.bird_reload.command@.skip(1)
    &&& c.reload_timeout == r.bird_reload.timeout_s
    &&& c.service_definitions@.len() == r.service_definitions@.len()
    &&& forall|i: int|
        0 <= i < r.service_definitions@.len() ==> spec_elab_def(
            r.service_definitions@[i],
            #[trigger] c.service_definitions@[i],
        )
}

/// If every definition before `i` validates and the one at `i` does not, the
/// first error of the whole list is the one at `i`.
proof fn lemma_first_def_error_at(defs: Seq<raw::ServiceDefinition>, i: int)
    requires
        0 <= i < defs.len(),
        forall|j: int| 0 <= j < i ==> spec_def_error(#[trigger] defs[j]) is None,
        spec_def_error(defs[i]) is Some,
    ensures
        spec_first_def_error(defs) == spec_def_error(defs[i]),
    decreases i,
{
    if i > 0 {
        lemma_first_def_error_at(defs.drop_first(), i - 1);
        assert(forall|j: int|
            0 <= j < defs.drop_first().len() ==> #[trigger] defs.drop_first()[j] == defs[j + 1]);
    }
}

/// Copy one string.
fn clone_string(s: &String) -> (r: String)
    ensures
        r == *s,
{
    s.clone()
}

/// Copy the tail of a command list: everything after the executable.
fn command_tail(command: &Vec<String>) -> (r: Vec<String>)
    requires
        command@.len() >= 1,
    ensures
        r@ == command@.skip(1),
{
    let mut r: Vec<String> = Vec::new();
    let mut i: usize = 1;
    while i < command.len()
        invariant
            1 <= i <= command@.len(),
            r@ =~= command@.subrange(1, i as int),
        decreases command@.len() - i,
    {
        r.push(clone_string(&command[i]));
        proof {
            assert(r@ =~= command@.subrange(1, i + 1));
        }
        i = i + 1;
    }
    proof {
        assert(command@.subrange(1, command@.len() as int) =~= command@.skip(1));
    }
    r
}

impl Config {
    /// Validate and elaborate a raw configuration document.
    ///
    /// Succeeds exactly when the reload command and every service command
    /// hold at least one element and every `fall`/`rise` threshold is at
    /// least one; the reported error is the first violation in document
    /// order.
    pub fn from_raw(raw_config: raw::Config) -> (r: Result<Config, ConfigError>)
        ensures
            r is Ok <==> spec_raw_ok(raw_config),
            r matches Ok(c) ==> spec_elaborated(raw_config, c),
            r matches Ok(c) ==> spec_config_wf(c),
            r matches Err(e) ==> e == spec_first_error(raw_config),
    {
        if raw_config.bird_reload.command.len() == 0 {
            return Err(ConfigError::EmptyReloadCommand);
        }
        let reload_command = clone_string(&raw_config.bird_reload.command[0]);
        let reload_command_args = command_tail(&raw_config.bird_reload.command);

        let mut defs: Vec<ServiceDefinition> = Vec::new();
        let mut i: usize = 0;
        let n = raw_config.service_definitions.len();
        while i < n
            invariant
                raw_config.bird_reload.command@.len() > 0,
                n == raw_config.service_definitions@.len(),
                i <= n,
                defs@.len() == i,
                forall|j: int|
                    0 <= j < i ==> spec_def_error(
                        #[trigger] raw_config.service_definitions@[j],
                    ) is None,
                forall|j: int|
                    0 <= j < i ==> spec_elab_def(
                        raw_config.service_definitions@[j],
                        #[trigger] defs@[j],
                    ),
            decreases n - i,
        {
            let d = &raw_config.service_definitions[i];
            if d.command.len() == 0 {
                let e = ConfigError::EmptyServiceCommand {
                    service_name: clone_string(&d.service_name),
                };
                proof {
                    lemma_first_def_error_at(raw_config.service_definitions@, i as int);
                }
                return Err(e);
            }
            if d.fall < 1 {
                let e = ConfigError::InvalidThreshold {
                    service_name: clone_string(&d.service_name),
                    field: ThresholdField::Fall,
                };
                proof {
                    lemma_first_def_error_at(raw_config.service_definitions@, i as int);
                }
                return Err(e);
            }
            if d.rise < 1 {
                let e = ConfigError::InvalidThreshold {
                    service_name: clone_string(&d.service_name),
                    field: ThresholdField::Rise,
                };
                proof {
                    lemma_first_def_error_at(raw_config.service_definitions@, i as int);
                }
                return Err(e);
            }
            let def = ServiceDefinition {
                service_name: clone_string(&d.service_name),
                function_name: clone_string(&d.function_name),
                command: clone_string(&d.command[0]),
                args: command_tail(&d.command),
                interval: d.interval_s,
                command_timeout: d.command_timeout_s,
                fall: d.fall,
                rise: d.rise,
            };
            defs.push(def);
            i = i + 1;
        }
        Ok(
            Config {
                generated_file: GeneratedFile {
                    path: raw_config.generated_file.path,
                    function_return_type: match raw_config.generated_file.function_return_type {
                        Some(b) => b,
                        None => true,
                    },
                },
                reload_command,
                reload_command_args,
                reload_timeout: raw_config.bird_reload.timeout_s,
                service_definitions: defs,
            },
        )
    }
}

} // verus!
