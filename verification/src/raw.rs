//! The configuration as it is written in the configuration document.
//!
//! It differs from the elaborated [`crate::config::Config`], which uses more
//! precise types: durations are plain millisecond counts here already (the
//! document writes them as a number of seconds), but `command` lists are not
//! yet checked to have at least one element (the executable), and the
//! optional field still carries its optionality.

use vstd::prelude::*;

use crate::service::DurationMs;

verus! {

/// The raw `generated_file` section.
#[derive(Clone, Debug, PartialEq)]
pub struct GeneratedFile {
    /// This file will be overwritten each time a service changes its state
    pub path: String,
    /// Add the return type of generated functions, introduced in BIRD 2.14.
    /// True by default; turn it off for BIRD older than 2.14.
    pub function_return_type: Option<bool>,
}

/// The raw `bird_reload` section.
#[derive(Clone, Debug, PartialEq)]
pub struct BirdReload {
    pub command: Vec<String>,
    pub timeout_s: DurationMs,
}

/// One raw `[[service_definitions]]` entry.
#[derive(Clone, Debug, PartialEq)]
pub struct ServiceDefinition {
    /// Informational string describing the service
    pub service_name: String,
    /// The BIRD function to call from the routing configuration
    pub function_name: String,
    pub command: Vec<String>,
    pub interval_s: DurationMs,
    pub command_timeout_s: DurationMs,
    /// Number of consecutive failures to consider the service unhealthy
    pub fall: u32,
    /// Number of consecutive successes to consider the service healthy
    pub rise: u32,
}

/// The whole raw configuration document.
#[derive(Clone, Debug, PartialEq)]
pub struct Config {
    pub generated_file: GeneratedFile,
    pub bird_reload: BirdReload,
    pub service_definitions: Vec<ServiceDefinition>,
}

} // verus!
