//! Service definitions and the fall/rise hysteresis state machine.

use vstd::prelude::*;

verus! {

/// A duration expressed as a whole number of milliseconds.
///
/// Probe intervals and timeouts are carried through the supervisor as plain
/// millisecond counts; only the process-spawning layer turns them back into
/// platform sleep/timeout values.
#[derive(Clone, Copy, Debug, PartialEq, Eq, Structural)]
pub struct DurationMs {
    pub millis: u64,
}

impl DurationMs {
    pub fn from_millis(millis: u64) -> (r: DurationMs)
        ensures
            r.millis == millis,
    {
        DurationMs { millis }
    }

    pub fn from_secs(secs: u64) -> (r: DurationMs)
        requires
            secs * 1000 <= u64::MAX,
        ensures
            r.millis == secs * 1000,
    {
        DurationMs { millis: secs * 1000 }
    }
}

/// The immutable description of one supervised service.
///
/// Definitions form an ordered sequence; the index of a definition in that
/// sequence is the stable service identifier used everywhere.
#[derive(Clone, Debug, PartialEq)]
pub struct ServiceDefinition {
    /// Used for logs only
    pub service_name: String,
    /// The name of the generated `bird` function
    pub function_name: String,
    pub command: String,
    pub args: Vec<String>,
    pub interval: DurationMs,
    pub command_timeout: DurationMs,
    /// Number of consecutive failures to consider the service unhealthy
    pub fall: u32,
    /// Number of consecutive successes to consider the service healthy
    pub rise: u32,
}

/// The mathematical value of a [`ServiceDefinition`].
pub ghost struct ServiceDefinitionView {
    pub service_name: Seq<char>,
    pub function_name: Seq<char>,
    pub command: Seq<char>,
    pub args: Seq<Seq<char>>,
    pub interval: u64,
    pub command_timeout: u64,
    pub fall: u32,
    pub rise: u32,
}

impl View for ServiceDefinition {
    type V = ServiceDefinitionView;

    open spec fn view(&self) -> ServiceDefinitionView {
        ServiceDefinitionView {
            service_name: self.service_name@,
            function_name: self.function_name@,
            command: self.command@,
            args: self.args.deep_view(),
            interval: self.interval.millis,
            command_timeout: self.command_timeout.millis,
            fall: self.fall,
            rise: self.rise,
        }
    }
}

impl DeepView for ServiceDefinition {
    type V = ServiceDefinitionView;

    open spec fn deep_view(&self) -> ServiceDefinitionView {
        self.view()
    }
}

/// The hysteresis state of one service.
///
/// The counter in each variant counts consecutive opposite results; a result
/// matching the current variant resets it to zero.
#[derive(Clone, Copy, Debug, PartialEq, Eq, Structural)]
pub enum ServiceState {
    /// In `Failure` state, count the number of successes.
    /// When the number reaches `rise`, switch to `Success` state.
    /// Any failure resets the counter to 0.
    Failure { nb_of_success: u32 },
    /// In `Success` state, count the number of failures.
    /// When the number reaches `fall`, switch to `Failure` state.
    /// Any success resets the counter to 0.
    Success { nb_of_failure: u32 },
}

/// What `ServiceState::update_with` computes: the next hysteresis state and
/// whether this step is a transition (a health flip).
pub open spec fn spec_transition(state: ServiceState, success: bool, fall: u32, rise: u32) -> (
    ServiceState,
    bool,
) {
    match state {
        ServiceState::Failure { nb_of_success } => {
            if success {
                if nb_of_success + 1 >= rise {
                    (ServiceState::Success { nb_of_failure: 0 }, true)
                } else {
                    (ServiceState::Failure { nb_of_success: (nb_of_success + 1) as u32 }, false)
                }
            } else {
                (ServiceState::Failure { nb_of_success: 0 }, false)
            }
        },
        ServiceState::Success { nb_of_failure } => {
            if success {
                (ServiceState::Success { nb_of_failure: 0 }, false)
            } else {
                if nb_of_failure + 1 >= fall {
                    (ServiceState::Failure { nb_of_success: 0 }, true)
                } else {
                    (ServiceState::Success { nb_of_failure: (nb_of_failure + 1) as u32 }, false)
                }
            }
        },
    }
}

impl ServiceState {
    /// The startup state of a service: one success short of promotion, so the
    /// first successful probe always promotes the service to `Success`
    /// immediately, independent of the configured `rise`.
    pub open spec fn spec_initial(rise: u32) -> ServiceState
        recommends
            rise >= 1,
    {
        ServiceState::Failure { nb_of_success: (rise - 1) as u32 }
    }

    /// Build the startup state for a service with the given `rise` threshold.
    pub fn initial(rise: u32) -> (r: ServiceState)
        requires
            rise >= 1,
        ensures
            r == ServiceState::spec_initial(rise),
    {
        ServiceState::Failure { nb_of_success: rise - 1 }
    }

    /// Handle the fall/rise mechanism where multiple successes/failures must
    /// happen consecutively to cause a state change.
    ///
    /// Returns the next state and whether a transition (health flip) occurred.
    pub fn update_with(&self, return_value: bool, service_def: &ServiceDefinition) -> (r: (
        ServiceState,
        bool,
    ))
        ensures
            r == spec_transition(*self, return_value, service_def.fall, service_def.rise),
    {
        match self {
            ServiceState::Failure { nb_of_success } => {
                if return_value {
                    if service_def.rise <= 1 || *nb_of_success >= service_def.rise - 1 {
                        // Switch to rise
                        (ServiceState::Success { nb_of_failure: 0 }, true)
                    } else {
                        // Another success, but not enough to rise
                        (ServiceState::Failure { nb_of_success: nb_of_success + 1 }, false)
                    }
                } else {
                    // A failure while already down: reset the counter
                    (ServiceState::Failure { nb_of_success: 0 }, false)
                }
            },
            ServiceState::Success { nb_of_failure } => {
                if return_value {
                    (ServiceState::Success { nb_of_failure: 0 }, false)
                } else {
                    if service_def.fall <= 1 || *nb_of_failure >= service_def.fall - 1 {
                        // Switch to fall
                        (ServiceState::Failure { nb_of_success: 0 }, true)
                    } else {
                        // Another failure, but not enough to fall
                        (ServiceState::Success { nb_of_failure: nb_of_failure + 1 }, false)
                    }
                }
            },
        }
    }
}

/// The full snapshot exposed to observers: the configuration together with
/// the current state of every service, same index order as the definitions.
///
/// A bundle is a value: once constructed it is immutable, and it is what
/// travels over the snapshot query protocol.
#[derive(Clone, Debug, PartialEq)]
pub struct Bundle {
    pub config: crate::config::Config,
    pub service_states: Vec<ServiceState>,
}

/// The mathematical value of a [`Bundle`].
pub ghost struct BundleView {
    pub config: crate::config::ConfigView,
    pub service_states: Seq<ServiceState>,
}

impl View for Bundle {
    type V = BundleView;

    open spec fn view(&self) -> BundleView {
        BundleView { config: self.config@, service_states: self.service_states@ }
    }
}

} // verus!
