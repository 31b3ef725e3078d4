//! The aggregator: sole owner of the mutable service states.
//!
//! Probe tasks reduce each probe run to one boolean and report it here.  The
//! aggregator applies the hysteresis state machine to the reported service
//! and, exactly when that step is a transition, hands back the freshly
//! rendered configuration text; the caller then overwrites the output file
//! and triggers the daemon reload before feeding the next report.  No text
//! is handed back — and so nothing is written and no reload runs — for a
//! report that does not flip a service's health.

use vstd::pervasive::VecAdditionalExecFns;
use vstd::prelude::*;

use crate::config::{spec_config_wf, Config};
use crate::emitter::{bird_functions_text, spec_config_text};
use crate::service::{spec_transition, Bundle, ServiceDefinition, ServiceState};

verus! {

/// The message a probe task sends the aggregator after each probe run.
#[derive(Clone, Copy, Debug, PartialEq, Eq, Structural)]
pub struct ProbeReport {
    /// Index of the service in the definition order.
    pub service_id: usize,
    /// Whether the probe command exited successfully.
    pub success: bool,
}

/// Copy one service definition.
fn clone_def(d: &ServiceDefinition) -> (r: ServiceDefinition)
    ensures
        r@ == d@,
{
    let r = ServiceDefinition {
        service_name: d.service_name.clone(),
        function_name: d.function_name.clone(),
        command: d.command.clone(),
        args: d.args.clone(),
        interval: d.interval,
        command_timeout: d.command_timeout,
        fall: d.fall,
        rise: d.rise,
    };
    proof {
        assert(r.args.deep_view() =~= d.args.deep_view());
    }
    r
}

/// Copy a whole configuration.
fn clone_config(c: &Config) -> (r: Config)
    ensures
        r@ == c@,
{
    let mut defs: Vec<ServiceDefinition> = Vec::new();
    let mut i: usize = 0;
    while i < c.service_definitions.len()
        invariant
            i <= c.service_definitions@.len(),
            defs@.len() == i,
            forall|j: int| 0 <= j < i ==> (#[trigger] defs@[j])@ == c.service_definitions@[j]@,
        decreases c.service_definitions@.len() - i,
    {
        defs.push(clone_def(&c.service_definitions[i]));
        i = i + 1;
    }
    let r = Config {
        generated_file: crate::config::GeneratedFile {
            path: c.generated_file.path.clone(),
            function_return_type: c.generated_file.function_return_type,
        },
        reload_command: c.reload_command.clone(),
        reload_command_args: c.reload_command_args.clone(),
        reload_timeout: c.reload_timeout,
        service_definitions: defs,
    };
    proof {
        assert(r.reload_command_args.deep_view() =~= c.reload_command_args.deep_view());
        assert(r.service_definitions.deep_view() =~= c.service_definitions.deep_view());
    }
    r
}

/// The single task owning every service's hysteresis state.
pub struct Aggregator {
    config: Config,
    service_states: Vec<ServiceState>,
}

impl Aggregator {
    /// One state per definition, and thresholds that keep the state machine
    /// total.
    pub closed spec fn wf(self) -> bool {
        &&& self.service_states@.len() == self.config.service_definitions@.len()
        &&& spec_config_wf(self.config)
    }

    /// The configuration this aggregator was started with.
    pub closed spec fn spec_config(self) -> Config {
        self.config
    }

    /// The current hysteresis states, in definition order.
    pub closed spec fn spec_states(self) -> Seq<ServiceState> {
        self.service_states@
    }

    /// Start supervising: every service begins one success short of
    /// promotion, so its first successful probe flips it up immediately.
    pub fn new(config: Config) -> (r: Aggregator)
        requires
            spec_config_wf(config),
        ensures
            r.wf(),
            r.spec_config() == config,
            r.spec_states().len() == config.service_definitions@.len(),
            forall|i: int|
                0 <= i < config.service_definitions@.len() ==> r.spec_states()[i]
                    == ServiceState::spec_initial(config.service_definitions@[i].rise),
    {
        let mut states: Vec<ServiceState> = Vec::new();
        let mut i: usize = 0;
        while i < config.service_definitions.len()
            invariant
                spec_config_wf(config),
                i <= config.service_definitions@.len(),
                states@.len() == i,
                forall|j: int|
                    0 <= j < i ==> states@[j] == ServiceState::spec_initial(
                        config.service_definitions@[j].rise,
                    ),
            decreases config.service_definitions@.len() - i,
        {
            let rise = config.service_definitions[i].rise;
            states.push(ServiceState::initial(rise));
            i = i + 1;
        }
        Aggregator { config, service_states: states }
    }

    /// Render the configuration text for the current states.
    pub fn render(&self) -> (r: String)
        requires
            self.wf(),
        ensures
            r@ == spec_config_text(
                self.spec_config().service_definitions@,
                self.spec_states(),
                self.spec_config().generated_file.function_return_type,
            ),
    {
        bird_functions_text(
            &self.config.service_definitions,
            &self.service_states,
            self.config.generated_file.function_return_type,
        )
    }

    /// Process one probe report.
    ///
    /// Applies the hysteresis transition to the reported service.  Exactly
    /// when that step is a transition, the new configuration text is
    /// returned for the caller to write out and follow with a reload;
    /// otherwise nothing is returned and no side effect is owed.
    pub fn handle_report(&mut self, report: ProbeReport) -> (r: Option<String>)
        requires
            old(self).wf(),
            report.service_id < old(self).spec_states().len(),
        ensures
            final(self).wf(),
            final(self).spec_config() == old(self).spec_config(),
            final(self).spec_states() == old(self).spec_states().update(
                report.service_id as int,
                spec_transition(
                    old(self).spec_states()[report.service_id as int],
                    report.success,
                    old(self).spec_config().service_definitions@[report.service_id as int].fall,
                    old(self).spec_config().service_definitions@[report.service_id as int].rise,
                ).0,
            ),
            r is Some <==> spec_transition(
                old(self).spec_states()[report.service_id as int],
                report.success,
                old(self).spec_config().service_definitions@[report.service_id as int].fall,
                old(self).spec_config().service_definitions@[report.service_id as int].rise,
            ).1,
            r matches Some(text) ==> text@ == spec_config_text(
                final(self).spec_config().service_definitions@,
                final(self).spec_states(),
                final(self).spec_config().generated_file.function_return_type,
            ),
    {
        let id = report.service_id;
        let current = self.service_states[id];
        let (new_state, transitioned) = current.update_with(
            report.success,
            &self.config.service_definitions[id],
        );
        self.service_states.set(id, new_state);
        if transitioned {
            Some(self.render())
        } else {
            None
        }
    }

    /// The snapshot query: clone the configuration and the current states
    /// into one independent, immutable value.
    pub fn bundle(&self) -> (r: Bundle)
        ensures
            r@.config == self.spec_config()@,
            r@.service_states == self.spec_states(),
    {
        let mut states: Vec<ServiceState> = Vec::new();
        let mut i: usize = 0;
        while i < self.service_states.len()
            invariant
                i <= self.service_states@.len(),
                states@ =~= self.service_states@.take(i as int),
            decreases self.service_states@.len() - i,
        {
            states.push(self.service_states[i]);
            proof {
                assert(states@ =~= self.service_states@.take(i + 1));
            }
            i = i + 1;
        }
        proof {
            assert(self.service_states@.take(self.service_states@.len() as int)
                =~= self.service_states@);
        }
        Bundle { config: clone_config(&self.config), service_states: states }
    }
}

} // verus!
