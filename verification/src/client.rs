//! The snapshot client's connection state machine.
//!
//! The client keeps a long-lived connection to the snapshot service and
//! republishes the latest bundle for a display layer.  All its decisions —
//! what to do on a timer tick, on a connect result, on a call result — are
//! made here, as a pure step function; the surrounding runtime only
//! performs the returned action and feeds the resulting event back in.
//!
//! The liveness rule: any failure blanks the published value to "unknown"
//! (never leaving a stale bundle on display) and sends the client back
//! through `Disconnected` towards a reconnect attempt.

use vstd::prelude::*;

use crate::service::Bundle;

verus! {

/// Where the client stands with its connection.
#[derive(Clone, Copy, Debug, PartialEq, Eq, Structural)]
pub enum ConnectionPhase {
    /// No connection; a retry timer is pending.
    Disconnected,
    /// A connection attempt is in flight.
    Connecting,
    /// Connected; snapshots are being polled.
    Connected,
}

/// What the runtime reports back to the state machine.
#[derive(Clone, Debug, PartialEq)]
pub enum ClientEvent {
    /// A pending timer (retry delay or poll cadence) fired.
    Tick,
    /// The connection attempt succeeded.
    ConnectSucceeded,
    /// The connection attempt failed.
    ConnectFailed,
    /// A snapshot query returned this bundle.
    CallSucceeded { bundle: Bundle },
    /// A snapshot query failed (call or decode).
    CallFailed,
}

/// What the runtime must do next.
#[derive(Clone, Copy, Debug, PartialEq, Eq, Structural)]
pub enum ClientAction {
    /// Start a connection attempt.
    Connect,
    /// Query one snapshot.
    Call,
    /// Sleep for the retry delay, then report a tick.
    WaitRetry,
    /// Sleep for the poll cadence, then report a tick.
    WaitPoll,
    /// Nothing to do (an event arrived that this phase does not expect).
    Idle,
}

/// The published state of the snapshot client: its connection phase and the
/// latest known bundle (`None` is displayed as "unknown").
pub struct SnapshotClient {
    pub phase: ConnectionPhase,
    pub published: Option<Bundle>,
}

/// One step of the client state machine.
pub open spec fn spec_client_step(s: SnapshotClient, event: ClientEvent) -> (
    SnapshotClient,
    ClientAction,
) {
    match (s.phase, event) {
        (ConnectionPhase::Disconnected, ClientEvent::Tick) => (
            SnapshotClient { phase: ConnectionPhase::Connecting, published: s.published },
            ClientAction::Connect,
        ),
        (ConnectionPhase::Connecting, ClientEvent::ConnectSucceeded) => (
            SnapshotClient { phase: ConnectionPhase::Connected, published: s.published },
            ClientAction::Call,
        ),
        (ConnectionPhase::Connecting, ClientEvent::ConnectFailed) => (
            SnapshotClient { phase: ConnectionPhase::Disconnected, published: None },
            ClientAction::WaitRetry,
        ),
        (ConnectionPhase::Connected, ClientEvent::Tick) => (s, ClientAction::Call),
        (ConnectionPhase::Connected, ClientEvent::CallSucceeded { bundle }) => (
            SnapshotClient { phase: ConnectionPhase::Connected, published: Some(bundle) },
            ClientAction::WaitPoll,
        ),
        (ConnectionPhase::Connected, ClientEvent::CallFailed) => (
            SnapshotClient { phase: ConnectionPhase::Disconnected, published: None },
            ClientAction::WaitRetry,
        ),
        _ => (s, ClientAction::Idle),
    }
}

impl SnapshotClient {
    /// A fresh client: disconnected, nothing known.
    pub fn new() -> (r: SnapshotClient)
        ensures
            r.phase == ConnectionPhase::Disconnected,
            r.published is None,
    {
        SnapshotClient { phase: ConnectionPhase::Disconnected, published: None }
    }

    /// Feed one event in; the client updates itself and says what to do
    /// next.
    pub fn step(&mut self, event: ClientEvent) -> (r: ClientAction)
        ensures
            (*final(self), r) == spec_client_step(*old(self), event),
    {
        match event {
            ClientEvent::Tick => {
                match self.phase {
                    ConnectionPhase::Disconnected => {
                        self.phase = ConnectionPhase::Connecting;
                        ClientAction::Connect
                    },
                    ConnectionPhase::Connected => ClientAction::Call,
                    ConnectionPhase::Connecting => ClientAction::Idle,
                }
            },
            ClientEvent::ConnectSucceeded => {
                match self.phase {
                    ConnectionPhase::Connecting => {
                        self.phase = ConnectionPhase::Connected;
                        ClientAction::Call
                    },
                    _ => ClientAction::Idle,
                }
            },
            ClientEvent::ConnectFailed => {
                match self.phase {
                    ConnectionPhase::Connecting => {
                        self.phase = ConnectionPhase::Disconnected;
                        self.published = None;
                        ClientAction::WaitRetry
                    },
                    _ => ClientAction::Idle,
                }
            },
            ClientEvent::CallSucceeded { bundle } => {
                match self.phase {
                    ConnectionPhase::Connected => {
                        self.published = Some(bundle);
                        ClientAction::WaitPoll
                    },
                    _ => ClientAction::Idle,
                }
            },
            ClientEvent::CallFailed => {
                match self.phase {
                    ConnectionPhase::Connected => {
                        self.phase = ConnectionPhase::Disconnected;
                        self.published = None;
                        ClientAction::WaitRetry
                    },
                    _ => ClientAction::Idle,
                }
            },
        }
    }
}

/// When the snapshot service becomes unreachable while the client is
/// `Connected`, the very next failed call blanks the published value to
/// "unknown" and sends the client back through `Disconnected`; the retry
/// tick that follows starts a reconnect attempt.  No stale bundle survives
/// a failure.
pub proof fn lemma_failure_blanks_and_reconnects(s: SnapshotClient)
    requires
        s.phase == ConnectionPhase::Connected,
    ensures
        ({
            let (after_failure, action) = spec_client_step(s, ClientEvent::CallFailed);
            &&& after_failure.published is None
            &&& after_failure.phase == ConnectionPhase::Disconnected
            &&& action == ClientAction::WaitRetry
            &&& spec_client_step(after_failure, ClientEvent::Tick).1 == ClientAction::Connect
        }),
{
}

} // verus!
