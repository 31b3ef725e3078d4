use birdwatcher_rs::client::{ClientAction, ClientEvent, ConnectionPhase, SnapshotClient};
use birdwatcher_rs::config::{Config, GeneratedFile};
use birdwatcher_rs::service::{Bundle, DurationMs, ServiceState};

fn sample_bundle() -> Bundle {
    Bundle {
        config: Config {
            generated_file: GeneratedFile { path: "out.conf".to_owned(), function_return_type: true },
            reload_command: "birdc".to_owned(),
            reload_command_args: vec![],
            reload_timeout: DurationMs::from_secs(1),
            service_definitions: vec![],
        },
        service_states: vec![ServiceState::Success { nb_of_failure: 0 }],
    }
}

/// The happy path: retry tick, connect, poll, publish.
#[test]
fn connects_and_publishes() {
    let mut client = SnapshotClient::new();
    assert_eq!(client.phase, ConnectionPhase::Disconnected);
    assert_eq!(client.published, None);

    assert_eq!(client.step(ClientEvent::Tick), ClientAction::Connect);
    assert_eq!(client.phase, ConnectionPhase::Connecting);

    assert_eq!(client.step(ClientEvent::ConnectSucceeded), ClientAction::Call);
    assert_eq!(client.phase, ConnectionPhase::Connected);

    let bundle = sample_bundle();
    assert_eq!(
        client.step(ClientEvent::CallSucceeded { bundle: bundle.clone() }),
        ClientAction::WaitPoll
    );
    assert_eq!(client.published, Some(bundle));

    // The poll cadence keeps querying while connected.
    assert_eq!(client.step(ClientEvent::Tick), ClientAction::Call);
}

/// The snapshot service becomes unreachable while the client is connected:
/// the published value turns to "unknown" at once and a reconnect attempt
/// follows.
#[test]
fn failure_blanks_display_and_reconnects() {
    let mut client = SnapshotClient::new();
    client.step(ClientEvent::Tick);
    client.step(ClientEvent::ConnectSucceeded);
    let bundle = sample_bundle();
    client.step(ClientEvent::CallSucceeded { bundle });
    assert!(client.published.is_some());

    // The service goes away; the next poll fails.
    assert_eq!(client.step(ClientEvent::CallFailed), ClientAction::WaitRetry);
    assert_eq!(client.published, None, "no stale bundle may stay on display");
    assert_eq!(client.phase, ConnectionPhase::Disconnected);

    // After the retry delay a reconnect attempt is observed.
    assert_eq!(client.step(ClientEvent::Tick), ClientAction::Connect);
    assert_eq!(client.phase, ConnectionPhase::Connecting);
}

/// A failed connection attempt also blanks the display and retries.
#[test]
fn connect_failure_retries() {
    let mut client = SnapshotClient::new();
    client.step(ClientEvent::Tick);
    assert_eq!(client.step(ClientEvent::ConnectFailed), ClientAction::WaitRetry);
    assert_eq!(client.phase, ConnectionPhase::Disconnected);
    assert_eq!(client.published, None);
    assert_eq!(client.step(ClientEvent::Tick), ClientAction::Connect);
}
