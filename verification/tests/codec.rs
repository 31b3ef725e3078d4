use birdwatcher_rs::codec::{decode_bundle, encode_bundle};
use birdwatcher_rs::codec_text::{decode_bundle_text, encode_bundle_text};
use birdwatcher_rs::config::{Config, GeneratedFile};
use birdwatcher_rs::frame::{decode_frame, encode_frame};
use birdwatcher_rs::service::{Bundle, DurationMs, ServiceDefinition, ServiceState};

fn sample_bundle() -> Bundle {
    Bundle {
        config: Config {
            generated_file: GeneratedFile {
                path: "/etc/bird/birdwatcher_generated.conf".to_owned(),
                function_return_type: false,
            },
            reload_command: "birdc".to_owned(),
            reload_command_args: vec!["configure".to_owned()],
            reload_timeout: DurationMs::from_millis(1500),
            service_definitions: vec![
                ServiceDefinition {
                    service_name: "wéb-サービス".to_owned(),
                    function_name: "match_web".to_owned(),
                    command: "/usr/bin/curl".to_owned(),
                    args: vec!["--fail".to_owned(), "http://localhost/health".to_owned()],
                    interval: DurationMs::from_millis(1200),
                    command_timeout: DurationMs::from_secs(2),
                    fall: 4,
                    rise: 5,
                },
                ServiceDefinition {
                    service_name: "dns".to_owned(),
                    function_name: "match_dns".to_owned(),
                    command: "/usr/bin/dig".to_owned(),
                    args: vec![],
                    interval: DurationMs::from_secs(10),
                    command_timeout: DurationMs::from_secs(1),
                    fall: 1,
                    rise: 1,
                },
            ],
        },
        service_states: vec![
            ServiceState::Success { nb_of_failure: 2 },
            ServiceState::Failure { nb_of_success: 0 },
        ],
    }
}

/// Round trip through the compact binary encoding: the decoded bundle is
/// field-wise identical to the original.
#[test]
fn binary_round_trip() {
    let bundle = sample_bundle();
    let bytes = encode_bundle(&bundle);
    let decoded = decode_bundle(&bytes).expect("an encoded bundle must decode");
    assert_eq!(decoded, bundle);
}

/// Round trip through the textual encoding.
#[test]
fn text_round_trip() {
    let bundle = sample_bundle();
    let text = encode_bundle_text(&bundle);
    let decoded = decode_bundle_text(&text).expect("an encoded bundle must decode");
    assert_eq!(decoded, bundle);
}

/// The textual form is plain decimal fields and tag letters.
#[test]
fn text_form_is_readable() {
    let bundle = Bundle {
        config: Config {
            generated_file: GeneratedFile { path: "x".to_owned(), function_return_type: true },
            reload_command: "r".to_owned(),
            reload_command_args: vec![],
            reload_timeout: DurationMs::from_millis(7),
            service_definitions: vec![],
        },
        service_states: vec![ServiceState::Success { nb_of_failure: 3 }],
    };
    let text = encode_bundle_text(&bundle);
    assert_eq!(
        text,
        "00000000000000000001xT00000000000000000001r00000000000000000000000000000000000000070000000000000000000000000000000000000001S0000000003"
    );
}

/// Truncated or corrupted input decodes to nothing.
#[test]
fn corrupt_input_rejected() {
    let bundle = sample_bundle();
    let mut bytes = encode_bundle(&bundle);
    bytes.pop();
    assert_eq!(decode_bundle(&bytes), None);
    assert_eq!(decode_bundle(&vec![]), None);
    assert_eq!(decode_bundle(&vec![0xffu8; 16]), None);

    let text = encode_bundle_text(&bundle);
    let mut truncated = text.clone();
    truncated.pop();
    assert_eq!(decode_bundle_text(&truncated), None);
    assert_eq!(decode_bundle_text(""), None);
    assert_eq!(decode_bundle_text("not a bundle"), None);
}

/// Trailing bytes after a complete bundle are an error: the wire form is
/// consumed exactly.
#[test]
fn trailing_bytes_rejected() {
    let bundle = sample_bundle();
    let mut bytes = encode_bundle(&bundle);
    bytes.push(0);
    assert_eq!(decode_bundle(&bytes), None);
}

/// Framing round trip, including the trailing remainder.
#[test]
fn frame_round_trip() {
    let payload: Vec<u8> = vec![10, 20, 30, 40, 50];
    let mut framed = encode_frame(&payload).expect("small payloads always frame");
    assert_eq!(framed.len(), 4 + payload.len());
    assert_eq!(&framed[..4], &[0, 0, 0, 5]);

    let (decoded, used) = decode_frame(&framed).expect("a whole frame must decode");
    assert_eq!(decoded, payload);
    assert_eq!(used, framed.len());

    // With extra buffered bytes after the frame, only the frame is used.
    framed.push(99);
    let (decoded2, used2) = decode_frame(&framed).expect("a whole frame must decode");
    assert_eq!(decoded2, payload);
    assert_eq!(used2, framed.len() - 1);
}

/// An incomplete buffer yields nothing yet.
#[test]
fn partial_frame_waits() {
    let payload: Vec<u8> = vec![1, 2, 3, 4];
    let framed = encode_frame(&payload).unwrap();
    for cut in 0..framed.len() {
        let partial: Vec<u8> = framed[..cut].to_vec();
        assert_eq!(decode_frame(&partial), None);
    }
}
