//! The gateway of one connection: frames in, actions and frames out.

use rebe_core::circuit_breaker::{BreakerRegistry, CircuitBreakerConfig, CircuitBreakerError};
use rebe_core::frames::{
    connected_frame, decode_input, error_frame, output_frame, ClientMessage, ServerMessage,
};
use rebe_core::gateway::{
    actions_of, admit_remote, complete_remote, requested_size, writer_goes_on, GatewayAction,
    GatewayConfig, ReaderStep, SessionGateway, DEFAULT_COLS, DEFAULT_ROWS,
};
use rebe_core::command::Command;
use rebe_core::pty::PtyError;
use rebe_core::remote::{ExecEvent, RemoteError};
use rebe_core::session_id::{format_session_id, parse_session_id};
use rebe_core::stream::{StreamError, StreamingOutputHandler};
use bytes::Bytes;
use rebe_core::transcript::{connecting_line, echo_line, remote_preamble, remote_report};

const ID: u128 = 0x550e8400_e29b_41d4_a716_446655440000;

fn input(data: &str) -> ClientMessage {
    ClientMessage::Input { data: data.to_string() }
}

fn breakers(failure_threshold: usize, timeout_ms: u64) -> BreakerRegistry {
    BreakerRegistry::new(CircuitBreakerConfig { failure_threshold, success_threshold: 2, timeout_ms })
}

#[test]
fn session_id_is_written_hyphenated_in_lower_case() {
    assert_eq!(format_session_id(ID), "550e8400-e29b-41d4-a716-446655440000");
    assert_eq!(format_session_id(0), "00000000-0000-0000-0000-000000000000");
}

#[test]
fn session_id_is_read_back() {
    assert_eq!(parse_session_id("550e8400-e29b-41d4-a716-446655440000"), Some(ID));
    assert_eq!(parse_session_id("550E8400E29B41D4A716446655440000"), Some(ID));
    assert_eq!(parse_session_id(&format_session_id(u128::MAX)), Some(u128::MAX));
}

#[test]
fn bad_session_id_is_refused() {
    assert_eq!(parse_session_id(""), None);
    assert_eq!(parse_session_id("not-a-session"), None);
    assert_eq!(parse_session_id("550e8400-e29b-41d4-a716-44665544000"), None);
    assert_eq!(parse_session_id("550e8400-e29b-41d4-a716-44665544000g"), None);
}

#[test]
fn handshake_carries_the_session_id() {
    let gateway = SessionGateway::new(ID);
    assert_eq!(gateway.session_id(), ID);
    assert_eq!(
        gateway.handshake(),
        ServerMessage::Connected { session_id: "550e8400-e29b-41d4-a716-446655440000".to_string() }
    );
    assert_eq!(connected_frame(ID), gateway.handshake());
}

#[test]
fn input_payload_is_standard_base64() {
    assert_eq!(decode_input("aGVsbG8="), Some(b"hello".to_vec()));
    assert_eq!(decode_input("//4K"), Some(b"\xff\xfe\n".to_vec()));
    assert_eq!(decode_input(""), Some(vec![]));
    assert_eq!(decode_input("aGVsbG8"), None);
    assert_eq!(decode_input("_-8="), None);
    assert_eq!(decode_input("hello!"), None);
}

#[test]
fn output_frame_carries_base64() {
    assert_eq!(output_frame(b""), None);
    assert_eq!(
        output_frame(b"hello"),
        Some(ServerMessage::Output { data: "aGVsbG8=".to_string() })
    );
    assert_eq!(
        output_frame(b"\xff\xfe\n"),
        Some(ServerMessage::Output { data: "//4K".to_string() })
    );
}

#[test]
fn local_echo() {
    let mut gateway = SessionGateway::new(ID);
    let actions = gateway.on_client_message(&input("ZWNobyBoZWxsbwo="));
    assert_eq!(actions, vec![GatewayAction::WriteTerminal(b"echo hello\n".to_vec())]);

    let step = gateway.on_terminal_read(&Ok(b"hello\r\n".to_vec()));
    assert!(!step.stop);
    match step.frame {
        Some(ServerMessage::Output { data }) => {
            let decoded = decode_input(&data).unwrap();
            assert!(String::from_utf8_lossy(&decoded).contains("hello"));
        }
        other => panic!("expected output, got {:?}", other),
    }
}

#[test]
fn resize_is_passed_on() {
    let mut gateway = SessionGateway::new(ID);
    let actions = gateway.on_client_message(&ClientMessage::Resize { rows: 40, cols: 132 });
    assert_eq!(actions, vec![GatewayAction::ResizeTerminal { rows: 40, cols: 132 }]);
}

#[test]
fn zero_length_input_frame_is_a_no_op() {
    let mut gateway = SessionGateway::new(ID);
    assert!(gateway.on_client_message(&input("")).is_empty());
    assert_eq!(
        gateway.on_client_message(&input("bHMK")),
        vec![GatewayAction::WriteTerminal(b"ls\n".to_vec())]
    );
}

#[test]
fn frame_that_does_not_decode_is_dropped() {
    let mut gateway = SessionGateway::new(ID);
    assert!(gateway.on_client_message(&input("***")).is_empty());
    assert_eq!(
        gateway.on_client_message(&input("bHMK")),
        vec![GatewayAction::WriteTerminal(b"ls\n".to_vec())]
    );
}

#[test]
fn empty_read_sends_nothing() {
    let gateway = SessionGateway::new(ID);
    assert_eq!(gateway.on_terminal_read(&Ok(vec![])), ReaderStep { frame: None, stop: false });
}

#[test]
fn failed_read_is_reported_and_stops_the_session() {
    let gateway = SessionGateway::new(ID);
    let step = gateway.on_terminal_read(&Err(PtyError::Io("Input/output error".to_string())));
    assert!(step.stop);
    assert_eq!(
        step.frame,
        Some(ServerMessage::Error { message: "Input/output error".to_string() })
    );
    assert_eq!(
        error_frame(&PtyError::NotFound),
        ServerMessage::Error { message: "Session not found".to_string() }
    );
}

#[test]
fn remote_success() {
    let mut gateway = SessionGateway::new(ID);
    let mut breakers = breakers(5, 60_000);
    let actions = gateway.on_client_message(&input("c3NoIGFsaWNlQGhvc3QgIndob2FtaSIK"));
    assert_eq!(actions.len(), 1);
    let mut transcript = String::new();
    match &actions[0] {
        GatewayAction::RunRemote { host, port, user, command, preamble } => {
            assert_eq!(
                (host.as_str(), *port, user.as_str(), command.as_str()),
                ("host", 22, "alice", "whoami")
            );
            transcript.push_str(preamble);
            assert!(admit_remote(&mut breakers, host, 0).is_none());
            let outcome =
                ExecEvent::Completed { stdout: "alice\n".to_string(), exit_status: 0 }.outcome();
            transcript.push_str(&complete_remote(&mut breakers, host, outcome, 5));
        }
        other => panic!("expected a remote directive, got {:?}", other),
    }
    assert_eq!(
        transcript,
        "ssh host:22 \"whoami\"\r\n[SSH: host] Connecting...\r\n[SSH: host] alice\r\n"
    );
    assert_eq!(transcript.matches("whoami").count(), 1);
    assert_eq!(transcript.matches("alice").count(), 1);
}

#[test]
fn remote_timeout_is_reported_and_the_session_goes_on() {
    let mut gateway = SessionGateway::new(ID);
    let mut breakers = breakers(5, 60_000);
    assert!(admit_remote(&mut breakers, "host", 0).is_none());
    let report = complete_remote(&mut breakers, "host", ExecEvent::TimedOut.outcome(), 1000);
    assert_eq!(report, "[SSH: host] Error: Command timeout\r\n");
    assert!(report.to_lowercase().contains("timeout"));
    assert_eq!(
        gateway.on_client_message(&input("bHMK")),
        vec![GatewayAction::WriteTerminal(b"ls\n".to_vec())]
    );
}

#[test]
fn breaker_trip_is_reported_fast_and_one_probe_is_admitted_later() {
    let mut breakers = breakers(3, 200);
    for attempt in 0..3u64 {
        assert!(admit_remote(&mut breakers, "badhost", attempt).is_none());
        let report = complete_remote(
            &mut breakers,
            "badhost",
            Err(RemoteError::Connect("Failed to connect".to_string())),
            attempt,
        );
        assert_eq!(report, "[SSH: badhost] Error: Failed to connect\r\n");
    }
    assert_eq!(
        admit_remote(&mut breakers, "badhost", 10),
        Some("[Circuit Breaker] Host badhost circuit OPEN - failing fast\r\n".to_string())
    );
    assert!(admit_remote(&mut breakers, "badhost", 252).is_none());
    // other hosts are not held back
    assert!(admit_remote(&mut breakers, "goodhost", 10).is_none());
}

#[test]
fn every_outcome_has_a_report() {
    let outcomes: Vec<Result<String, CircuitBreakerError<RemoteError>>> = vec![
        Ok(String::new()),
        Ok("out".to_string()),
        Err(CircuitBreakerError::Open),
        Err(CircuitBreakerError::OperationFailed(RemoteError::Timeout)),
        Err(CircuitBreakerError::OperationFailed(RemoteError::Auth)),
        Err(CircuitBreakerError::OperationFailed(RemoteError::NonZeroExit(2))),
        Err(CircuitBreakerError::OperationFailed(RemoteError::Transport(String::new()))),
    ];
    for outcome in &outcomes {
        let report = remote_report("h", outcome);
        assert!(report.contains('h'));
        assert!(report.ends_with("\r\n"));
    }
    assert!(!remote_preamble("h", 22, "").is_empty());
}

#[test]
fn report_lines() {
    assert_eq!(remote_report("h", &Ok("a\nb  \n\n".to_string())), "[SSH: h] a\nb\r\n");
    assert_eq!(remote_report("h", &Ok("  lead".to_string())), "[SSH: h]   lead\r\n");
    assert_eq!(remote_report("h", &Ok(" \t\n".to_string())), "[SSH: h] \r\n");
    assert_eq!(
        remote_report("h", &Err(CircuitBreakerError::OperationFailed(RemoteError::NonZeroExit(127)))),
        "[SSH: h] Error: Command failed with exit code 127\r\n"
    );
    assert_eq!(
        remote_report(
            "h",
            &Err(CircuitBreakerError::OperationFailed(RemoteError::PoolFull {
                user: "u".to_string(),
                host: "h".to_string(),
                port: 2222,
            }))
        ),
        "[SSH: h] Error: Connection pool exhausted for u@h:2222\r\n"
    );
}

#[test]
fn echo_and_status_lines() {
    assert_eq!(echo_line("host", 22, "whoami"), "ssh host:22 \"whoami\"\r\n");
    assert_eq!(echo_line("h", 0, ""), "ssh h:0 \"\"\r\n");
    assert_eq!(echo_line("h", 65535, "a b"), "ssh h:65535 \"a b\"\r\n");
    assert_eq!(connecting_line("host"), "[SSH: host] Connecting...\r\n");
    assert_eq!(
        remote_preamble("host", 2222, "id"),
        "ssh host:2222 \"id\"\r\n[SSH: host] Connecting...\r\n"
    );
}

#[test]
fn actions_follow_the_commands() {
    let commands = vec![
        Command::Local { input: b"a\n".to_vec() },
        Command::SSH {
            host: "h".to_string(),
            port: 22,
            user: "u".to_string(),
            command: "id".to_string(),
        },
        Command::Local { input: b"b\n".to_vec() },
    ];
    assert_eq!(
        actions_of(commands),
        vec![
            GatewayAction::WriteTerminal(b"a\n".to_vec()),
            GatewayAction::RunRemote {
                host: "h".to_string(),
                port: 22,
                user: "u".to_string(),
                command: "id".to_string(),
                preamble: "ssh h:22 \"id\"\r\n[SSH: h] Connecting...\r\n".to_string(),
            },
            GatewayAction::WriteTerminal(b"b\n".to_vec()),
        ]
    );
    assert!(actions_of(vec![]).is_empty());
}

#[test]
fn session_size_defaults_to_twenty_four_by_eighty() {
    assert_eq!((DEFAULT_ROWS, DEFAULT_COLS), (24, 80));
    assert_eq!(requested_size(None, None), (24, 80));
    assert_eq!(requested_size(Some(40), None), (40, 80));
    assert_eq!(requested_size(None, Some(132)), (24, 132));
    assert_eq!(requested_size(Some(0), Some(65535)), (0, 65535));
}

#[test]
fn documented_defaults() {
    let config = GatewayConfig::default();
    assert_eq!(config.read_interval_ms, 50);
    assert_eq!(config.remote_exec_timeout_ms, 30_000);
    assert_eq!(config.max_output_bytes, 10 * 1024 * 1024);
}

#[test]
fn remote_timeout_of_one_second_is_a_matter_of_configuration() {
    let config = GatewayConfig { remote_exec_timeout_ms: 1000, ..GatewayConfig::default() };
    assert_eq!(config.remote_exec_timeout_ms, 1000);
    assert_eq!(config.read_interval_ms, 50);
}

#[test]
fn session_is_closed_exactly_once() {
    let mut gateway = SessionGateway::new(ID);
    assert!(gateway.finish());
    assert!(!gateway.finish());
    assert!(!gateway.finish());
}

#[test]
fn torn_down_connection_does_nothing_more() {
    let mut gateway = SessionGateway::new(ID);
    assert_eq!(gateway.on_client_message(&input("bA==")).len(), 1);
    assert!(gateway.finish());
    assert!(gateway.on_client_message(&input("bHMK")).is_empty());
    assert!(gateway.on_client_message(&ClientMessage::Resize { rows: 40, cols: 132 }).is_empty());
    assert_eq!(
        gateway.on_terminal_read(&Ok(b"late".to_vec())),
        ReaderStep { frame: None, stop: true }
    );
}

#[test]
fn output_frame_decodes_to_the_bytes_read() {
    let gateway = SessionGateway::new(ID);
    let every_byte: Vec<u8> = (0..=255u8).collect();
    for bytes in [&b"h"[..], b"he", b"hel", b"hello\r\n", &every_byte] {
        match gateway.on_terminal_read(&Ok(bytes.to_vec())).frame {
            Some(ServerMessage::Output { data }) => {
                assert_eq!(decode_input(&data), Some(bytes.to_vec()));
            }
            other => panic!("expected output, got {:?}", other),
        }
    }
}

#[test]
fn session_id_text_is_hyphenated_lower_case_hex() {
    for id in [0u128, 1, 0xabcdef, ID, u128::MAX, 0x0123456789abcdef_fedcba9876543210] {
        let text = format_session_id(id);
        let hex = format!("{:032x}", id);
        let expected = format!(
            "{}-{}-{}-{}-{}",
            &hex[0..8],
            &hex[8..12],
            &hex[12..16],
            &hex[16..20],
            &hex[20..32]
        );
        assert_eq!(text, expected);
        assert_eq!(parse_session_id(&text), Some(id));
    }
}

#[test]
fn output_over_the_limit_is_an_explicit_error() {
    let mut handler = StreamingOutputHandler::new(8);
    handler.push_chunk(Bytes::from("12345")).unwrap();
    let refused = handler.push_chunk(Bytes::from("6789")).unwrap_err();
    let event = ExecEvent::from_stream_error(refused);
    assert_eq!(event, ExecEvent::OutputTooLarge { size: 9, max: 8 });
    let outcome = event.outcome();
    assert_eq!(outcome, Err(RemoteError::OutputTooLarge { size: 9, max: 8 }));
    let mut breakers = breakers(5, 60_000);
    assert_eq!(
        complete_remote(&mut breakers, "h", outcome, 0),
        "[SSH: h] Error: Output too large: 9 bytes (max: 8 bytes)\r\n"
    );
    assert_eq!(
        ExecEvent::from_stream_error(StreamError::InvalidUtf8),
        ExecEvent::Failed("Invalid UTF-8".to_string())
    );
}

#[test]
fn only_a_failed_local_write_ends_the_writer_pump() {
    let failed: Result<(), PtyError> = Err(PtyError::Io("Broken pipe".to_string()));
    let write = GatewayAction::WriteTerminal(b"ls\n".to_vec());
    let resize = GatewayAction::ResizeTerminal { rows: 40, cols: 132 };
    let remote = GatewayAction::RunRemote {
        host: "h".to_string(),
        port: 22,
        user: "u".to_string(),
        command: "id".to_string(),
        preamble: String::new(),
    };
    assert!(writer_goes_on(&write, &Ok(())));
    assert!(!writer_goes_on(&write, &failed));
    assert!(!writer_goes_on(&write, &Err(PtyError::NotFound)));
    assert!(writer_goes_on(&resize, &failed));
    assert!(writer_goes_on(&resize, &Ok(())));
    assert!(writer_goes_on(&remote, &failed));
}
