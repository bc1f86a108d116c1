use semctl::ipc::endpoint::{
    accept_attach, after_attempt, config_directory, connection_lost, identity, AttachStep, Attempt,
    Endpoint, IDENTITY_HEX_CHARS, VERSION,
};
use semctl::ipc::handshake::{HandshakeError, IoFailure, IoKind, Response};
use semctl::ipc::pump::{
    after_read, after_report, collect, inbound_exit, outbound_end, CopyStep, Exit, HalfClose,
    OutboundEnd, ReadOutcome, Report,
};
use semctl::ipc::unix::{
    accepts_peer, after_connect_failure, elect, preferred_runtime_dir, select_runtime_dir,
    socket_path, verify_runtime_dir, ConnectStep, DirectoryFacts, ElectionStep, LockOutcome,
    FIRST_BACKOFF, LAST_BACKOFF, MAX_SOCKET_PATH_BYTES,
};
use semctl::ipc::{unix, windows};

const TEST_ID: &str = "0123456789abcdef";

#[test]
fn identity_is_stable_for_equal_inputs() {
    let first = identity(b"/home/a/.config/semctl", "0.2.0", "1000");
    let second = identity(b"/home/a/.config/semctl", "0.2.0", "1000");
    assert_eq!(first, second);
    assert_eq!(first.len(), IDENTITY_HEX_CHARS);
    assert!(first.chars().all(|c| c.is_ascii_hexdigit()), "{first}");
}

#[test]
fn identity_is_the_start_of_a_digest() {
    let mut input = b"/home/a/.config/semctl".to_vec();
    input.push(0);
    input.extend_from_slice(b"0.2.0");
    input.push(0);
    input.extend_from_slice(b"1000");
    let digest = blake3::hash(&input).to_hex().to_string();
    assert_eq!(
        identity(b"/home/a/.config/semctl", "0.2.0", "1000"),
        digest[..IDENTITY_HEX_CHARS]
    );
}

#[test]
fn identity_changes_with_the_configuration_directory() {
    let first = identity(b"/home/a/.config/semctl", "0.2.0", "1000");
    let second = identity(b"/home/b/.config/semctl", "0.2.0", "1000");
    assert_ne!(first, second);
}

#[test]
fn identity_changes_with_the_version() {
    let first = identity(b"/home/a/.config/semctl", "0.2.0", "1000");
    let second = identity(b"/home/a/.config/semctl", "0.2.1", "1000");
    assert_ne!(first, second);
}

#[test]
fn identity_changes_with_the_platform_user() {
    let first = identity(b"/home/a/.config/semctl", "0.2.0", "1000");
    let second = identity(b"/home/a/.config/semctl", "0.2.0", "1001");
    assert_ne!(first, second);
}

#[test]
fn identity_separates_the_three_inputs() {
    let first = identity(b"/a", "b", "c");
    let second = identity(b"/a", "bc", "");
    assert_ne!(first, second);
}

#[test]
fn the_endpoint_identity_uses_this_build_version() {
    assert_eq!(VERSION, "0.1.0");
}

#[test]
fn a_unix_endpoint_names_the_socket_lock_and_log_in_one_directory() {
    let endpoint =
        Endpoint::in_runtime_dir("/run/user/1000/semctl".to_string(), TEST_ID.to_string(), 1000);
    assert_eq!(endpoint.id(), "0123456789abcdef");
    assert_eq!(endpoint.socket_path(), "/run/user/1000/semctl/0123456789abcdef.sock");
    assert_eq!(endpoint.lock_path(), "/run/user/1000/semctl/0123456789abcdef.lock");
    assert_eq!(endpoint.log_path(), "/run/user/1000/semctl/0123456789abcdef.log");
    assert_eq!(endpoint.runtime_dir(), "/run/user/1000/semctl");
    assert_eq!(endpoint.uid(), 1000);
    assert_eq!(endpoint.daemon_dir(), Some("/run/user/1000/semctl"));
}

#[test]
fn the_endpoint_identity_uses_the_configured_path_unresolved() {
    let configured = config_directory(Ok("/home/a/.config/../.config/semctl".to_string()))
        .expect("locate the configuration directory");
    assert_eq!(configured, "/home/a/.config/../.config/semctl");
    let error = config_directory(Err("no home".to_string())).expect_err("nowhere to look");
    assert!(error.contains("no home"), "{error}");
}

#[test]
fn a_session_opens_only_on_an_answer_from_this_build() {
    accept_attach(&Response::attached(VERSION, "1-1")).expect("this build's daemon serves");
}

#[test]
fn an_attached_answer_from_another_build_is_refused() {
    let error = accept_attach(&Response::attached("0.0.1", "1-1"))
        .expect_err("another build cannot serve this client");
    assert!(error.contains("0.0.1"), "{error}");
    assert!(error.contains(VERSION), "{error}");
}

fn transport(kind: IoKind) -> HandshakeError {
    HandshakeError::Transport(IoFailure { kind, text: "failed".to_string() })
}

#[test]
fn only_a_connection_that_closed_before_an_answer_is_retried() {
    assert!(connection_lost(&HandshakeError::Closed));
    for kind in [IoKind::ConnectionReset, IoKind::BrokenPipe, IoKind::UnexpectedEof] {
        assert!(connection_lost(&transport(kind)), "{kind:?}");
    }
    assert!(!connection_lost(&HandshakeError::TimedOut));
    assert!(!connection_lost(&HandshakeError::LineTooLong));
    assert!(!connection_lost(&HandshakeError::Malformed("no".into())));
    assert!(!connection_lost(&transport(IoKind::Other)));
}

#[test]
fn a_refusal_reports_the_reason_the_daemon_gave() {
    let error = accept_attach(&Response::rejected(VERSION, "no session for you"))
        .expect_err("a refusal opens no session");
    assert!(error.contains("no session for you"), "{error}");
}

#[test]
fn an_attach_is_tried_twice_at_most() {
    let lost = Attempt::NotAnswered(HandshakeError::Closed);
    assert!(matches!(after_attempt(&lost, false), AttachStep::Retry));
    assert!(matches!(after_attempt(&lost, true), AttachStep::Fail(_)));
    let answered = Attempt::Answered(Response::attached(VERSION, "1-1"));
    assert!(matches!(after_attempt(&answered, false), AttachStep::Pump));
    let absent = Attempt::NotConnected("nobody".to_string());
    match after_attempt(&absent, false) {
        AttachStep::Fail(reason) => assert_eq!(reason, "nobody"),
        _ => panic!("no connection is final"),
    }
    let garbled = Attempt::NotUnderstood(HandshakeError::UnknownKind("detach".to_string()));
    match after_attempt(&garbled, false) {
        AttachStep::Fail(reason) => assert_eq!(
            reason,
            "decode the attach answer: unknown handshake kind \"detach\""
        ),
        _ => panic!("an answer that is not understood is final"),
    }
    match after_attempt(&Attempt::NotSent(HandshakeError::TimedOut), false) {
        AttachStep::Fail(reason) => assert_eq!(
            reason,
            "send the attach request: handshake did not finish in time"
        ),
        _ => panic!("a timeout is final"),
    }
}

#[test]
fn the_exit_codes_match_the_documented_statuses() {
    assert_eq!(Exit::Clean.code(), 0);
    assert_eq!(Exit::TransportFailed.code(), 1);
}

#[test]
fn input_end_of_file_half_closes_and_waits_for_the_daemon() {
    let end = outbound_end(HalfClose::Supported);
    assert_eq!(end, OutboundEnd::HalfClosed);
    assert_eq!(after_report(Some(Report::Outbound(end))), None);
    assert_eq!(
        collect(&vec![Report::Outbound(end), Report::Inbound(Exit::Clean)]),
        Exit::Clean
    );
}

#[test]
fn input_end_of_file_ends_the_pump_when_the_transport_cannot_half_close() {
    let end = outbound_end(HalfClose::Unsupported);
    assert_eq!(collect(&vec![Report::Outbound(end)]), Exit::Clean);
}

#[test]
fn a_broken_connection_ends_the_pump_with_the_failure_status() {
    assert_eq!(inbound_exit(true), Exit::TransportFailed);
    assert_eq!(
        collect(&vec![Report::OutboundFailed, Report::Inbound(Exit::TransportFailed)]),
        Exit::TransportFailed
    );
    assert_eq!(collect(&Vec::new()), Exit::TransportFailed);
}

#[test]
fn a_closed_output_ends_the_pump_cleanly() {
    assert_eq!(inbound_exit(false), Exit::Clean);
    assert_eq!(collect(&vec![Report::Inbound(Exit::Clean)]), Exit::Clean);
}

#[test]
fn a_read_decides_what_is_copied() {
    assert_eq!(after_read(ReadOutcome::Bytes(7)), CopyStep::Write(7));
    assert_eq!(after_read(ReadOutcome::Bytes(0)), CopyStep::End);
    assert_eq!(after_read(ReadOutcome::Interrupted), CopyStep::Again);
    assert_eq!(after_read(ReadOutcome::Failed), CopyStep::Failed);
}

fn facts(mode: u32) -> DirectoryFacts {
    DirectoryFacts { is_dir: true, uid: 1000, mode }
}

#[test]
fn a_private_directory_passes_validation() {
    verify_runtime_dir("/run/semctl", facts(0o40700), 1000).expect("a private directory is accepted");
}

#[test]
fn a_directory_with_group_bits_is_refused() {
    let error = verify_runtime_dir("/run/semctl", facts(0o40750), 1000).expect_err("group access");
    assert!(error.contains("group or other access"), "{error}");
}

#[test]
fn a_directory_with_other_bits_is_refused() {
    let error = verify_runtime_dir("/run/semctl", facts(0o40701), 1000).expect_err("other access");
    assert!(error.contains("group or other access"), "{error}");
}

#[test]
fn a_directory_owned_by_another_user_is_refused() {
    let error = verify_runtime_dir("/run/semctl", facts(0o40700), 1001).expect_err("wrong owner");
    assert!(error.contains("is owned by uid"), "{error}");
}

#[test]
fn a_symbolic_link_in_place_of_the_directory_is_refused() {
    let link = DirectoryFacts { is_dir: false, uid: 1000, mode: 0o120777 };
    let error = verify_runtime_dir("/run/semctl", link, 1000).expect_err("symbolic link");
    assert!(error.contains("is not a directory"), "{error}");
}

#[test]
fn a_short_preferred_directory_is_used() {
    let chosen = select_runtime_dir(Some("/run/user/1000/semctl".to_string()), TEST_ID, 1000);
    assert_eq!(chosen, "/run/user/1000/semctl");
}

#[test]
fn a_long_preferred_directory_falls_back_to_tmp() {
    let preferred = format!("/run/user/1000/{}/semctl", "d".repeat(120));
    assert!(socket_path(&preferred, TEST_ID).len() > MAX_SOCKET_PATH_BYTES);
    let chosen = select_runtime_dir(Some(preferred), TEST_ID, 1000);
    assert_eq!(chosen, "/tmp/semctl-1000");
}

#[test]
fn no_preferred_directory_falls_back_to_tmp() {
    let chosen = select_runtime_dir(None, TEST_ID, 1000);
    assert_eq!(chosen, "/tmp/semctl-1000");
}

#[test]
fn a_runtime_directory_has_to_be_absolute() {
    assert_eq!(
        preferred_runtime_dir(Some("/run/user/1000")).as_deref(),
        Some("/run/user/1000/semctl")
    );
    assert!(preferred_runtime_dir(None).is_none());
}

#[test]
fn a_client_without_a_daemon_fails_at_the_deadline() {
    let mut remaining: u64 = 30;
    let mut backoff = FIRST_BACKOFF;
    let mut waits: Vec<u64> = Vec::new();
    loop {
        match after_connect_failure(IoKind::NotFound, backoff, remaining) {
            ConnectStep::Wait { sleep, backoff: next } => {
                waits.push(sleep);
                remaining -= sleep;
                backoff = next;
            }
            ConnectStep::TooLate => break,
            ConnectStep::Fail => panic!("an absent daemon may still start"),
        }
    }
    assert_eq!(waits, vec![10, 20]);
    assert_eq!(
        after_connect_failure(IoKind::NotFound, LAST_BACKOFF, 1000),
        ConnectStep::Wait { sleep: LAST_BACKOFF, backoff: LAST_BACKOFF }
    );
    assert_eq!(
        after_connect_failure(IoKind::Other, FIRST_BACKOFF, 1000),
        ConnectStep::Fail
    );
    assert!(unix::is_absent(IoKind::ConnectionRefused));
}

#[test]
fn the_lock_decides_an_election() {
    assert_eq!(elect(LockOutcome::Acquired), ElectionStep::Bind);
    assert_eq!(elect(LockOutcome::WouldBlock), ElectionStep::Lost);
    assert_eq!(elect(LockOutcome::Failed), ElectionStep::Fail);
}

#[test]
fn only_the_same_user_is_served() {
    assert!(accepts_peer(1000, Some(1000)));
    assert!(!accepts_peer(1000, Some(0)));
    assert!(!accepts_peer(1000, None));
}

#[test]
fn the_pipe_name_is_local_and_carries_the_identity() {
    assert_eq!(
        windows::pipe_name("0123456789abcdef"),
        r"\\.\pipe\semctl-0123456789abcdef"
    );
    assert_eq!(windows::log_name("0123456789abcdef"), "daemon-0123456789abcdef.log");
}

#[test]
fn wide_strings_end_with_a_null_unit() {
    let encoded = windows::wide("ab");
    assert_eq!(encoded, vec![u16::from(b'a'), u16::from(b'b'), 0]);
    let text = "a€😀";
    let mut expected: Vec<u16> = text.encode_utf16().collect();
    expected.push(0);
    assert_eq!(windows::wide(text), expected);
}

#[test]
fn a_descriptor_names_one_user() {
    assert_eq!(windows::descriptor_text("S-1-5-21"), "D:P(A;;GA;;;S-1-5-21)");
}

#[test]
fn a_pipe_pool_is_filled_up() {
    assert_eq!(windows::refill_count(0), windows::POOL_INSTANCES - 1);
    assert_eq!(windows::refill_count(100), 0);
    assert_eq!(windows::buffer_words(0), 1);
    assert_eq!(windows::buffer_words(17), 3);
    assert!(windows::is_absent(Some(windows::ERROR_PIPE_BUSY)));
    assert!(!windows::is_absent(None));
    assert!(windows::lost_election(Some(windows::ERROR_ACCESS_DENIED)));
}
