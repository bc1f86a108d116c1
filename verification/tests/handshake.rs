use semctl::ipc::handshake::{
    after_write, decode, decode_request, decode_response, encode_request, encode_response,
    read_line_blocking, take_byte, HandshakeError, IoFailure, IoKind, LineStep, Request, Response,
    SessionRequest, Token, WriteStep, MAX_LINE_BYTES, PROTOCOL,
};

fn session() -> SessionRequest {
    SessionRequest {
        cwd: "/abs/path".to_string(),
        server: Some("https://example.invalid".to_string()),
        tenant: None,
        codebase: None,
        token: Some(Token::new("super-secret-value")),
        resync_secs: Some(30),
        update_check: true,
    }
}

fn shown<T>(result: Result<T, HandshakeError>) -> Result<T, String> {
    result.map_err(|e| e.message())
}

fn failure<T>(result: Result<T, HandshakeError>) -> HandshakeError {
    match result {
        Ok(_) => panic!("expected an error"),
        Err(error) => error,
    }
}

#[test]
fn attach_request_round_trips_through_one_line() {
    let line = shown(encode_request(&Request::attach("0.2.0", session()))).expect("encode attach");
    assert_eq!(line.last(), Some(&b'\n'));
    let decoded = shown(decode_request(&line)).expect("decode attach");
    let (protocol, version, session) = match decoded {
        Request::Attach { protocol, version, session } => (protocol, version, session),
        _ => panic!("expected an attach request"),
    };
    assert_eq!(protocol, PROTOCOL);
    assert_eq!(version, "0.2.0");
    assert_eq!(session.cwd, "/abs/path");
    assert_eq!(
        session.token.as_ref().map(|t| t.expose()),
        Some("super-secret-value")
    );
    assert_eq!(session.resync_secs, Some(30));
    assert!(session.update_check);
    assert_eq!(session.server.as_deref(), Some("https://example.invalid"));
    assert!(session.tenant.is_none());
    assert!(session.codebase.is_none());
}

#[test]
fn status_and_stop_requests_round_trip() {
    let status = shown(encode_request(&Request::status())).expect("encode status");
    assert!(matches!(
        decode_request(&status),
        Ok(Request::Status { protocol }) if protocol == PROTOCOL
    ));
    let stop = shown(encode_request(&Request::stop())).expect("encode stop");
    assert!(matches!(
        decode_request(&stop),
        Ok(Request::Stop { protocol }) if protocol == PROTOCOL
    ));
}

#[test]
fn attached_and_rejected_responses_round_trip() {
    let attached =
        shown(encode_response(&Response::attached("0.2.0", "session-1"))).expect("encode attached");
    let (protocol, version, session_id) = match decode_response(&attached) {
        Ok(Response::Attached { protocol, version, session_id }) => (protocol, version, session_id),
        _ => panic!("expected an attached response"),
    };
    assert_eq!(protocol, PROTOCOL);
    assert_eq!(version, "0.2.0");
    assert_eq!(session_id, "session-1");

    let rejected = shown(encode_response(&Response::rejected("0.2.0", "no"))).expect("encode rejected");
    let reason = match decode_response(&rejected) {
        Ok(Response::Rejected { reason, .. }) => reason,
        _ => panic!("expected a rejected response"),
    };
    assert_eq!(reason, "no");
}

#[test]
fn kind_names_match_the_documented_wire_form() {
    let line = shown(encode_request(&Request::attach("0.2.0", session()))).expect("encode attach");
    let text = String::from_utf8(line).expect("attach line is utf-8");
    assert!(text.contains("\"kind\":\"attach\""), "{text}");
    let line = shown(encode_response(&Response::attached("0.2.0", "s"))).expect("encode attached");
    let text = String::from_utf8(line).expect("attached line is utf-8");
    assert!(text.contains("\"kind\":\"attached\""), "{text}");
}

#[test]
fn oversized_line_is_rejected_before_it_is_parsed() {
    let mut oversized = vec![b'x'; MAX_LINE_BYTES + 16];
    oversized.push(b'\n');
    let error = failure(read_line_blocking(oversized.as_slice()));
    assert!(matches!(error, HandshakeError::LineTooLong), "{}", error.message());
    assert_eq!(error.message(), "handshake line is longer than 65536 bytes");
}

#[test]
fn a_line_at_the_limit_is_accepted() {
    let mut line = vec![b'x'; MAX_LINE_BYTES - 1];
    line.push(b'\n');
    let (read, used) = shown(read_line_blocking(line.as_slice())).expect("line at the limit");
    assert_eq!(read.len(), MAX_LINE_BYTES - 1);
    assert_eq!(used, MAX_LINE_BYTES);
}

#[test]
fn oversized_message_is_rejected_by_the_encoder() {
    let mut oversized = session();
    oversized.codebase = Some("c".repeat(MAX_LINE_BYTES));
    let error = failure(encode_request(&Request::attach("0.2.0", oversized)));
    assert!(matches!(error, HandshakeError::LineTooLong), "{}", error.message());
}

#[test]
fn mismatched_protocol_is_rejected() {
    let line = br#"{"kind":"status","protocol":99}"#;
    let error = failure(decode_request(line));
    assert!(
        matches!(
            error,
            HandshakeError::ProtocolMismatch { expected: PROTOCOL, received: 99 }
        ),
        "{}",
        error.message()
    );
    assert_eq!(error.message(), "handshake protocol 99 does not match 1");
}

#[test]
fn unknown_kind_is_rejected() {
    let line = br#"{"kind":"detach","protocol":1}"#;
    let error = failure(decode_request(line));
    assert!(
        matches!(&error, HandshakeError::UnknownKind(kind) if kind == "detach"),
        "{}",
        error.message()
    );
    assert_eq!(error.message(), "unknown handshake kind \"detach\"");
}

#[test]
fn a_response_kind_is_not_accepted_as_a_request() {
    let line = shown(encode_response(&Response::attached("0.2.0", "s"))).expect("encode attached");
    let error = failure(decode_request(&line));
    assert!(
        matches!(&error, HandshakeError::UnknownKind(kind) if kind == "attached"),
        "{}",
        error.message()
    );
}

#[test]
fn a_malformed_line_is_rejected() {
    let error = failure(decode_request(b"not json"));
    assert!(matches!(error, HandshakeError::Malformed(_)), "{}", error.message());
    assert!(error.message().starts_with("handshake line is malformed: "));
}

#[test]
fn a_line_without_its_fields_is_malformed() {
    for line in [
        "{}",
        "[]",
        r#"{"kind":"attach","protocol":1}"#,
        r#"{"kind":1,"protocol":1}"#,
        r#"{"kind":"attach","protocol":1,"version":"0.2.0","session":{}}"#,
    ] {
        let error = failure(decode_request(line.as_bytes()));
        assert!(matches!(error, HandshakeError::Malformed(_)), "{line}: {}", error.message());
    }
}

#[test]
fn debug_of_an_attach_request_hides_the_token() {
    let rendered = Request::attach("0.2.0", session()).redacted();
    assert!(!rendered.contains("super-secret-value"), "{rendered}");
    assert!(rendered.contains("Token(redacted)"), "{rendered}");
    assert!(rendered.contains("\"/abs/path\""), "{rendered}");
}

#[test]
fn debug_of_a_token_hides_the_secret() {
    let rendered = Token::new("super-secret-value").redacted();
    assert_eq!(rendered, "Token(redacted)");
}

#[test]
fn blocking_write_and_read_agree() {
    let wire = shown(encode_request(&Request::status())).expect("write status");
    let (line, used) = shown(read_line_blocking(wire.as_slice())).expect("read status");
    assert!(matches!(decode_request(&line), Ok(Request::Status { .. })));
    assert_eq!(used, wire.len());
}

#[test]
fn asynchronous_write_and_read_agree() {
    let wire = shown(encode_response(&Response::attached("0.2.0", "s"))).expect("write attached");
    let mut line: Vec<u8> = Vec::new();
    for byte in wire.iter() {
        if take_byte(&mut line, *byte) == LineStep::Done {
            break;
        }
    }
    assert!(matches!(decode_response(&line), Ok(Response::Attached { .. })));
}

#[test]
fn asynchronous_read_stops_at_the_newline_byte() {
    let source: &[u8] = b"{\"kind\":\"stop\",\"protocol\":1}\nleftover";
    let (line, used) = shown(read_line_blocking(source)).expect("read stop");
    assert!(matches!(decode_request(&line), Ok(Request::Stop { .. })));
    assert_eq!(&source[used..], b"leftover");
}

#[test]
fn asynchronous_read_reports_a_closed_peer() {
    let error = failure(read_line_blocking(b"partial"));
    assert!(matches!(error, HandshakeError::Closed), "{}", error.message());
    assert_eq!(error.message(), "peer closed the connection during the handshake");
}

#[test]
fn an_empty_known_kind_list_rejects_every_line() {
    let error = failure(decode(br#"{"kind":"status","protocol":1}"#, &Vec::new()));
    assert!(matches!(error, HandshakeError::UnknownKind(_)), "{}", error.message());
}

#[test]
fn other_failures_say_what_they_are() {
    assert_eq!(HandshakeError::TimedOut.message(), "handshake did not finish in time");
    let failure = IoFailure { kind: IoKind::BrokenPipe, text: "broken pipe".to_string() };
    assert_eq!(
        HandshakeError::Transport(failure).message(),
        "handshake transport failed: broken pipe"
    );
}

#[test]
fn a_partial_write_goes_on_where_it_stopped() {
    assert_eq!(after_write(10, 0, 4), WriteStep::More(4));
    assert_eq!(after_write(10, 4, 6), WriteStep::Done);
    assert_eq!(after_write(10, 4, 0), WriteStep::WriteZero);
}

#[test]
fn a_long_line_stops_at_its_limit() {
    let mut line = vec![b'x'; MAX_LINE_BYTES - 1];
    assert_eq!(take_byte(&mut line, b'y'), LineStep::TooLong);
}

#[test]
fn an_unknown_kind_is_quoted_with_its_escapes() {
    let error = HandshakeError::UnknownKind("a\"b\n".to_string());
    assert_eq!(error.message(), "unknown handshake kind \"a\\\"b\\n\"");
}

#[test]
fn a_line_is_refused_in_the_other_direction() {
    for (request, kind) in [
        (Request::attach("0.2.0", session()), "attach"),
        (Request::status(), "status"),
        (Request::stop(), "stop"),
    ] {
        let line = encode_request(&request).unwrap_or_else(|e| panic!("{}", e.message()));
        assert!(decode_request(&line).is_ok(), "the newline belongs to the line");
        assert!(matches!(
            decode_response(&line),
            Err(HandshakeError::UnknownKind(found)) if found == kind
        ));
    }
    for (response, kind) in [
        (Response::attached("0.2.0", "s"), "attached"),
        (Response::rejected("0.2.0", "busy"), "rejected"),
    ] {
        let line = encode_response(&response).unwrap_or_else(|e| panic!("{}", e.message()));
        assert!(decode_response(&line).is_ok(), "the newline belongs to the line");
        assert!(matches!(
            decode_request(&line),
            Err(HandshakeError::UnknownKind(found)) if found == kind
        ));
    }
}

#[test]
fn members_are_written_in_their_order() {
    let line = encode_request(&Request::attach("0.2.0", session()))
        .unwrap_or_else(|e| panic!("{}", e.message()));
    assert_eq!(
        String::from_utf8(line).expect("UTF-8"),
        "{\"kind\":\"attach\",\"protocol\":1,\"version\":\"0.2.0\",\"session\":{\"cwd\":\"/abs/path\",\"server\":\"https://example.invalid\",\"tenant\":null,\"codebase\":null,\"token\":\"super-secret-value\",\"resync_secs\":30,\"update_check\":true}}\n"
    );
    let line = encode_response(&Response::rejected("0.2.0", "busy"))
        .unwrap_or_else(|e| panic!("{}", e.message()));
    assert_eq!(
        String::from_utf8(line).expect("UTF-8"),
        "{\"kind\":\"rejected\",\"protocol\":1,\"version\":\"0.2.0\",\"reason\":\"busy\"}\n"
    );
}

#[test]
fn a_repeated_member_is_malformed() {
    let session = r#"{"cwd":"/w","update_check":true}"#;
    for (line, name) in [
        (r#"{"kind":"stop","protocol":1,"kind":"stop"}"#.to_string(), "kind"),
        (r#"{"kind":"stop","protocol":1, "kind" : "status"}"#.to_string(), "kind"),
        (r#"{"protocol":2,"kind":"bogus","protocol":1}"#.to_string(), "protocol"),
        (
            format!(r#"{{"kind":"attach","protocol":1,"version":"a","version":"b","session":{session}}}"#),
            "version",
        ),
        (
            format!(r#"{{"kind":"attach","protocol":1,"version":"a","session":{session},"session":{session}}}"#),
            "session",
        ),
        (
            r#"{"kind":"attach","protocol":1,"version":"a","session":{"cwd":"/w","update_check":true,"cwd":"/w"}}"#
                .to_string(),
            "cwd",
        ),
    ] {
        let error = failure(decode_request(line.as_bytes()));
        assert_eq!(
            error.message(),
            format!("handshake line is malformed: duplicate field `{name}`"),
            "{line}"
        );
    }
    let line = r#"{"kind":"rejected","protocol":1,"version":"a","reason":"x","reason":"y"}"#;
    assert!(matches!(decode_response(line.as_bytes()), Err(HandshakeError::Malformed(_))));
    let line = r#"{"kind":"attached","protocol":1,"version":"a","version":"b","session_id":"s"}"#;
    assert!(matches!(decode_response(line.as_bytes()), Err(HandshakeError::Malformed(_))));
}

#[test]
fn what_a_message_does_not_carry_may_be_repeated() {
    let line = r#" { "x" : 1 , "kind" : "stop" , "x" : [ { "kind" : "a" } , "kind" ] ,
        "version" : "," , "protocol" : 1 , "version" : ":" } "#;
    assert!(matches!(decode_request(line.as_bytes()), Ok(Request::Stop { protocol: 1 })));
    let line = r#"{"kind":"attach","protocol":1,"version":"a","x":{"cwd":"/x"},
        "session":{"cwd":"/w","update_check":false,"x":{"cwd":"/y"},"x":"cwd"}}"#;
    assert!(matches!(
        decode_request(line.as_bytes()),
        Ok(Request::Attach { session, .. }) if session.cwd == "/w" && !session.update_check
    ));
}

#[test]
fn a_list_stands_for_the_members_in_their_order() {
    assert!(matches!(
        decode_request(br#"["status",1]"#),
        Ok(Request::Status { protocol: 1 })
    ));
    assert!(matches!(decode_request(b"[ \"stop\" , 1 ]\n"), Ok(Request::Stop { protocol: 1 })));
    assert!(matches!(
        decode_request(br#"["bogus",1]"#),
        Err(HandshakeError::UnknownKind(kind)) if kind == "bogus"
    ));
    assert!(matches!(
        decode_request(br#"["stop",2]"#),
        Err(HandshakeError::ProtocolMismatch { expected: 1, received: 2 })
    ));
    for line in [r#"["attach",1]"#, r#"["stop"]"#, r#"["stop",1,1]"#, r#"["stop",-1]"#, "[1,1]"] {
        let error = failure(decode_request(line.as_bytes()));
        assert!(matches!(error, HandshakeError::Malformed(_)), "{line}: {}", error.message());
    }
    assert!(matches!(
        decode_response(br#"["attached",1]"#),
        Err(HandshakeError::Malformed(_))
    ));
    let attach = |session: &str| {
        let line =
            format!(r#"{{"kind":"attach","protocol":1,"version":"a","session":{session}}}"#);
        decode_request(line.as_bytes())
    };
    match attach(r#"["/w",null,"t",null,"secret",7,true]"#) {
        Ok(Request::Attach { session, .. }) => {
            assert_eq!(session.cwd, "/w");
            assert_eq!(session.server, None);
            assert_eq!(session.tenant.as_deref(), Some("t"));
            assert_eq!(session.codebase, None);
            assert_eq!(session.token.as_ref().map(|t| t.expose()), Some("secret"));
            assert_eq!(session.resync_secs, Some(7));
            assert!(session.update_check);
        }
        _ => panic!("expected an attach request"),
    }
    for session in [
        r#"["/w",null,null,null,null,null]"#,
        r#"["/w",null,null,null,null,null,true,1]"#,
        r#"[null,null,null,null,null,null,true]"#,
        r#"["/w",null,null,null,null,-7,true]"#,
    ] {
        assert!(matches!(attach(session), Err(HandshakeError::Malformed(_))), "{session}");
    }
}
