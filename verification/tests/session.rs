use semctl::ipc::handshake::{SessionRequest, Token};
use semctl::session::credentials::{CredentialSource, Secret};
use semctl::session::{
    parse_resync_secs, update_check_enabled, Environment, Overrides, SessionContext,
    PER_SESSION_VARS,
};

#[test]
fn an_invocation_token_replaces_the_stored_login() {
    let source = CredentialSource::from_token(Some("header-token"));
    match source {
        CredentialSource::Invocation(secret) => assert_eq!(secret.expose(), "header-token"),
        CredentialSource::Stored => panic!("an explicit token must win over the stored login"),
    }
}

#[test]
fn a_blank_or_absent_token_falls_back_to_the_stored_login() {
    for value in [None, Some(""), Some("   "), Some("\t\n")] {
        assert!(
            matches!(CredentialSource::from_token(value), CredentialSource::Stored),
            "{value:?} must not be treated as a credential"
        );
    }
}

#[test]
fn a_secret_is_redacted_in_debug_output() {
    let secret = Secret::new("super-secret-token".to_string());
    assert_eq!(secret.redacted(), "Secret(redacted)");
    assert!(!CredentialSource::Invocation(secret).redacted().contains("super-secret"));
}

#[test]
fn sessions_share_a_scope_only_with_the_same_login() {
    let stored = CredentialSource::from_token(None).scope();
    let first = CredentialSource::from_token(Some("a")).scope();
    let second = CredentialSource::from_token(Some("b")).scope();
    assert!(stored.same(&CredentialSource::Stored.scope()));
    assert!(first.same(&first.copy()));
    assert!(!first.same(&second));
    assert!(!first.same(&stored));
}

fn overrides(server: Option<&str>, tenant: Option<&str>, codebase: Option<&str>) -> Overrides {
    Overrides {
        server: server.map(str::to_string),
        tenant: tenant.map(str::to_string),
        codebase: codebase.map(str::to_string),
    }
}

fn environment(resync_secs: Option<&str>, update_check: Option<&str>) -> Environment {
    Environment {
        credentials: CredentialSource::Stored,
        resync_secs: resync_secs.map(str::to_string),
        update_check: update_check.map(str::to_string),
    }
}

#[test]
fn command_line_overrides_become_session_fields() {
    let context = SessionContext::build(
        "/work/checkout".to_string(),
        &overrides(Some("https://example.invalid"), Some("acme"), Some("id")),
        environment(Some("15"), Some("1")),
    );
    assert_eq!(context.cwd, "/work/checkout");
    assert_eq!(context.server.as_deref(), Some("https://example.invalid"));
    assert_eq!(context.tenant.as_deref(), Some("acme"));
    assert_eq!(context.codebase.as_deref(), Some("id"));
    assert_eq!(context.resync_secs, Some(15));
    assert!(context.update_check);
    assert!(matches!(context.credentials, CredentialSource::Stored));
}

#[test]
fn an_empty_invocation_leaves_every_override_unset() {
    let context = SessionContext::build(
        "/work".to_string(),
        &overrides(None, None, None),
        environment(None, None),
    );
    assert_eq!(context.server, None);
    assert_eq!(context.tenant, None);
    assert_eq!(context.codebase, None);
    assert_eq!(context.resync_secs, None);
    assert!(context.update_check);
}

#[test]
fn resync_seconds_are_parsed_and_unreadable_values_keep_the_default() {
    assert_eq!(parse_resync_secs(Some("30")), Some(30));
    assert_eq!(parse_resync_secs(Some("  30\n")), Some(30));
    assert_eq!(
        parse_resync_secs(Some("0")),
        Some(0),
        "zero is a real setting: it disables the periodic re-sync"
    );
    assert_eq!(parse_resync_secs(None), None);
    assert_eq!(parse_resync_secs(Some("")), None);
    assert_eq!(parse_resync_secs(Some("soon")), None);
    assert_eq!(parse_resync_secs(Some("-5")), None);
}

#[test]
fn resync_seconds_follow_the_number_syntax() {
    assert_eq!(parse_resync_secs(Some("+7")), Some(7));
    assert_eq!(parse_resync_secs(Some("+")), None);
    assert_eq!(parse_resync_secs(Some("007")), Some(7));
    assert_eq!(parse_resync_secs(Some("18446744073709551615")), Some(u64::MAX));
    assert_eq!(parse_resync_secs(Some("18446744073709551616")), None);
    assert_eq!(parse_resync_secs(Some("\u{3000}5\u{a0}")), Some(5));
    assert_eq!(parse_resync_secs(Some("1 2")), None);
}

fn request(cwd: &str, token: Option<&str>) -> SessionRequest {
    SessionRequest {
        cwd: cwd.to_string(),
        server: Some("https://example.invalid".to_string()),
        tenant: Some("acme".to_string()),
        codebase: Some("id".to_string()),
        token: token.map(Token::new),
        resync_secs: Some(15),
        update_check: false,
    }
}

#[test]
fn an_attach_body_becomes_the_session_context() {
    let context = SessionContext::from_handshake(request("/work/checkout", Some("wire-token")))
        .unwrap_or_else(|e| panic!("an absolute working directory is accepted: {e}"));
    assert_eq!(context.cwd, "/work/checkout");
    assert_eq!(context.server.as_deref(), Some("https://example.invalid"));
    assert_eq!(context.tenant.as_deref(), Some("acme"));
    assert_eq!(context.codebase.as_deref(), Some("id"));
    assert_eq!(context.resync_secs, Some(15));
    assert!(!context.update_check);
    match context.credentials {
        CredentialSource::Invocation(secret) => assert_eq!(secret.expose(), "wire-token"),
        CredentialSource::Stored => panic!("the attach token must authorize this session"),
    }
}

#[test]
fn a_relative_working_directory_is_refused() {
    match SessionContext::from_handshake(request("relative/path", None)) {
        Ok(_) => panic!("a relative working directory cannot resolve a selector"),
        Err(error) => assert!(error.contains("is not absolute"), "{error}"),
    }
}

#[test]
fn an_absent_or_blank_attach_token_means_the_stored_login() {
    for token in [None, Some(""), Some("   ")] {
        let context = SessionContext::from_handshake(request("/work", token))
            .unwrap_or_else(|e| panic!("an absolute working directory is accepted: {e}"));
        assert!(
            matches!(context.credentials, CredentialSource::Stored),
            "{token:?} must not be treated as a credential"
        );
    }
}

#[test]
fn the_per_session_variables_are_the_documented_six() {
    assert_eq!(
        PER_SESSION_VARS,
        [
            "SEMCTX_TOKEN",
            "SEMCTX_SERVER",
            "SEMCTX_TENANT",
            "SEMCTX_CODEBASE",
            "SEMCTX_MCP_RESYNC_SECS",
            "SEMCTX_MCP_UPDATE_CHECK",
        ]
    );
}

#[test]
fn only_zero_disables_the_update_check() {
    assert!(!update_check_enabled(Some("0")));
    assert!(update_check_enabled(None));
    assert!(update_check_enabled(Some("1")));
    assert!(update_check_enabled(Some("")));
    assert!(update_check_enabled(Some(" 0 ")));
}
