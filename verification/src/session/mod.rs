//! The invocation context of one session.
//!
//! A process has one environment and one working directory; a session must not
//! be described by them. Everything that describes a session is read once and
//! then passed explicitly.

pub mod credentials;

use vstd::prelude::*;
use vstd::string::*;

use crate::ipc::handshake::{SessionRequest, SessionView};
use crate::paths::{join, joined};
use crate::session::credentials::{source_token, supplied_token, CredentialSource};
use crate::text::{copy_optional, copy_text, optional, parse_unsigned, parsed_unsigned, same, trim, trimmed};

verus! {

/// Seconds between periodic re-syncs. Unset means the built-in default.
pub const RESYNC_SECS_VAR: &'static str = "SEMCTX_MCP_RESYNC_SECS";

/// `0` turns the startup update check off. Any other value leaves it on.
pub const UPDATE_CHECK_VAR: &'static str = "SEMCTX_MCP_UPDATE_CHECK";

/// Every environment variable that describes one session. None of them may
/// describe a daemon, which serves several sessions.
pub const PER_SESSION_VARS: [&'static str; 6] = [
    "SEMCTX_TOKEN",
    "SEMCTX_SERVER",
    "SEMCTX_TENANT",
    "SEMCTX_CODEBASE",
    "SEMCTX_MCP_RESYNC_SECS",
    "SEMCTX_MCP_UPDATE_CHECK",
];

/// Validated invocation context for one session.
pub struct SessionContext {
    /// The directory the caller invoked from. Relative selectors resolve
    /// against it, never against the process working directory.
    pub cwd: String,
    pub server: Option<String>,
    pub tenant: Option<String>,
    /// Codebase pinned up front.
    pub codebase: Option<String>,
    pub credentials: CredentialSource,
    /// Periodic re-sync interval in seconds. `None` means the default.
    pub resync_secs: Option<u64>,
    pub update_check: bool,
}

/// A session without its credential's type: the token where it carries one.
pub struct ContextView {
    pub cwd: Seq<char>,
    pub server: Option<Seq<char>>,
    pub tenant: Option<Seq<char>>,
    pub codebase: Option<Seq<char>>,
    pub token: Option<Seq<char>>,
    pub resync_secs: Option<u64>,
    pub update_check: bool,
}

impl View for SessionContext {
    type V = ContextView;

    open spec fn view(&self) -> ContextView {
        ContextView {
            cwd: self.cwd@,
            server: optional(self.server),
            tenant: optional(self.tenant),
            codebase: optional(self.codebase),
            token: source_token(self.credentials),
            resync_secs: self.resync_secs,
            update_check: self.update_check,
        }
    }
}

/// The command-line overrides of one invocation.
pub struct Overrides {
    pub server: Option<String>,
    pub tenant: Option<String>,
    pub codebase: Option<String>,
}

/// One reading of the per-session environment variables.
pub struct Environment {
    pub credentials: CredentialSource,
    pub resync_secs: Option<String>,
    pub update_check: Option<String>,
}

/// Whether a POSIX path begins at the root directory.
pub open spec fn starts_at_root(path: Seq<char>) -> bool {
    path.len() > 0 && path[0] == '/'
}

pub fn begins_at_root(path: &str) -> (absolute: bool)
    ensures
        absolute == starts_at_root(path@),
{
    path.unicode_len() > 0 && path.get_char(0) == '/'
}

/// The place that a path names in a session: an absolute path stands for itself,
/// and a relative one starts from the session's working directory.
pub open spec fn session_place(cwd: Seq<char>, path: Seq<char>) -> Seq<char> {
    if starts_at_root(path) {
        path
    } else {
        joined(cwd, path)
    }
}

/// The place that a path names in a session. One process serves sessions that
/// were invoked from different directories, so its own directory is never meant.
pub fn session_path(cwd: &str, path: &str) -> (full: String)
    ensures
        full@ == session_place(cwd@, path@),
{
    join(cwd, path)
}

/// In a session with an absolute working directory every path names an absolute
/// place. Where the path is relative, the place is written as the working directory
/// with the path behind it: no other directory has a say in it.
pub proof fn law_a_session_path_is_absolute(cwd: Seq<char>, path: Seq<char>)
    requires
        starts_at_root(cwd),
    ensures
        starts_at_root(session_place(cwd, path)),
        starts_at_root(path) ==> session_place(cwd, path) == path,
        !starts_at_root(path) ==> cwd.is_prefix_of(session_place(cwd, path))
            && path.is_suffix_of(session_place(cwd, path)),
{
    let full = session_place(cwd, path);
    if !starts_at_root(path) {
        assert(full.subrange(0, cwd.len() as int) =~= cwd);
        assert(full.subrange(full.len() - path.len(), full.len() as int) =~= path);
    }
}

/// Why a session with a relative working directory is refused.
pub open spec fn relative_directory(cwd: Seq<char>) -> Seq<char> {
    "session working directory "@ + cwd + " is not absolute"@
}

/// The session that an attach body describes.
pub open spec fn attached_session(request: SessionView) -> ContextView {
    ContextView {
        cwd: request.cwd,
        server: request.server,
        tenant: request.tenant,
        codebase: request.codebase,
        token: supplied_token(request.token),
        resync_secs: request.resync_secs,
        update_check: request.update_check,
    }
}

impl SessionContext {
    /// The context of a session that runs in another process. The body is
    /// external data: its working directory must be absolute.
    pub fn from_handshake(request: SessionRequest) -> (context: Result<SessionContext, String>)
        ensures
            match context {
                Ok(session) => starts_at_root(request@.cwd) && session@ == attached_session(
                    request@,
                ),
                Err(reason) => !starts_at_root(request@.cwd) && reason@ == relative_directory(
                    request@.cwd,
                ),
            },
    {
        if !begins_at_root(request.cwd.as_str()) {
            let mut reason = copy_text("session working directory ");
            reason.push_str(request.cwd.as_str());
            reason.push_str(" is not absolute");
            return Err(reason);
        }
        let credentials = match &request.token {
            Some(token) => CredentialSource::from_token(Some(token.expose())),
            None => CredentialSource::from_token(None),
        };
        Ok(
            SessionContext {
                cwd: request.cwd,
                server: request.server,
                tenant: request.tenant,
                codebase: request.codebase,
                credentials,
                resync_secs: request.resync_secs,
                update_check: request.update_check,
            },
        )
    }

    /// The context of a session from a working directory, the command-line
    /// overrides, and one reading of the environment.
    pub fn build(cwd: String, overrides: &Overrides, environment: Environment) -> (context:
        SessionContext)
        ensures
            context@ == (ContextView {
                cwd: cwd@,
                server: optional(overrides.server),
                tenant: optional(overrides.tenant),
                codebase: optional(overrides.codebase),
                token: source_token(environment.credentials),
                resync_secs: resync_seconds(optional(environment.resync_secs)),
                update_check: optional(environment.update_check) != Some("0"@),
            }),
    {
        let resync_secs: Option<u64> = match &environment.resync_secs {
            Some(raw) => parse_resync_secs(Some(raw.as_str())),
            None => parse_resync_secs(None),
        };
        let update_check = match &environment.update_check {
            Some(raw) => update_check_enabled(Some(raw.as_str())),
            None => update_check_enabled(None),
        };
        SessionContext {
            cwd,
            server: copy_optional(&overrides.server),
            tenant: copy_optional(&overrides.tenant),
            codebase: copy_optional(&overrides.codebase),
            credentials: environment.credentials,
            resync_secs,
            update_check,
        }
    }
}

/// What a re-sync interval reads as: an absent or unreadable value means the
/// default.
pub open spec fn resync_seconds(raw: Option<Seq<char>>) -> Option<u64> {
    match raw {
        Some(value) => match parsed_unsigned(trimmed(value), u64::MAX as nat) {
            Some(n) => Some(n as u64),
            None => None,
        },
        None => None,
    }
}

pub fn parse_resync_secs(raw: Option<&str>) -> (secs: Option<u64>)
    ensures
        secs == resync_seconds(
            match raw {
                Some(value) => Some(value@),
                None => None,
            },
        ),
{
    match raw {
        Some(value) => parse_unsigned(trim(value), u64::MAX),
        None => None,
    }
}

/// Only the exact value `0` turns the update check off.
pub fn update_check_enabled(raw: Option<&str>) -> (enabled: bool)
    ensures
        enabled == !(raw matches Some(value) && value@ == "0"@),
{
    match raw {
        Some(value) => !same(value, "0"),
        None => true,
    }
}

/// An attach body that is accepted gives a session whose working directory is
/// absolute and whose token, where it has one, is not blank.
pub proof fn law_attached_sessions_are_valid(request: SessionView)
    requires
        starts_at_root(request.cwd),
    ensures
        starts_at_root(attached_session(request).cwd),
        attached_session(request).token matches Some(token) ==> !crate::text::is_blank(token),
        attached_session(request).token is Some ==> attached_session(request).token == request.token,
{
}

/// A session that attaches is the one that was asked for, field by field; a token of
/// white space is none.
pub proof fn law_a_session_is_what_was_asked_for(request: SessionView)
    ensures
        ({
            let session = attached_session(request);
            &&& session.cwd == request.cwd
            &&& session.server == request.server
            &&& session.tenant == request.tenant
            &&& session.codebase == request.codebase
            &&& session.resync_secs == request.resync_secs
            &&& session.update_check == request.update_check
            &&& request.token is None ==> session.token is None
            &&& request.token matches Some(token) ==> session.token == (if exists|i: int|
                0 <= i < token.len() && !crate::text::is_white_space(#[trigger] token[i]) {
                Some(token)
            } else {
                None
            })
        }),
        relative_directory(request.cwd) == "session working directory "@ + request.cwd
            + " is not absolute"@,
{
}

/// The interval is the number that is set, where one is set and can be read.
pub proof fn law_the_interval_is_what_is_set(value: Seq<char>, secs: u64)
    ensures
        resync_seconds(None) is None,
        trimmed(value) == crate::text::decimal(secs as nat) ==> resync_seconds(Some(value)) == Some(
            secs,
        ),
        parsed_unsigned(trimmed(value), u64::MAX as nat) is None ==> resync_seconds(
            Some(value),
        ) is None,
{
    crate::text::law_a_decimal_reads_back(secs as nat);
}

/// A session is attached exactly where its directory is absolute, and is then what was
/// asked for; one that is built takes its settings from the invocation and the
/// environment.
pub proof fn law_how_a_session_is_made(
    request: SessionRequest,
    attached: Result<SessionContext, String>,
    cwd: String,
    overrides: &Overrides,
    environment: Environment,
    built: SessionContext,
)
    requires
        call_ensures(SessionContext::from_handshake, (request,), attached),
        call_ensures(SessionContext::build, (cwd, overrides, environment), built),
    ensures
        attached is Ok <==> request.cwd@.len() > 0 && request.cwd@[0] == '/',
        attached matches Ok(session) ==> session@ == attached_session(request@),
        attached matches Err(reason) ==> reason@ == "session working directory "@ + request.cwd@
            + " is not absolute"@,
        built@.cwd == cwd@,
        built@.server == optional(overrides.server),
        built@.tenant == optional(overrides.tenant),
        built@.codebase == optional(overrides.codebase),
        built@.token == source_token(environment.credentials),
        built@.resync_secs == resync_seconds(optional(environment.resync_secs)),
        built@.update_check <==> optional(environment.update_check) != Some("0"@),
{
}

} // verus!
