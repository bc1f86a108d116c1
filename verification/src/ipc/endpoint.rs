//! The local endpoint a client uses to reach the shared daemon.
//!
//! One daemon serves one operating-system user and one configuration
//! directory. The endpoint name carries a hash of both, plus the build version:
//! an old client keeps attaching to the old daemon, and a new client starts a
//! new one.

use vstd::prelude::*;
use vstd::string::*;

use crate::digest::{blake3_digest, digest, hex, hex_text, lemma_hex_len};
use crate::ipc::handshake::{ErrorView, HandshakeError, IoKind, Response, ResponseView};
use crate::ipc::unix::{lock_file, lock_path, log_file, log_path, socket_file, socket_path};
use crate::paths::copy_slice;
use crate::text::{copy_text, same};

verus! {

/// The build version that takes part in the endpoint identity.
pub const VERSION: &'static str = "0.1.0";

/// How many hexadecimal characters of the digest name the endpoint.
pub const IDENTITY_HEX_CHARS: usize = 16;

/// The bytes that are hashed: the three inputs, with a zero byte between them.
pub open spec fn identity_bytes(
    config_dir: Seq<u8>,
    version: Seq<char>,
    platform_user: Seq<char>,
) -> Seq<u8> {
    config_dir + seq![0u8] + vstd::utf8::encode_utf8(version) + seq![0u8]
        + vstd::utf8::encode_utf8(platform_user)
}

/// The endpoint's name: the first characters of the digest in hexadecimal.
pub open spec fn identity_name(
    config_dir: Seq<u8>,
    version: Seq<char>,
    platform_user: Seq<char>,
) -> Seq<char> {
    hex(blake3_digest(identity_bytes(config_dir, version, platform_user)).take(8))
}

/// Stable endpoint identity for one configuration directory, build version,
/// and operating-system user. The directory is taken as it is configured, not
/// resolved: resolving would make the identity depend on whether the directory
/// exists already.
pub fn identity(config_dir: &[u8], version: &str, platform_user: &str) -> (name: String)
    ensures
        name@ == identity_name(config_dir@, version@, platform_user@),
        name@.len() == IDENTITY_HEX_CHARS,
{
    let mut bytes = copy_slice(config_dir);
    bytes.push(0);
    let mut version_bytes = copy_slice(version.as_bytes());
    bytes.append(&mut version_bytes);
    bytes.push(0);
    let mut user_bytes = copy_slice(platform_user.as_bytes());
    bytes.append(&mut user_bytes);
    assert(bytes@ =~= identity_bytes(config_dir@, version@, platform_user@));
    let hash = digest(bytes.as_slice());
    let name = hex_text(hash.as_slice(), 8);
    proof {
        lemma_hex_len(hash@.take(8));
    }
    name
}

/// No two different inputs are hashed as the same bytes: the inputs are kept
/// apart by zero bytes, which neither a path nor a version holds.
pub proof fn law_identity_separates_its_inputs(
    first_dir: Seq<u8>,
    first_version: Seq<char>,
    first_user: Seq<char>,
    second_dir: Seq<u8>,
    second_version: Seq<char>,
    second_user: Seq<char>,
)
    requires
        !first_dir.contains(0u8),
        !second_dir.contains(0u8),
        !vstd::utf8::encode_utf8(first_version).contains(0u8),
        !vstd::utf8::encode_utf8(second_version).contains(0u8),
        identity_bytes(first_dir, first_version, first_user) == identity_bytes(
            second_dir,
            second_version,
            second_user,
        ),
    ensures
        first_dir == second_dir,
        first_version == second_version,
        first_user == second_user,
{
    let a = vstd::utf8::encode_utf8(first_version);
    let b = vstd::utf8::encode_utf8(second_version);
    let x = vstd::utf8::encode_utf8(first_user);
    let y = vstd::utf8::encode_utf8(second_user);
    let first_rest = a + seq![0u8] + x;
    let second_rest = b + seq![0u8] + y;
    assert(identity_bytes(first_dir, first_version, first_user) =~= first_dir + seq![0u8]
        + first_rest);
    assert(identity_bytes(second_dir, second_version, second_user) =~= second_dir + seq![0u8]
        + second_rest);
    lemma_zero_separates(first_dir, first_rest, second_dir, second_rest);
    lemma_zero_separates(a, x, b, y);
    vstd::utf8::encode_utf8_decode_utf8(first_version);
    vstd::utf8::encode_utf8_decode_utf8(second_version);
    vstd::utf8::encode_utf8_decode_utf8(first_user);
    vstd::utf8::encode_utf8_decode_utf8(second_user);
}

proof fn lemma_zero_separates(a: Seq<u8>, x: Seq<u8>, b: Seq<u8>, y: Seq<u8>)
    requires
        !a.contains(0u8),
        !b.contains(0u8),
        a + seq![0u8] + x == b + seq![0u8] + y,
    ensures
        a == b,
        x == y,
{
    let left = a + seq![0u8] + x;
    let right = b + seq![0u8] + y;
    if a.len() < b.len() {
        assert(left[a.len() as int] == 0u8);
        assert(right[a.len() as int] == b[a.len() as int]);
        assert(b.contains(b[a.len() as int]));
    } else if b.len() < a.len() {
        assert(right[b.len() as int] == 0u8);
        assert(left[b.len() as int] == a[b.len() as int]);
        assert(a.contains(a[b.len() as int]));
    } else {
        assert(a =~= left.take(a.len() as int));
        assert(b =~= right.take(b.len() as int));
        assert(x =~= left.skip(a.len() as int + 1));
        assert(y =~= right.skip(b.len() as int + 1));
    }
}

/// The configuration directory, exactly as it is configured, or why it is not
/// known.
pub fn config_directory(configured: Result<String, String>) -> (dir: Result<String, String>)
    ensures
        match configured {
            Ok(path) => dir matches Ok(d) && d@ == path@,
            Err(reason) => dir matches Err(message) && message@
                == "locate the configuration directory: "@ + reason@,
        },
{
    match configured {
        Ok(path) => Ok(path),
        Err(reason) => {
            let mut message = copy_text("locate the configuration directory: ");
            message.push_str(reason.as_str());
            Err(message)
        },
    }
}

/// The paths and names of one local daemon endpoint.
pub struct Endpoint {
    id: String,
    log_path: String,
    runtime_dir: String,
    socket_path: String,
    lock_path: String,
    uid: u32,
}

pub struct EndpointView {
    pub id: Seq<char>,
    pub log_path: Seq<char>,
    pub runtime_dir: Seq<char>,
    pub socket_path: Seq<char>,
    pub lock_path: Seq<char>,
    pub uid: u32,
}

impl View for Endpoint {
    type V = EndpointView;

    closed spec fn view(&self) -> EndpointView {
        EndpointView {
            id: self.id@,
            log_path: self.log_path@,
            runtime_dir: self.runtime_dir@,
            socket_path: self.socket_path@,
            lock_path: self.lock_path@,
            uid: self.uid,
        }
    }
}

impl Endpoint {
    /// An endpoint under an explicit runtime directory.
    pub fn in_runtime_dir(runtime_dir: String, id: String, uid: u32) -> (endpoint: Endpoint)
        ensures
            endpoint@ == (EndpointView {
                id: id@,
                log_path: log_file(runtime_dir@, id@),
                runtime_dir: runtime_dir@,
                socket_path: socket_file(runtime_dir@, id@),
                lock_path: lock_file(runtime_dir@, id@),
                uid,
            }),
    {
        Endpoint {
            log_path: log_path(runtime_dir.as_str(), id.as_str()),
            socket_path: socket_path(runtime_dir.as_str(), id.as_str()),
            lock_path: lock_path(runtime_dir.as_str(), id.as_str()),
            id,
            runtime_dir,
            uid,
        }
    }

    /// The hashed identity that names this endpoint.
    pub fn id(&self) -> (id: &str)
        ensures
            id@ == self@.id,
    {
        self.id.as_str()
    }

    /// The daemon log file.
    pub fn log_path(&self) -> (path: &str)
        ensures
            path@ == self@.log_path,
    {
        self.log_path.as_str()
    }

    /// The working directory for a daemon started for this endpoint: a
    /// directory of the endpoint itself, never a checkout.
    pub fn daemon_dir(&self) -> (dir: Option<&str>)
        ensures
            dir matches Some(d) && d@ == self@.runtime_dir,
    {
        Some(self.runtime_dir.as_str())
    }

    /// The private directory that holds the socket and the lock.
    pub fn runtime_dir(&self) -> (dir: &str)
        ensures
            dir@ == self@.runtime_dir,
    {
        self.runtime_dir.as_str()
    }

    pub fn socket_path(&self) -> (path: &str)
        ensures
            path@ == self@.socket_path,
    {
        self.socket_path.as_str()
    }

    /// The election lock path.
    pub fn lock_path(&self) -> (path: &str)
        ensures
            path@ == self@.lock_path,
    {
        self.lock_path.as_str()
    }

    /// The effective user id that owns this endpoint.
    pub fn uid(&self) -> (uid: u32)
        ensures
            uid == self@.uid,
    {
        self.uid
    }
}

/// Whether the daemon went away before it answered.
pub open spec fn is_lost(error: ErrorView) -> bool {
    match error {
        ErrorView::Closed => true,
        ErrorView::Transport { kind, text: _ } => kind == IoKind::ConnectionReset || kind
            == IoKind::BrokenPipe || kind == IoKind::UnexpectedEof,
        _ => false,
    }
}

pub fn connection_lost(error: &HandshakeError) -> (lost: bool)
    ensures
        lost == is_lost(error@),
{
    match error {
        HandshakeError::Closed => true,
        HandshakeError::Transport(failure) => match failure.kind {
            IoKind::ConnectionReset => true,
            IoKind::BrokenPipe => true,
            IoKind::UnexpectedEof => true,
            _ => false,
        },
        _ => false,
    }
}

/// Why an answer opens no session, where it does not.
pub open spec fn refusal(response: ResponseView) -> Option<Seq<char>> {
    match response {
        ResponseView::Attached { protocol: _, version, session_id: _ } => if version != VERSION@ {
            Some("the daemon is semctl "@ + version + "; this client is semctl "@ + VERSION@)
        } else {
            None
        },
        ResponseView::Rejected { protocol: _, version: _, reason } => Some(
            "the daemon refused the session: "@ + reason,
        ),
    }
}

/// Decides whether the daemon's answer opens a session on this connection. One
/// build's client cannot be served by another build's tools.
pub fn accept_attach(response: &Response) -> (accepted: Result<(), String>)
    ensures
        match accepted {
            Ok(()) => refusal(response@) is None,
            Err(reason) => refusal(response@) == Some(reason@),
        },
{
    match response {
        Response::Attached { protocol: _, version, session_id: _ } => {
            if !same(version.as_str(), VERSION) {
                let mut reason = copy_text("the daemon is semctl ");
                reason.push_str(version.as_str());
                reason.push_str("; this client is semctl ");
                reason.push_str(VERSION);
                Err(reason)
            } else {
                Ok(())
            }
        },
        Response::Rejected { protocol: _, version: _, reason } => {
            let mut message = copy_text("the daemon refused the session: ");
            message.push_str(reason.as_str());
            Err(message)
        },
    }
}

/// How one attach attempt went.
pub enum Attempt {
    /// The daemon answered.
    Answered(Response),
    /// The request could not be sent.
    NotSent(HandshakeError),
    /// No answer could be read.
    NotAnswered(HandshakeError),
    /// The answer could not be understood.
    NotUnderstood(HandshakeError),
    /// There was no connection.
    NotConnected(String),
}

/// What an attach attempt leads to.
pub enum AttachStep {
    /// The session is open: pump bytes.
    Pump,
    /// The daemon went away before it answered: attach once more.
    Retry,
    /// No session was served, for this reason.
    Fail(String),
}

pub enum AttachStepView {
    Pump,
    Retry,
    Fail(Seq<char>),
}

impl View for AttachStep {
    type V = AttachStepView;

    open spec fn view(&self) -> AttachStepView {
        match *self {
            AttachStep::Pump => AttachStepView::Pump,
            AttachStep::Retry => AttachStepView::Retry,
            AttachStep::Fail(reason) => AttachStepView::Fail(reason@),
        }
    }
}

/// What an attempt leads to. Only a connection that closed before any answer
/// is retried, and only once; a refusal is an answer and is final.
pub open spec fn attach_step(attempt: Attempt, retried: bool) -> AttachStepView {
    let lost = |error: HandshakeError, context: Seq<char>|
        if !is_lost(error@) {
            AttachStepView::Fail(context + crate::ipc::handshake::error_text(error@))
        } else if retried {
            AttachStepView::Fail(
                "the daemon closed the connection before it answered the attach request"@,
            )
        } else {
            AttachStepView::Retry
        };
    match attempt {
        Attempt::NotConnected(reason) => AttachStepView::Fail(reason@),
        Attempt::NotSent(error) => lost(error, "send the attach request: "@),
        Attempt::NotAnswered(error) => lost(error, "read the attach answer: "@),
        Attempt::NotUnderstood(error) => AttachStepView::Fail(
            "decode the attach answer: "@ + crate::ipc::handshake::error_text(error@),
        ),
        Attempt::Answered(response) => match refusal(response@) {
            None => AttachStepView::Pump,
            Some(reason) => AttachStepView::Fail(reason),
        },
    }
}

fn lost_step(error: &HandshakeError, context: &str, retried: bool) -> (step: AttachStep)
    ensures
        step@ == if !is_lost(error@) {
            AttachStepView::Fail(context@ + crate::ipc::handshake::error_text(error@))
        } else if retried {
            AttachStepView::Fail(
                "the daemon closed the connection before it answered the attach request"@,
            )
        } else {
            AttachStepView::Retry
        },
{
    if !connection_lost(error) {
        let mut reason = copy_text(context);
        reason.push_str(error.message().as_str());
        AttachStep::Fail(reason)
    } else if retried {
        AttachStep::Fail(
            copy_text("the daemon closed the connection before it answered the attach request"),
        )
    } else {
        AttachStep::Retry
    }
}

/// What follows an attach attempt.
pub fn after_attempt(attempt: &Attempt, retried: bool) -> (step: AttachStep)
    ensures
        step@ == attach_step(*attempt, retried),
{
    match attempt {
        Attempt::NotConnected(reason) => AttachStep::Fail(copy_text(reason.as_str())),
        Attempt::NotSent(error) => lost_step(error, "send the attach request: ", retried),
        Attempt::NotAnswered(error) => lost_step(error, "read the attach answer: ", retried),
        Attempt::NotUnderstood(error) => {
            let mut reason = copy_text("decode the attach answer: ");
            reason.push_str(error.message().as_str());
            AttachStep::Fail(reason)
        },
        Attempt::Answered(response) => match accept_attach(response) {
            Ok(()) => AttachStep::Pump,
            Err(reason) => AttachStep::Fail(reason),
        },
    }
}

/// A client attaches at most twice, and an answer is final whichever attempt it
/// answers.
pub proof fn law_attach_is_retried_once(attempt: Attempt, response: Response)
    ensures
        !(attach_step(attempt, true) is Retry),
        attach_step(Attempt::Answered(response), true) == attach_step(
            Attempt::Answered(response),
            false,
        ),
        !(attach_step(Attempt::Answered(response), false) is Retry),
{
}

/// The name of an endpoint stands for its configuration directory, version and user:
/// it is the first eight bytes of the digest of the three, with a zero between each
/// two, in hexadecimal.
pub proof fn law_what_an_endpoint_is_named_after(
    config_dir: Seq<u8>,
    version: Seq<char>,
    platform_user: Seq<char>,
)
    ensures
        identity_name(config_dir, version, platform_user) == hex(
            blake3_digest(
                config_dir + seq![0u8] + vstd::utf8::encode_utf8(version) + seq![0u8]
                    + vstd::utf8::encode_utf8(platform_user),
            ).subrange(0, 8),
        ),
{
    let bytes = identity_bytes(config_dir, version, platform_user);
    assert(blake3_digest(bytes).take(8) == blake3_digest(bytes).subrange(0, 8));
}

/// A connection is lost where it was closed, reset or cut off; another failure is not
/// taken for that.
pub proof fn law_which_failures_lose_the_connection(kind: IoKind, text: Seq<char>, error: ErrorView)
    ensures
        is_lost(ErrorView::Closed),
        is_lost(ErrorView::Transport { kind, text }) <==> kind == IoKind::ConnectionReset || kind
            == IoKind::BrokenPipe || kind == IoKind::UnexpectedEof,
        !(error is Closed) && !(error is Transport) ==> !is_lost(error),
{
}

/// An attached session is pumped where the daemon has this version, and otherwise
/// refused with both; a rejection is passed on with its reason.
pub proof fn law_which_answers_open_a_session(response: Response, retried: bool)
    ensures
        response@ matches ResponseView::Attached { protocol, version, session_id } ==> {
            &&& version == "0.1.0"@ ==> attach_step(Attempt::Answered(response), retried)
                == AttachStepView::Pump
            &&& version != "0.1.0"@ ==> attach_step(Attempt::Answered(response), retried)
                == AttachStepView::Fail(
                "the daemon is semctl "@ + version + "; this client is semctl "@ + "0.1.0"@,
            )
        },
        response@ matches ResponseView::Rejected { protocol, version, reason } ==> attach_step(
            Attempt::Answered(response),
            retried,
        ) == AttachStepView::Fail("the daemon refused the session: "@ + reason),
{
}

/// What follows an attempt without an answer: a lost connection is tried once more,
/// and anything else ends the attaching with its reason.
pub proof fn law_what_follows_a_failed_attempt(
    error: HandshakeError,
    reason: String,
    retried: bool,
)
    ensures
        attach_step(Attempt::NotConnected(reason), retried) == AttachStepView::Fail(reason@),
        attach_step(Attempt::NotUnderstood(error), retried) == AttachStepView::Fail(
            "decode the attach answer: "@ + crate::ipc::handshake::error_text(error@),
        ),
        is_lost(error@) && !retried ==> attach_step(Attempt::NotSent(error), retried)
            == AttachStepView::Retry && attach_step(Attempt::NotAnswered(error), retried)
            == AttachStepView::Retry,
        is_lost(error@) && retried ==> {
            let told = AttachStepView::Fail(
                "the daemon closed the connection before it answered the attach request"@,
            );
            attach_step(Attempt::NotSent(error), retried) == told && attach_step(
                Attempt::NotAnswered(error),
                retried,
            ) == told
        },
        !is_lost(error@) ==> attach_step(Attempt::NotSent(error), retried) == AttachStepView::Fail(
            "send the attach request: "@ + crate::ipc::handshake::error_text(error@),
        ) && attach_step(Attempt::NotAnswered(error), retried) == AttachStepView::Fail(
            "read the attach answer: "@ + crate::ipc::handshake::error_text(error@),
        ),
{
}

/// An attempt is followed by what the model says of it, and the files of an endpoint are
/// those of its directory and name.
pub proof fn law_an_endpoint_is_where_it_is_said(
    attempt: &Attempt,
    retried: bool,
    step: AttachStep,
    runtime_dir: String,
    id: String,
    uid: u32,
    endpoint: Endpoint,
)
    requires
        call_ensures(after_attempt, (attempt, retried), step),
        call_ensures(Endpoint::in_runtime_dir, (runtime_dir, id, uid), endpoint),
    ensures
        step@ == attach_step(*attempt, retried),
        endpoint@.id == id@ && endpoint@.runtime_dir == runtime_dir@ && endpoint@.uid == uid,
        endpoint@.socket_path == crate::paths::joined(runtime_dir@, id@ + ".sock"@),
        endpoint@.lock_path == crate::paths::joined(runtime_dir@, id@ + ".lock"@),
        endpoint@.log_path == crate::paths::joined(runtime_dir@, id@ + ".log"@),
{
}

} // verus!
