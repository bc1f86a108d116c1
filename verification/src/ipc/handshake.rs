//! Attach and control messages for one local daemon connection.
//!
//! The client and the daemon exchange one line of JSON in each direction
//! before the connection carries other traffic. Each line ends with one
//! newline byte.

use vstd::prelude::*;
use vstd::string::*;

use crate::json::{
    is_repeated, json_items, json_members, json_object, lemma_distinct_names,
    lemma_names_are_listed, member, member_list, member_map, member_names, name_items, named_items,
    object_parts, part_names, part_text, part_views, put, read_items, read_members, reads_back,
    repeats, split_object, text_of_part, write_members, Group, Member, Scalar, ScalarView,
};
use crate::text::{copy_text, decimal, decimal_text, lists, optional, same, texts};

verus! {

/// Wire version of the attach and control messages.
pub const PROTOCOL: u32 = 1;

/// Largest handshake line, including the terminating newline byte.
pub const MAX_LINE_BYTES: usize = 65536;

/// Largest handshake line without its terminating newline byte.
pub const MAX_PAYLOAD_BYTES: usize = 65535;

/// A secret carried in the attach body. It must not reach a log, a trace
/// field, or an error message.
pub struct Token(String);

impl View for Token {
    type V = Seq<char>;

    closed spec fn view(&self) -> Seq<char> {
        self.0@
    }
}

impl Token {
    pub fn new(value: &str) -> (token: Token)
        ensures
            token@ == value@,
    {
        Token(copy_text(value))
    }

    /// The secret value. Call this only where the secret is used.
    pub fn expose(&self) -> (value: &str)
        ensures
            value@ == self@,
    {
        self.0.as_str()
    }

    /// What a log line may show: the same for every token.
    pub fn redacted(&self) -> (shown: String)
        ensures
            shown@ == "Token(redacted)"@,
    {
        copy_text("Token(redacted)")
    }
}

/// The characters of an optional token.
pub open spec fn token_text(token: Option<Token>) -> Option<Seq<char>> {
    match token {
        Some(t) => Some(t@),
        None => None,
    }
}

/// Per-connection invocation context the client sends to the daemon.
pub struct SessionRequest {
    /// Absolute working directory of the client process.
    pub cwd: String,
    pub server: Option<String>,
    pub tenant: Option<String>,
    pub codebase: Option<String>,
    /// Invocation token. Absent means the stored login.
    pub token: Option<Token>,
    pub resync_secs: Option<u64>,
    /// Whether this session wants the update note.
    pub update_check: bool,
}

pub struct SessionView {
    pub cwd: Seq<char>,
    pub server: Option<Seq<char>>,
    pub tenant: Option<Seq<char>>,
    pub codebase: Option<Seq<char>>,
    pub token: Option<Seq<char>>,
    pub resync_secs: Option<u64>,
    pub update_check: bool,
}

impl View for SessionRequest {
    type V = SessionView;

    open spec fn view(&self) -> SessionView {
        SessionView {
            cwd: self.cwd@,
            server: optional(self.server),
            tenant: optional(self.tenant),
            codebase: optional(self.codebase),
            token: token_text(self.token),
            resync_secs: self.resync_secs,
            update_check: self.update_check,
        }
    }
}

/// The first line a client sends on a new connection.
pub enum Request {
    /// Start one session over this connection.
    Attach { protocol: u32, version: String, session: SessionRequest },
    /// Ask for one status line, then close.
    Status { protocol: u32 },
    /// Ask the daemon to drain and exit.
    Stop { protocol: u32 },
}

pub enum RequestView {
    Attach { protocol: u32, version: Seq<char>, session: SessionView },
    Status { protocol: u32 },
    Stop { protocol: u32 },
}

impl View for Request {
    type V = RequestView;

    open spec fn view(&self) -> RequestView {
        match *self {
            Request::Attach { protocol, version, session } => RequestView::Attach {
                protocol,
                version: version@,
                session: session@,
            },
            Request::Status { protocol } => RequestView::Status { protocol },
            Request::Stop { protocol } => RequestView::Stop { protocol },
        }
    }
}

impl Request {
    /// An attach request for this build's version.
    pub fn attach(version: &str, session: SessionRequest) -> (request: Request)
        ensures
            request@ == (RequestView::Attach {
                protocol: PROTOCOL,
                version: version@,
                session: session@,
            }),
    {
        Request::Attach { protocol: PROTOCOL, version: copy_text(version), session }
    }

    pub fn status() -> (request: Request)
        ensures
            request@ == (RequestView::Status { protocol: PROTOCOL }),
    {
        Request::Status { protocol: PROTOCOL }
    }

    pub fn stop() -> (request: Request)
        ensures
            request@ == (RequestView::Stop { protocol: PROTOCOL }),
    {
        Request::Stop { protocol: PROTOCOL }
    }
}

/// The first line a daemon sends in answer to a [`Request`].
pub enum Response {
    /// The session is open. Every later byte is session traffic.
    Attached { protocol: u32, version: String, session_id: String },
    /// The daemon refused the request and closes the connection.
    Rejected { protocol: u32, version: String, reason: String },
}

pub enum ResponseView {
    Attached { protocol: u32, version: Seq<char>, session_id: Seq<char> },
    Rejected { protocol: u32, version: Seq<char>, reason: Seq<char> },
}

impl View for Response {
    type V = ResponseView;

    open spec fn view(&self) -> ResponseView {
        match *self {
            Response::Attached { protocol, version, session_id } => ResponseView::Attached {
                protocol,
                version: version@,
                session_id: session_id@,
            },
            Response::Rejected { protocol, version, reason } => ResponseView::Rejected {
                protocol,
                version: version@,
                reason: reason@,
            },
        }
    }
}

impl Response {
    pub fn attached(version: &str, session_id: &str) -> (response: Response)
        ensures
            response@ == (ResponseView::Attached {
                protocol: PROTOCOL,
                version: version@,
                session_id: session_id@,
            }),
    {
        Response::Attached {
            protocol: PROTOCOL,
            version: copy_text(version),
            session_id: copy_text(session_id),
        }
    }

    pub fn rejected(version: &str, reason: &str) -> (response: Response)
        ensures
            response@ == (ResponseView::Rejected {
                protocol: PROTOCOL,
                version: version@,
                reason: reason@,
            }),
    {
        Response::Rejected {
            protocol: PROTOCOL,
            version: copy_text(version),
            reason: copy_text(reason),
        }
    }
}

/// The transport failures that the logic tells apart.
#[derive(Clone, Copy, Debug, PartialEq, Eq, Structural)]
pub enum IoKind {
    NotFound,
    ConnectionRefused,
    ConnectionReset,
    BrokenPipe,
    UnexpectedEof,
    WouldBlock,
    WriteZero,
    Interrupted,
    Other,
}

/// A transport failure: its kind, and its text for a message.
pub struct IoFailure {
    pub kind: IoKind,
    pub text: String,
}

/// Why one handshake line could not be exchanged or understood.
pub enum HandshakeError {
    /// The transport failed.
    Transport(IoFailure),
    /// The peer closed the connection before it sent a complete line.
    Closed,
    /// The exchange did not finish in time.
    TimedOut,
    /// The line reached its limit without a newline byte.
    LineTooLong,
    /// The line is not the JSON object this protocol defines.
    Malformed(String),
    /// The `kind` field names a message this build does not know.
    UnknownKind(String),
    /// The `protocol` field is not the version this build speaks.
    ProtocolMismatch { expected: u32, received: u32 },
}

pub enum ErrorView {
    Transport { kind: IoKind, text: Seq<char> },
    Closed,
    TimedOut,
    LineTooLong,
    Malformed(Seq<char>),
    UnknownKind(Seq<char>),
    ProtocolMismatch { expected: u32, received: u32 },
}

impl View for HandshakeError {
    type V = ErrorView;

    open spec fn view(&self) -> ErrorView {
        match *self {
            HandshakeError::Transport(failure) => ErrorView::Transport {
                kind: failure.kind,
                text: failure.text@,
            },
            HandshakeError::Closed => ErrorView::Closed,
            HandshakeError::TimedOut => ErrorView::TimedOut,
            HandshakeError::LineTooLong => ErrorView::LineTooLong,
            HandshakeError::Malformed(detail) => ErrorView::Malformed(detail@),
            HandshakeError::UnknownKind(kind) => ErrorView::UnknownKind(kind@),
            HandshakeError::ProtocolMismatch { expected, received } => ErrorView::ProtocolMismatch {
                expected,
                received,
            },
        }
    }
}

/// `text` in quotes, escaped as Rust's debug format writes it.
pub uninterp spec fn debug_text(text: Seq<char>) -> Seq<char>;

/// Formats a string with `{:?}` of the standard library, which quotes and
/// escapes it; the result depends on the string alone.
#[verifier::external_body]
fn debug_quoted(text: &str) -> (quoted: String)
    ensures
        quoted@ == debug_text(text@),
{
    format!("{text:?}")
}

/// What an error says of itself.
pub open spec fn error_text(error: ErrorView) -> Seq<char> {
    match error {
        ErrorView::Transport { kind: _, text } => "handshake transport failed: "@ + text,
        ErrorView::Closed => "peer closed the connection during the handshake"@,
        ErrorView::TimedOut => "handshake did not finish in time"@,
        ErrorView::LineTooLong => "handshake line is longer than "@ + decimal(
            MAX_LINE_BYTES as nat,
        ) + " bytes"@,
        ErrorView::Malformed(detail) => "handshake line is malformed: "@ + detail,
        ErrorView::UnknownKind(kind) => "unknown handshake kind "@ + debug_text(kind),
        ErrorView::ProtocolMismatch { expected, received } => "handshake protocol "@ + decimal(
            received as nat,
        ) + " does not match "@ + decimal(expected as nat),
    }
}

impl HandshakeError {
    pub fn message(&self) -> (message: String)
        ensures
            message@ == error_text(self@),
    {
        match self {
            HandshakeError::Transport(failure) => {
                let mut message = copy_text("handshake transport failed: ");
                message.push_str(failure.text.as_str());
                message
            },
            HandshakeError::Closed => copy_text("peer closed the connection during the handshake"),
            HandshakeError::TimedOut => copy_text("handshake did not finish in time"),
            HandshakeError::LineTooLong => {
                let mut message = copy_text("handshake line is longer than ");
                message.push_str(decimal_text(MAX_LINE_BYTES as u64).as_str());
                message.push_str(" bytes");
                message
            },
            HandshakeError::Malformed(detail) => {
                let mut message = copy_text("handshake line is malformed: ");
                message.push_str(detail.as_str());
                message
            },
            HandshakeError::UnknownKind(kind) => {
                let mut message = copy_text("unknown handshake kind ");
                message.push_str(debug_quoted(kind.as_str()).as_str());
                message
            },
            HandshakeError::ProtocolMismatch { expected, received } => {
                let mut message = copy_text("handshake protocol ");
                message.push_str(decimal_text(*received as u64).as_str());
                message.push_str(" does not match ");
                message.push_str(decimal_text(*expected as u64).as_str());
                message
            },
        }
    }
}

/// The newline byte.
pub const NEWLINE: u8 = 10;

/// What one more byte does to a line.
#[derive(Clone, Copy, Debug, PartialEq, Eq, Structural)]
pub enum LineStep {
    /// The line is not complete.
    More,
    /// The line is complete; the byte was its newline.
    Done,
    /// The line reached its limit without a newline.
    TooLong,
}

/// One more byte of a line that is being read. The reader must not read past
/// the newline: what follows belongs to the session.
pub fn take_byte(line: &mut Vec<u8>, byte: u8) -> (step: LineStep)
    ensures
        step == if byte == NEWLINE {
            LineStep::Done
        } else if old(line)@.len() == MAX_PAYLOAD_BYTES {
            LineStep::TooLong
        } else {
            LineStep::More
        },
        final(line)@ == if step == LineStep::More {
            old(line)@.push(byte)
        } else {
            old(line)@
        },
{
    if byte == NEWLINE {
        return LineStep::Done;
    }
    if line.len() == MAX_PAYLOAD_BYTES {
        return LineStep::TooLong;
    }
    line.push(byte);
    LineStep::More
}

/// The index of the first newline byte, or the length where there is none.
pub open spec fn newline_index(bytes: Seq<u8>) -> nat
    decreases bytes.len(),
{
    if bytes.len() == 0 || bytes[0] == NEWLINE {
        0
    } else {
        1 + newline_index(bytes.drop_first())
    }
}

pub proof fn lemma_newline_index(bytes: Seq<u8>, n: int)
    requires
        0 <= n <= bytes.len(),
        forall|i: int| 0 <= i < n ==> bytes[i] != NEWLINE,
        n < bytes.len() ==> bytes[n] == NEWLINE,
    ensures
        newline_index(bytes) == n,
    decreases n,
{
    if n > 0 {
        let rest = bytes.drop_first();
        assert forall|i: int| 0 <= i < n - 1 implies rest[i] != NEWLINE by {
            assert(rest[i] == bytes[i + 1]);
        }
        lemma_newline_index(rest, n - 1);
    }
}

/// What reading one line from a stream of these bytes gives: the line without
/// its newline, unless the stream ends or the limit is reached before it.
pub open spec fn line_read(input: Seq<u8>) -> Result<Seq<u8>, ErrorView> {
    let end = newline_index(input);
    if end > MAX_PAYLOAD_BYTES {
        Err(ErrorView::LineTooLong)
    } else if end == input.len() {
        Err(ErrorView::Closed)
    } else {
        Ok(input.take(end as int))
    }
}

/// Reads one line of `input`, without the newline byte. The second part of the
/// result is how many bytes were read: the rest belongs to the session.
pub fn read_line_blocking(input: &[u8]) -> (result: Result<(Vec<u8>, usize), HandshakeError>)
    ensures
        match result {
            Ok((line, used)) => line_read(input@) == Ok::<Seq<u8>, ErrorView>(line@) && used
                == line@.len() + 1,
            Err(error) => line_read(input@) == Err::<Seq<u8>, ErrorView>(error@),
        },
{
    let mut line: Vec<u8> = Vec::new();
    let mut i: usize = 0;
    assert(input@.take(0) =~= Seq::<u8>::empty());
    while i < input.len()
        invariant
            i <= input@.len(),
            i <= MAX_PAYLOAD_BYTES,
            line@ == input@.take(i as int),
            forall|j: int| 0 <= j < i ==> input@[j] != NEWLINE,
        decreases input@.len() - i,
    {
        match take_byte(&mut line, input[i]) {
            LineStep::Done => {
                proof {
                    lemma_newline_index(input@, i as int);
                }
                return Ok((line, i + 1));
            },
            LineStep::TooLong => {
                proof {
                    lemma_newline_beyond(input@, i + 1);
                }
                return Err(HandshakeError::LineTooLong);
            },
            LineStep::More => {
                assert(input@.take(i + 1) =~= input@.take(i as int).push(input@[i as int]));
            },
        }
        i = i + 1;
    }
    proof {
        lemma_newline_index(input@, i as int);
    }
    Err(HandshakeError::Closed)
}

proof fn lemma_newline_beyond(bytes: Seq<u8>, n: int)
    requires
        0 <= n <= bytes.len(),
        forall|i: int| 0 <= i < n ==> bytes[i] != NEWLINE,
    ensures
        newline_index(bytes) >= n,
    decreases n,
{
    if n > 0 {
        let rest = bytes.drop_first();
        assert forall|i: int| 0 <= i < n - 1 implies rest[i] != NEWLINE by {
            assert(rest[i] == bytes[i + 1]);
        }
        lemma_newline_beyond(rest, n - 1);
    }
}

/// A payload as a complete line, or nothing where it is too long for one.
pub open spec fn framed(payload: Seq<u8>) -> Result<Seq<u8>, ErrorView> {
    if payload.len() > MAX_PAYLOAD_BYTES {
        Err(ErrorView::LineTooLong)
    } else {
        Ok(payload.push(NEWLINE))
    }
}

/// Makes a complete line of a payload.
pub fn frame(payload: Vec<u8>) -> (line: Result<Vec<u8>, HandshakeError>)
    ensures
        match line {
            Ok(bytes) => framed(payload@) == Ok::<Seq<u8>, ErrorView>(bytes@),
            Err(error) => framed(payload@) == Err::<Seq<u8>, ErrorView>(error@),
        },
{
    if payload.len() > MAX_PAYLOAD_BYTES {
        return Err(HandshakeError::LineTooLong);
    }
    let mut line = payload;
    line.push(NEWLINE);
    Ok(line)
}

/// Reading gives back what was framed, and stops at the newline: whatever
/// follows on the connection is left to the session.
pub proof fn law_a_framed_line_is_read_back(payload: Seq<u8>, rest: Seq<u8>)
    requires
        !payload.contains(NEWLINE),
    ensures
        framed(payload) matches Ok(line) ==> line_read(line + rest) == Ok::<Seq<u8>, ErrorView>(
            payload,
        ),
{
    let input = payload.push(NEWLINE) + rest;
    assert forall|i: int| 0 <= i < payload.len() implies input[i] != NEWLINE by {
        assert(payload.contains(payload[i]));
    }
    lemma_newline_index(input, payload.len() as int);
    assert(input.take(payload.len() as int) =~= payload);
}

/// What a partial write asks for.
#[derive(Clone, Copy, Debug, PartialEq, Eq, Structural)]
pub enum WriteStep {
    /// Write the rest, from this offset on.
    More(usize),
    /// Everything is written: flush.
    Done,
    /// The stream takes no more bytes.
    WriteZero,
}

/// What follows when `written` of the bytes behind `offset` were taken.
pub fn after_write(total: usize, offset: usize, written: usize) -> (step: WriteStep)
    requires
        offset < total,
        written <= total - offset,
    ensures
        step == if written == 0 {
            WriteStep::WriteZero
        } else if offset + written == total {
            WriteStep::Done
        } else {
            WriteStep::More((offset + written) as usize)
        },
{
    if written == 0 {
        WriteStep::WriteZero
    } else if offset + written == total {
        WriteStep::Done
    } else {
        WriteStep::More(offset + written)
    }
}

/// The message kinds a daemon accepts from a client.
pub open spec fn request_kinds() -> Seq<Seq<char>> {
    seq!["attach"@, "status"@, "stop"@]
}

/// The message kinds a client accepts from a daemon.
pub open spec fn response_kinds() -> Seq<Seq<char>> {
    seq!["attached"@, "rejected"@]
}

fn kinds_a_daemon_accepts() -> (kinds: Vec<String>)
    ensures
        texts(kinds@) == request_kinds(),
{
    let mut kinds: Vec<String> = Vec::new();
    kinds.push(copy_text("attach"));
    kinds.push(copy_text("status"));
    kinds.push(copy_text("stop"));
    assert(texts(kinds@) =~= request_kinds());
    kinds
}

fn kinds_a_client_accepts() -> (kinds: Vec<String>)
    ensures
        texts(kinds@) == response_kinds(),
{
    let mut kinds: Vec<String> = Vec::new();
    kinds.push(copy_text("attached"));
    kinds.push(copy_text("rejected"));
    assert(texts(kinds@) =~= response_kinds());
    kinds
}

/// What is said of a member that is missing or of another type.
pub open spec fn bad_field(name: Seq<char>) -> Seq<char> {
    "invalid or missing field `"@ + name + "`"@
}

fn bad_member(name: &str) -> (error: HandshakeError)
    ensures
        error@ == ErrorView::Malformed(bad_field(name@)),
{
    let mut detail = copy_text("invalid or missing field `");
    detail.push_str(name);
    detail.push_str("`");
    HandshakeError::Malformed(detail)
}

/// A member that has to be a text.
pub open spec fn text_field(members: Map<Seq<char>, ScalarView>, name: Seq<char>) -> Result<
    Seq<char>,
    ErrorView,
> {
    if members.dom().contains(name) && members[name] is Text {
        Ok(members[name]->Text_0)
    } else {
        Err(ErrorView::Malformed(bad_field(name)))
    }
}

/// A member that may be absent or null and is a text otherwise.
pub open spec fn optional_text_field(
    members: Map<Seq<char>, ScalarView>,
    name: Seq<char>,
) -> Result<Option<Seq<char>>, ErrorView> {
    if !members.dom().contains(name) || members[name] is Null {
        Ok(None)
    } else if members[name] is Text {
        Ok(Some(members[name]->Text_0))
    } else {
        Err(ErrorView::Malformed(bad_field(name)))
    }
}

/// A member that may be absent or null and is a whole number otherwise.
pub open spec fn optional_number_field(
    members: Map<Seq<char>, ScalarView>,
    name: Seq<char>,
) -> Result<Option<u64>, ErrorView> {
    if !members.dom().contains(name) || members[name] is Null {
        Ok(None)
    } else if members[name] is Number {
        Ok(Some(members[name]->Number_0))
    } else {
        Err(ErrorView::Malformed(bad_field(name)))
    }
}

/// A member that has to be a truth value.
pub open spec fn bool_field(members: Map<Seq<char>, ScalarView>, name: Seq<char>) -> Result<
    bool,
    ErrorView,
> {
    if members.dom().contains(name) && members[name] is Bool {
        Ok(members[name]->Bool_0)
    } else {
        Err(ErrorView::Malformed(bad_field(name)))
    }
}

/// A member that has to be a whole number of 32 bits.
pub open spec fn u32_field(members: Map<Seq<char>, ScalarView>, name: Seq<char>) -> Result<
    u32,
    ErrorView,
> {
    if members.dom().contains(name) && members[name] is Number && members[name]->Number_0
        <= u32::MAX {
        Ok(members[name]->Number_0 as u32)
    } else {
        Err(ErrorView::Malformed(bad_field(name)))
    }
}

fn read_text(members: &Vec<Member>, name: &str) -> (field: Result<String, HandshakeError>)
    ensures
        match field {
            Ok(t) => text_field(member_map(members@), name@) == Ok::<Seq<char>, ErrorView>(t@),
            Err(e) => text_field(member_map(members@), name@) == Err::<Seq<char>, ErrorView>(e@),
        },
{
    match member(members, name) {
        Some(Scalar::Text(text)) => Ok(copy_text(text.as_str())),
        _ => Err(bad_member(name)),
    }
}

fn read_optional_text(members: &Vec<Member>, name: &str) -> (field: Result<
    Option<String>,
    HandshakeError,
>)
    ensures
        match field {
            Ok(t) => optional_text_field(member_map(members@), name@) == Ok::<
                Option<Seq<char>>,
                ErrorView,
            >(optional(t)),
            Err(e) => optional_text_field(member_map(members@), name@) == Err::<
                Option<Seq<char>>,
                ErrorView,
            >(e@),
        },
{
    match member(members, name) {
        None => Ok(None),
        Some(Scalar::Null) => Ok(None),
        Some(Scalar::Text(text)) => Ok(Some(copy_text(text.as_str()))),
        _ => Err(bad_member(name)),
    }
}

fn read_optional_number(members: &Vec<Member>, name: &str) -> (field: Result<
    Option<u64>,
    HandshakeError,
>)
    ensures
        match field {
            Ok(n) => optional_number_field(member_map(members@), name@) == Ok::<
                Option<u64>,
                ErrorView,
            >(n),
            Err(e) => optional_number_field(member_map(members@), name@) == Err::<
                Option<u64>,
                ErrorView,
            >(e@),
        },
{
    match member(members, name) {
        None => Ok(None),
        Some(Scalar::Null) => Ok(None),
        Some(Scalar::Number(n)) => Ok(Some(*n)),
        _ => Err(bad_member(name)),
    }
}

fn read_bool(members: &Vec<Member>, name: &str) -> (field: Result<bool, HandshakeError>)
    ensures
        match field {
            Ok(b) => bool_field(member_map(members@), name@) == Ok::<bool, ErrorView>(b),
            Err(e) => bool_field(member_map(members@), name@) == Err::<bool, ErrorView>(e@),
        },
{
    match member(members, name) {
        Some(Scalar::Bool(b)) => Ok(*b),
        _ => Err(bad_member(name)),
    }
}

fn read_u32(members: &Vec<Member>, name: &str) -> (field: Result<u32, HandshakeError>)
    ensures
        match field {
            Ok(n) => u32_field(member_map(members@), name@) == Ok::<u32, ErrorView>(n),
            Err(e) => u32_field(member_map(members@), name@) == Err::<u32, ErrorView>(e@),
        },
{
    match member(members, name) {
        Some(Scalar::Number(n)) => {
            if *n <= u32::MAX as u64 {
                Ok(*n as u32)
            } else {
                Err(bad_member(name))
            }
        },
        _ => Err(bad_member(name)),
    }
}

/// What is said of a member that is there twice.
pub open spec fn duplicate_field(name: Seq<char>) -> Seq<char> {
    "duplicate field `"@ + name + "`"@
}

/// The first of these names that an object text repeats.
pub open spec fn first_repeated(text: Seq<u8>, names: Seq<Seq<char>>) -> Option<Seq<char>>
    decreases names.len(),
{
    if names.len() == 0 {
        None
    } else if repeats(text, names[0]) {
        Some(names[0])
    } else {
        first_repeated(text, names.drop_first())
    }
}

/// Refuses an object text that repeats one of these names. Other members may be
/// there as often as they like.
fn check_once(text: &[u8], names: &Vec<String>) -> (checked: Result<(), HandshakeError>)
    ensures
        match checked {
            Ok(()) => first_repeated(text@, texts(names@)) is None,
            Err(e) => first_repeated(text@, texts(names@)) matches Some(name) && e@
                == ErrorView::Malformed(duplicate_field(name)),
        },
{
    let parts = split_object(text);
    let ghost all = texts(names@);
    let mut i: usize = 0;
    assert(all.skip(0) =~= all);
    while i < names.len()
        invariant
            i <= names@.len(),
            all == texts(names@),
            part_views(parts@) == object_parts(text@),
            first_repeated(text@, all) == first_repeated(text@, all.skip(i as int)),
        decreases names@.len() - i,
    {
        assert(all.skip(i as int)[0] == names@[i as int]@);
        assert(all.skip(i as int).drop_first() =~= all.skip(i + 1));
        if is_repeated(&parts, names[i].as_str()) {
            let mut detail = copy_text("duplicate field `");
            detail.push_str(names[i].as_str());
            detail.push_str("`");
            return Err(HandshakeError::Malformed(detail));
        }
        i = i + 1;
    }
    assert(all.skip(i as int) =~= seq![]);
    Ok(())
}

/// Where all names of an object text differ, none is refused.
proof fn lemma_nothing_repeated(text: Seq<u8>, names: Seq<Seq<char>>)
    requires
        part_names(object_parts(text)).no_duplicates(),
    ensures
        first_repeated(text, names) is None,
    decreases names.len(),
{
    if names.len() > 0 {
        lemma_distinct_names(object_parts(text), names[0]);
        lemma_nothing_repeated(text, names.drop_first());
    }
}

/// The members that every line carries, in the order in which a list gives them.
pub open spec fn envelope_names() -> Seq<Seq<char>> {
    seq!["kind"@, "protocol"@]
}

/// The members of a session, in the order in which a list gives them.
pub open spec fn session_names() -> Seq<Seq<char>> {
    seq![
        "cwd"@,
        "server"@,
        "tenant"@,
        "codebase"@,
        "token"@,
        "resync_secs"@,
        "update_check"@,
    ]
}

fn names_of_envelope() -> (names: Vec<String>)
    ensures
        texts(names@) == envelope_names(),
{
    let names = two_names("kind", "protocol");
    assert(texts(names@) =~= envelope_names());
    names
}

fn names_of_session() -> (names: Vec<String>)
    ensures
        texts(names@) == session_names(),
{
    let mut names: Vec<String> = Vec::new();
    names.push(copy_text("cwd"));
    names.push(copy_text("server"));
    names.push(copy_text("tenant"));
    names.push(copy_text("codebase"));
    names.push(copy_text("token"));
    names.push(copy_text("resync_secs"));
    names.push(copy_text("update_check"));
    assert(texts(names@) =~= session_names());
    names
}

fn two_names(first: &str, second: &str) -> (names: Vec<String>)
    ensures
        texts(names@) == seq![first@, second@],
{
    let mut names: Vec<String> = Vec::new();
    names.push(copy_text(first));
    names.push(copy_text(second));
    assert(texts(names@) =~= seq![first@, second@]);
    names
}

/// What is said of a line that is JSON but neither an object nor a kind and a
/// protocol in a list.
pub open spec fn not_an_object() -> Seq<char> {
    "expected a JSON object"@
}

/// The members of a line. A list of two items stands for an object with a kind and
/// a protocol. An object that repeats one of these is refused.
pub open spec fn line_object(line: Seq<u8>) -> Result<Map<Seq<char>, ScalarView>, ErrorView> {
    match json_members(line, seq![]) {
        Ok(Some(members)) => match first_repeated(line, envelope_names()) {
            Some(name) => Err(ErrorView::Malformed(duplicate_field(name))),
            None => Ok(members),
        },
        Ok(None) => match json_items(line, seq![]) {
            Some(items) if items.len() == envelope_names().len() => Ok(
                named_items(envelope_names(), items),
            ),
            _ => Err(ErrorView::Malformed(not_an_object())),
        },
        Err(detail) => Err(ErrorView::Malformed(detail)),
    }
}

/// Two texts of a line, neither of which it may repeat.
pub open spec fn line_texts(
    line: Seq<u8>,
    members: Map<Seq<char>, ScalarView>,
    first: Seq<char>,
    second: Seq<char>,
) -> Result<(Seq<char>, Seq<char>), ErrorView> {
    match first_repeated(line, seq![first, second]) {
        Some(name) => Err(ErrorView::Malformed(duplicate_field(name))),
        None => match text_field(members, first) {
            Err(error) => Err(error),
            Ok(one) => match text_field(members, second) {
                Err(error) => Err(error),
                Ok(two) => Ok((one, two)),
            },
        },
    }
}

/// The kind and the protocol that every line carries, read before the body is
/// trusted: an unknown kind comes before a protocol of another version.
pub open spec fn envelope(
    object: Result<Map<Seq<char>, ScalarView>, ErrorView>,
    known: Seq<Seq<char>>,
) -> Result<(Seq<char>, u32), ErrorView> {
    match object {
        Err(error) => Err(error),
        Ok(members) => match text_field(members, "kind"@) {
            Err(error) => Err(error),
            Ok(kind) => match u32_field(members, "protocol"@) {
                Err(error) => Err(error),
                Ok(protocol) => if !known.contains(kind) {
                    Err(ErrorView::UnknownKind(kind))
                } else if protocol != PROTOCOL {
                    Err(ErrorView::ProtocolMismatch { expected: PROTOCOL, received: protocol })
                } else {
                    Ok((kind, protocol))
                },
            },
        },
    }
}

/// The session that a member map describes.
pub open spec fn session_fields(members: Map<Seq<char>, ScalarView>) -> Result<
    SessionView,
    ErrorView,
> {
    match text_field(members, "cwd"@) {
        Err(e) => Err(e),
        Ok(cwd) => match optional_text_field(members, "server"@) {
            Err(e) => Err(e),
            Ok(server) => match optional_text_field(members, "tenant"@) {
                Err(e) => Err(e),
                Ok(tenant) => match optional_text_field(members, "codebase"@) {
                    Err(e) => Err(e),
                    Ok(codebase) => match optional_text_field(members, "token"@) {
                        Err(e) => Err(e),
                        Ok(token) => match optional_number_field(members, "resync_secs"@) {
                            Err(e) => Err(e),
                            Ok(resync_secs) => match bool_field(members, "update_check"@) {
                                Err(e) => Err(e),
                                Ok(update_check) => Ok(
                                    SessionView {
                                        cwd,
                                        server,
                                        tenant,
                                        codebase,
                                        token,
                                        resync_secs,
                                        update_check,
                                    },
                                ),
                            },
                        },
                    },
                },
            },
        },
    }
}

/// The session body of an attach line. It is an object that repeats no member of a
/// session, or a list with all of them.
pub open spec fn session_body(line: Seq<u8>) -> Result<SessionView, ErrorView> {
    match json_members(line, "/session"@) {
        Ok(Some(members)) => match first_repeated(
            part_text(object_parts(line), "session"@),
            session_names(),
        ) {
            Some(name) => Err(ErrorView::Malformed(duplicate_field(name))),
            None => session_fields(members),
        },
        _ => match json_items(line, "/session"@) {
            Some(items) if items.len() == session_names().len() => session_fields(
                named_items(session_names(), items),
            ),
            _ => Err(ErrorView::Malformed(bad_field("session"@))),
        },
    }
}

/// The request that a line holds.
pub open spec fn decoded_request(line: Seq<u8>, known: Seq<Seq<char>>) -> Result<
    RequestView,
    ErrorView,
> {
    let object = line_object(line);
    match envelope(object, known) {
        Err(error) => Err(error),
        Ok((kind, protocol)) => if kind == "attach"@ {
            match first_repeated(line, seq!["version"@, "session"@]) {
                Some(name) => Err(ErrorView::Malformed(duplicate_field(name))),
                None => match text_field(object->Ok_0, "version"@) {
                    Err(error) => Err(error),
                    Ok(version) => match session_body(line) {
                        Err(error) => Err(error),
                        Ok(session) => Ok(RequestView::Attach { protocol, version, session }),
                    },
                },
            }
        } else if kind == "status"@ {
            Ok(RequestView::Status { protocol })
        } else if kind == "stop"@ {
            Ok(RequestView::Stop { protocol })
        } else {
            Err(ErrorView::UnknownKind(kind))
        },
    }
}

/// The response that a line holds.
pub open spec fn decoded_response(line: Seq<u8>) -> Result<ResponseView, ErrorView> {
    let object = line_object(line);
    match envelope(object, response_kinds()) {
        Err(error) => Err(error),
        Ok((kind, protocol)) => if kind == "attached"@ {
            match line_texts(line, object->Ok_0, "version"@, "session_id"@) {
                Err(error) => Err(error),
                Ok((version, session_id)) => Ok(
                    ResponseView::Attached { protocol, version, session_id },
                ),
            }
        } else {
            match line_texts(line, object->Ok_0, "version"@, "reason"@) {
                Err(error) => Err(error),
                Ok((version, reason)) => Ok(ResponseView::Rejected { protocol, version, reason }),
            }
        },
    }
}

/// The members of a line's object.
fn read_object(line: &[u8]) -> (object: Result<Vec<Member>, HandshakeError>)
    ensures
        match object {
            Ok(members) => line_object(line@) == Ok::<Map<Seq<char>, ScalarView>, ErrorView>(
                member_map(members@),
            ),
            Err(e) => line_object(line@) == Err::<Map<Seq<char>, ScalarView>, ErrorView>(e@),
        },
{
    proof {
        reveal_strlit("");
        assert(""@ =~= Seq::<char>::empty());
    }
    match read_members(line, "") {
        Ok(Some(members)) => match check_once(line, &names_of_envelope()) {
            Ok(()) => Ok(members),
            Err(error) => Err(error),
        },
        Ok(None) => match read_items(line, "") {
            Some(items) => {
                let names = names_of_envelope();
                assert(names@.len() == texts(names@).len());
                if items.len() == names.len() {
                    Ok(name_items(&names, items))
                } else {
                    Err(HandshakeError::Malformed(copy_text("expected a JSON object")))
                }
            },
            None => Err(HandshakeError::Malformed(copy_text("expected a JSON object"))),
        },
        Err(detail) => Err(HandshakeError::Malformed(detail)),
    }
}

/// Reads two texts of a line, neither of which it may repeat.
fn read_texts(line: &[u8], members: &Vec<Member>, first: &str, second: &str) -> (read: Result<
    (String, String),
    HandshakeError,
>)
    ensures
        match read {
            Ok((one, two)) => line_texts(line@, member_map(members@), first@, second@) == Ok::<
                (Seq<char>, Seq<char>),
                ErrorView,
            >((one@, two@)),
            Err(e) => line_texts(line@, member_map(members@), first@, second@) == Err::<
                (Seq<char>, Seq<char>),
                ErrorView,
            >(e@),
        },
{
    match check_once(line, &two_names(first, second)) {
        Ok(()) => {},
        Err(error) => return Err(error),
    }
    let one = match read_text(members, first) {
        Ok(value) => value,
        Err(error) => return Err(error),
    };
    match read_text(members, second) {
        Ok(two) => Ok((one, two)),
        Err(error) => Err(error),
    }
}

/// Validates the kind and the protocol of an object.
pub fn check_envelope(members: &Vec<Member>, known: &Vec<String>) -> (result: Result<
    (String, u32),
    HandshakeError,
>)
    ensures
        match result {
            Ok((kind, protocol)) => envelope(Ok(member_map(members@)), texts(known@)) == Ok::<
                (Seq<char>, u32),
                ErrorView,
            >((kind@, protocol)),
            Err(e) => envelope(Ok(member_map(members@)), texts(known@)) == Err::<
                (Seq<char>, u32),
                ErrorView,
            >(e@),
        },
{
    let kind = match read_text(members, "kind") {
        Ok(kind) => kind,
        Err(error) => return Err(error),
    };
    let protocol: u32 = match read_u32(members, "protocol") {
        Ok(protocol) => protocol,
        Err(error) => return Err(error),
    };
    if !lists(known, kind.as_str()) {
        return Err(HandshakeError::UnknownKind(kind));
    }
    if protocol != PROTOCOL {
        return Err(HandshakeError::ProtocolMismatch { expected: PROTOCOL, received: protocol });
    }
    Ok((kind, protocol))
}

/// The session that an object describes.
pub fn session_of(members: &Vec<Member>) -> (session: Result<SessionRequest, HandshakeError>)
    ensures
        match session {
            Ok(s) => session_fields(member_map(members@)) == Ok::<SessionView, ErrorView>(s@),
            Err(e) => session_fields(member_map(members@)) == Err::<SessionView, ErrorView>(e@),
        },
{
    let cwd = match read_text(members, "cwd") {
        Ok(value) => value,
        Err(error) => return Err(error),
    };
    let server = match read_optional_text(members, "server") {
        Ok(value) => value,
        Err(error) => return Err(error),
    };
    let tenant = match read_optional_text(members, "tenant") {
        Ok(value) => value,
        Err(error) => return Err(error),
    };
    let codebase = match read_optional_text(members, "codebase") {
        Ok(value) => value,
        Err(error) => return Err(error),
    };
    let token = match read_optional_text(members, "token") {
        Ok(Some(value)) => Some(Token::new(value.as_str())),
        Ok(None) => None,
        Err(error) => return Err(error),
    };
    let resync_secs: Option<u64> = match read_optional_number(members, "resync_secs") {
        Ok(value) => value,
        Err(error) => return Err(error),
    };
    let update_check = match read_bool(members, "update_check") {
        Ok(value) => value,
        Err(error) => return Err(error),
    };
    Ok(SessionRequest { cwd, server, tenant, codebase, token, resync_secs, update_check })
}

fn read_session(line: &[u8]) -> (session: Result<SessionRequest, HandshakeError>)
    ensures
        match session {
            Ok(s) => session_body(line@) == Ok::<SessionView, ErrorView>(s@),
            Err(e) => session_body(line@) == Err::<SessionView, ErrorView>(e@),
        },
{
    match read_members(line, "/session") {
        Ok(Some(members)) => {
            let text = text_of_part(&split_object(line), "session");
            match check_once(text.as_slice(), &names_of_session()) {
                Ok(()) => session_of(&members),
                Err(error) => Err(error),
            }
        },
        _ => match read_items(line, "/session") {
            Some(items) => {
                let names = names_of_session();
                assert(names@.len() == texts(names@).len());
                if items.len() == names.len() {
                    session_of(&name_items(&names, items))
                } else {
                    Err(bad_member("session"))
                }
            },
            None => Err(bad_member("session")),
        },
    }
}

/// Decodes one line into a request of one of the known kinds.
pub fn decode(line: &[u8], known: &Vec<String>) -> (request: Result<Request, HandshakeError>)
    ensures
        match request {
            Ok(r) => decoded_request(line@, texts(known@)) == Ok::<RequestView, ErrorView>(r@),
            Err(e) => decoded_request(line@, texts(known@)) == Err::<RequestView, ErrorView>(e@),
        },
{
    let members = match read_object(line) {
        Ok(members) => members,
        Err(error) => return Err(error),
    };
    let (kind, protocol) = match check_envelope(&members, known) {
        Ok(checked) => checked,
        Err(error) => return Err(error),
    };
    if same(kind.as_str(), "attach") {
        match check_once(line, &two_names("version", "session")) {
            Ok(()) => {},
            Err(error) => return Err(error),
        }
        let version = match read_text(&members, "version") {
            Ok(version) => version,
            Err(error) => return Err(error),
        };
        let session = match read_session(line) {
            Ok(session) => session,
            Err(error) => return Err(error),
        };
        Ok(Request::Attach { protocol, version, session })
    } else if same(kind.as_str(), "status") {
        Ok(Request::Status { protocol })
    } else if same(kind.as_str(), "stop") {
        Ok(Request::Stop { protocol })
    } else {
        Err(HandshakeError::UnknownKind(kind))
    }
}

/// Decodes one client-to-daemon line.
pub fn decode_request(line: &[u8]) -> (request: Result<Request, HandshakeError>)
    ensures
        match request {
            Ok(r) => decoded_request(line@, request_kinds()) == Ok::<RequestView, ErrorView>(r@),
            Err(e) => decoded_request(line@, request_kinds()) == Err::<RequestView, ErrorView>(e@),
        },
{
    decode(line, &kinds_a_daemon_accepts())
}

/// Decodes one daemon-to-client line.
pub fn decode_response(line: &[u8]) -> (response: Result<Response, HandshakeError>)
    ensures
        match response {
            Ok(r) => decoded_response(line@) == Ok::<ResponseView, ErrorView>(r@),
            Err(e) => decoded_response(line@) == Err::<ResponseView, ErrorView>(e@),
        },
{
    let members = match read_object(line) {
        Ok(members) => members,
        Err(error) => return Err(error),
    };
    let (kind, protocol) = match check_envelope(&members, &kinds_a_client_accepts()) {
        Ok(checked) => checked,
        Err(error) => return Err(error),
    };
    if same(kind.as_str(), "attached") {
        match read_texts(line, &members, "version", "session_id") {
            Ok((version, session_id)) => Ok(Response::Attached { protocol, version, session_id }),
            Err(error) => Err(error),
        }
    } else {
        match read_texts(line, &members, "version", "reason") {
            Ok((version, reason)) => Ok(Response::Rejected { protocol, version, reason }),
            Err(error) => Err(error),
        }
    }
}

/// An optional text as a member's value.
pub open spec fn text_value(text: Option<Seq<char>>) -> ScalarView {
    match text {
        Some(t) => ScalarView::Text(t),
        None => ScalarView::Null,
    }
}

/// The members of a session, in the order they are written.
pub open spec fn session_members(session: SessionView) -> Seq<(Seq<char>, ScalarView)> {
    seq![
        ("cwd"@, ScalarView::Text(session.cwd)),
        ("server"@, text_value(session.server)),
        ("tenant"@, text_value(session.tenant)),
        ("codebase"@, text_value(session.codebase)),
        ("token"@, text_value(session.token)),
        (
            "resync_secs"@,
            match session.resync_secs {
                Some(n) => ScalarView::Number(n),
                None => ScalarView::Null,
            },
        ),
        ("update_check"@, ScalarView::Bool(session.update_check)),
    ]
}

/// The JSON text of a request.
pub open spec fn request_text(request: RequestView) -> Seq<u8> {
    match request {
        RequestView::Attach { protocol, version, session } => json_object(
            seq![
                ("kind"@, ScalarView::Text("attach"@)),
                ("protocol"@, ScalarView::Number(protocol as u64)),
                ("version"@, ScalarView::Text(version)),
            ],
            Some(("session"@, session_members(session))),
        ),
        RequestView::Status { protocol } => json_object(
            seq![
                ("kind"@, ScalarView::Text("status"@)),
                ("protocol"@, ScalarView::Number(protocol as u64)),
            ],
            None,
        ),
        RequestView::Stop { protocol } => json_object(
            seq![
                ("kind"@, ScalarView::Text("stop"@)),
                ("protocol"@, ScalarView::Number(protocol as u64)),
            ],
            None,
        ),
    }
}

/// The JSON text of a response.
pub open spec fn response_text(response: ResponseView) -> Seq<u8> {
    match response {
        ResponseView::Attached { protocol, version, session_id } => json_object(
            seq![
                ("kind"@, ScalarView::Text("attached"@)),
                ("protocol"@, ScalarView::Number(protocol as u64)),
                ("version"@, ScalarView::Text(version)),
                ("session_id"@, ScalarView::Text(session_id)),
            ],
            None,
        ),
        ResponseView::Rejected { protocol, version, reason } => json_object(
            seq![
                ("kind"@, ScalarView::Text("rejected"@)),
                ("protocol"@, ScalarView::Number(protocol as u64)),
                ("version"@, ScalarView::Text(version)),
                ("reason"@, ScalarView::Text(reason)),
            ],
            None,
        ),
    }
}

/// The wire version that a request carries.
pub open spec fn request_protocol(request: RequestView) -> u32 {
    match request {
        RequestView::Attach { protocol, version: _, session: _ } => protocol,
        RequestView::Status { protocol } => protocol,
        RequestView::Stop { protocol } => protocol,
    }
}

/// The wire version that a response carries.
pub open spec fn response_protocol(response: ResponseView) -> u32 {
    match response {
        ResponseView::Attached { protocol, version: _, session_id: _ } => protocol,
        ResponseView::Rejected { protocol, version: _, reason: _ } => protocol,
    }
}

/// The kind that a request carries.
pub open spec fn request_kind(request: RequestView) -> Seq<char> {
    match request {
        RequestView::Attach { protocol: _, version: _, session: _ } => "attach"@,
        RequestView::Status { protocol: _ } => "status"@,
        RequestView::Stop { protocol: _ } => "stop"@,
    }
}

/// The kind that a response carries.
pub open spec fn response_kind(response: ResponseView) -> Seq<char> {
    match response {
        ResponseView::Attached { protocol: _, version: _, session_id: _ } => "attached"@,
        ResponseView::Rejected { protocol: _, version: _, reason: _ } => "rejected"@,
    }
}

/// Whether a line is this request for a daemon, and of no known kind for a client.
pub open spec fn is_line_of_request(line: Seq<u8>, request: RequestView) -> bool {
    &&& request_protocol(request) == PROTOCOL ==> decoded_request(line, request_kinds()) == Ok::<
        RequestView,
        ErrorView,
    >(request)
    &&& decoded_response(line) == Err::<ResponseView, ErrorView>(
        ErrorView::UnknownKind(request_kind(request)),
    )
}

/// Whether a line is this response for a client, and of no known kind for a daemon.
pub open spec fn is_line_of_response(line: Seq<u8>, response: ResponseView) -> bool {
    &&& response_protocol(response) == PROTOCOL ==> decoded_response(line) == Ok::<
        ResponseView,
        ErrorView,
    >(response)
    &&& decoded_request(line, request_kinds()) == Err::<RequestView, ErrorView>(
        ErrorView::UnknownKind(response_kind(response)),
    )
}

fn optional_scalar(text: &Option<String>) -> (value: Scalar)
    ensures
        value@ == text_value(optional(*text)),
{
    match text {
        Some(t) => Scalar::Text(copy_text(t.as_str())),
        None => Scalar::Null,
    }
}

/// The names of a session's members are eight different texts.
proof fn lemma_session_names()
    ensures
        "cwd"@ != "server"@,
        "cwd"@ != "tenant"@,
        "cwd"@ != "codebase"@,
        "cwd"@ != "token"@,
        "cwd"@ != "resync_secs"@,
        "cwd"@ != "update_check"@,
        "server"@ != "tenant"@,
        "server"@ != "codebase"@,
        "server"@ != "token"@,
        "server"@ != "resync_secs"@,
        "server"@ != "update_check"@,
        "tenant"@ != "codebase"@,
        "tenant"@ != "token"@,
        "tenant"@ != "resync_secs"@,
        "tenant"@ != "update_check"@,
        "codebase"@ != "token"@,
        "codebase"@ != "resync_secs"@,
        "codebase"@ != "update_check"@,
        "token"@ != "resync_secs"@,
        "token"@ != "update_check"@,
        "resync_secs"@ != "update_check"@,
{
    reveal_strlit("cwd");
    reveal_strlit("server");
    reveal_strlit("tenant");
    reveal_strlit("codebase");
    reveal_strlit("token");
    reveal_strlit("resync_secs");
    reveal_strlit("update_check");
    assert("server"@[0] == 's');
    assert("tenant"@[0] == 't');
    assert("cwd"@.len() == 3);
    assert("server"@.len() == 6);
    assert("tenant"@.len() == 6);
    assert("codebase"@.len() == 8);
    assert("token"@.len() == 5);
    assert("resync_secs"@.len() == 11);
    assert("update_check"@.len() == 12);
}

/// The members that every line carries have different names, and so have the
/// kinds.
proof fn lemma_envelope_names()
    ensures
        "kind"@ != "protocol"@,
        "kind"@ != "version"@,
        "kind"@ != "session"@,
        "kind"@ != "session_id"@,
        "kind"@ != "reason"@,
        "protocol"@ != "version"@,
        "protocol"@ != "session"@,
        "protocol"@ != "session_id"@,
        "protocol"@ != "reason"@,
        "version"@ != "session"@,
        "version"@ != "session_id"@,
        "version"@ != "reason"@,
        "attach"@ != "status"@,
        "attach"@ != "stop"@,
        "status"@ != "stop"@,
        "attached"@ != "rejected"@,
        forall|i: int| 0 <= i < 3 ==> !response_kinds().contains(#[trigger] request_kinds()[i]),
        forall|i: int| 0 <= i < 2 ==> !request_kinds().contains(#[trigger] response_kinds()[i]),
{
    reveal_strlit("kind");
    reveal_strlit("protocol");
    reveal_strlit("version");
    reveal_strlit("session");
    reveal_strlit("session_id");
    reveal_strlit("reason");
    reveal_strlit("attach");
    reveal_strlit("status");
    reveal_strlit("stop");
    reveal_strlit("attached");
    reveal_strlit("rejected");
    assert("kind"@.len() == 4);
    assert("protocol"@.len() == 8);
    assert("version"@.len() == 7);
    assert("session"@.len() == 7);
    assert("session_id"@.len() == 10);
    assert("reason"@.len() == 6);
    assert("attach"@.len() == 6);
    assert("status"@.len() == 6);
    assert("stop"@.len() == 4);
    assert("version"@[0] == 'v');
    assert("session"@[0] == 's');
    assert("attach"@[0] == 'a');
    assert("status"@[0] == 's');
    assert("attached"@[0] == 'a');
    assert("rejected"@[0] == 'r');
    assert("attached"@.len() == 8);
    assert("rejected"@.len() == 8);
}

fn members_of_session(session: &SessionRequest) -> (members: Vec<Member>)
    ensures
        crate::json::is_plain(members@),
        member_list(members@) == session_members(session@),
        member_names(members@).no_duplicates(),
        session_fields(member_map(members@)) == Ok::<SessionView, ErrorView>(session@),
{
    let mut members: Vec<Member> = Vec::new();
    put(&mut members, "cwd", Scalar::Text(copy_text(session.cwd.as_str())));
    put(&mut members, "server", optional_scalar(&session.server));
    put(&mut members, "tenant", optional_scalar(&session.tenant));
    put(&mut members, "codebase", optional_scalar(&session.codebase));
    let token = match &session.token {
        Some(token) => Scalar::Text(copy_text(token.expose())),
        None => Scalar::Null,
    };
    put(&mut members, "token", token);
    let resync = match session.resync_secs {
        Some(n) => Scalar::Number(n),
        None => Scalar::Null,
    };
    put(&mut members, "resync_secs", resync);
    put(&mut members, "update_check", Scalar::Bool(session.update_check));
    proof {
        lemma_session_names();
        assert(member_list(members@) =~= session_members(session@));
        lemma_names_are_listed(members@);
        assert(member_names(members@) =~= session_names());
    }
    members
}

/// The kind and the protocol of a message, as the first members of its object.
fn envelope_members(kind: &str, protocol: u32) -> (members: Vec<Member>)
    ensures
        crate::json::is_plain(members@),
        member_list(members@) == seq![
            ("kind"@, ScalarView::Text(kind@)),
            ("protocol"@, ScalarView::Number(protocol as u64)),
        ],
        member_map(members@) == Map::<Seq<char>, ScalarView>::empty().insert(
            "kind"@,
            ScalarView::Text(kind@),
        ).insert("protocol"@, ScalarView::Number(protocol as u64)),
{
    let mut members: Vec<Member> = Vec::new();
    put(&mut members, "kind", Scalar::Text(copy_text(kind)));
    put(&mut members, "protocol", Scalar::Number(protocol as u64));
    assert(member_list(members@) =~= seq![
        ("kind"@, ScalarView::Text(kind@)),
        ("protocol"@, ScalarView::Number(protocol as u64)),
    ]);
    members
}

/// In a text that gives an object's members back no member is refused as repeated,
/// nor is one of its group.
proof fn lemma_read_once(text: Seq<u8>, members: Seq<Member>, group: Option<&Group>)
    requires
        reads_back(text, members, group),
        crate::json::document_names(members, group).no_duplicates(),
        group matches Some(g) ==> member_names(g.members@).no_duplicates(),
    ensures
        forall|names: Seq<Seq<char>>| (#[trigger] first_repeated(text, names)) is None,
        group matches Some(g) ==> forall|names: Seq<Seq<char>>|
            (#[trigger] first_repeated(part_text(object_parts(text), g.name@), names)) is None,
{
    assert forall|names: Seq<Seq<char>>| (#[trigger] first_repeated(text, names)) is None by {
        lemma_nothing_repeated(text, names);
    }
    if group is Some {
        let g = group->0;
        let parts = object_parts(text);
        assert(part_names(parts).last() == g.name@);
        assert(part_text(parts, g.name@) == parts.last().1);
        assert forall|names: Seq<Seq<char>>|
            (#[trigger] first_repeated(part_text(parts, g.name@), names)) is None by {
            lemma_nothing_repeated(parts.last().1, names);
        }
    }
}

/// The JSON text of a request, which decodes to that request again, with or
/// without a newline behind it.
fn write_request(request: &Request) -> (text: Vec<u8>)
    ensures
        text@ == request_text(request@),
        !text@.contains(NEWLINE),
        is_line_of_request(text@, request@),
        is_line_of_request(text@.push(NEWLINE), request@),
{
    proof {
        lemma_envelope_names();
        assert(request_kinds()[0] == "attach"@);
        assert(request_kinds()[1] == "status"@);
        assert(request_kinds()[2] == "stop"@);
    }
    match request {
        Request::Attach { protocol, version, session } => {
            let mut members = envelope_members("attach", *protocol);
            put(&mut members, "version", Scalar::Text(copy_text(version.as_str())));
            assert(member_list(members@) =~= seq![
                ("kind"@, ScalarView::Text("attach"@)),
                ("protocol"@, ScalarView::Number(*protocol as u64)),
                ("version"@, ScalarView::Text(version@)),
            ]);
            let group = Group { name: copy_text("session"), members: members_of_session(session) };
            proof {
                reveal_strlit("session");
                reveal_strlit("/session");
                assert(seq!['/'] + "session"@ =~= "/session"@);
                lemma_names_are_listed(members@);
                assert(member_names(members@) =~= seq!["kind"@, "protocol"@, "version"@]);
            }
            let text = write_members(&members, Some(&group));
            proof {
                lemma_read_once(text@, members@, Some(&group));
                lemma_read_once(text@.push(NEWLINE), members@, Some(&group));
            }
            text
        },
        Request::Status { protocol } => {
            let members = envelope_members("status", *protocol);
            proof {
                lemma_names_are_listed(members@);
                assert(member_names(members@) =~= envelope_names());
            }
            let text = write_members(&members, None);
            proof {
                lemma_read_once(text@, members@, None);
                lemma_read_once(text@.push(NEWLINE), members@, None);
            }
            text
        },
        Request::Stop { protocol } => {
            let members = envelope_members("stop", *protocol);
            proof {
                lemma_names_are_listed(members@);
                assert(member_names(members@) =~= envelope_names());
            }
            let text = write_members(&members, None);
            proof {
                lemma_read_once(text@, members@, None);
                lemma_read_once(text@.push(NEWLINE), members@, None);
            }
            text
        },
    }
}

/// The JSON text of a response, which decodes to that response again, with or
/// without a newline behind it.
fn write_response(response: &Response) -> (text: Vec<u8>)
    ensures
        text@ == response_text(response@),
        !text@.contains(NEWLINE),
        is_line_of_response(text@, response@),
        is_line_of_response(text@.push(NEWLINE), response@),
{
    proof {
        lemma_envelope_names();
        assert(response_kinds()[0] == "attached"@);
        assert(response_kinds()[1] == "rejected"@);
    }
    match response {
        Response::Attached { protocol, version, session_id } => {
            let mut members = envelope_members("attached", *protocol);
            put(&mut members, "version", Scalar::Text(copy_text(version.as_str())));
            put(&mut members, "session_id", Scalar::Text(copy_text(session_id.as_str())));
            assert(member_list(members@) =~= seq![
                ("kind"@, ScalarView::Text("attached"@)),
                ("protocol"@, ScalarView::Number(*protocol as u64)),
                ("version"@, ScalarView::Text(version@)),
                ("session_id"@, ScalarView::Text(session_id@)),
            ]);
            proof {
                lemma_names_are_listed(members@);
                assert(member_names(members@) =~= seq!["kind"@, "protocol"@, "version"@, "session_id"@]);
            }
            let text = write_members(&members, None);
            proof {
                lemma_read_once(text@, members@, None);
                lemma_read_once(text@.push(NEWLINE), members@, None);
            }
            text
        },
        Response::Rejected { protocol, version, reason } => {
            let mut members = envelope_members("rejected", *protocol);
            put(&mut members, "version", Scalar::Text(copy_text(version.as_str())));
            put(&mut members, "reason", Scalar::Text(copy_text(reason.as_str())));
            assert(member_list(members@) =~= seq![
                ("kind"@, ScalarView::Text("rejected"@)),
                ("protocol"@, ScalarView::Number(*protocol as u64)),
                ("version"@, ScalarView::Text(version@)),
                ("reason"@, ScalarView::Text(reason@)),
            ]);
            proof {
                lemma_names_are_listed(members@);
                assert(member_names(members@) =~= seq!["kind"@, "protocol"@, "version"@, "reason"@]);
            }
            let text = write_members(&members, None);
            proof {
                lemma_read_once(text@, members@, None);
                lemma_read_once(text@.push(NEWLINE), members@, None);
            }
            text
        },
    }
}

/// Encodes a request as a complete line, including the newline byte. A daemon
/// that decodes the line gets the request back, and so does one that reads the
/// line first, whatever follows on the connection. A client refuses it as a kind
/// that it does not know.
pub fn encode_request(request: &Request) -> (line: Result<Vec<u8>, HandshakeError>)
    ensures
        match line {
            Ok(bytes) => framed(request_text(request@)) == Ok::<Seq<u8>, ErrorView>(bytes@),
            Err(e) => framed(request_text(request@)) == Err::<Seq<u8>, ErrorView>(e@),
        },
        line matches Ok(bytes) ==> is_line_of_request(bytes@, request@),
        line is Ok ==> forall|rest: Seq<u8>|
            (#[trigger] line_read(line->Ok_0@ + rest)) matches Ok(payload) && is_line_of_request(
                payload,
                request@,
            ),
{
    let text = write_request(request);
    proof {
        assert forall|rest: Seq<u8>| framed(text@) is Ok implies (#[trigger] line_read(
            text@.push(NEWLINE) + rest,
        )) == Ok::<Seq<u8>, ErrorView>(text@) by {
            law_a_framed_line_is_read_back(text@, rest);
        }
    }
    frame(text)
}

/// Encodes a response as a complete line, including the newline byte. A client
/// that decodes the line gets the response back, and so does one that reads the
/// line first, whatever follows on the connection. A daemon refuses it as a kind
/// that it does not know.
pub fn encode_response(response: &Response) -> (line: Result<Vec<u8>, HandshakeError>)
    ensures
        match line {
            Ok(bytes) => framed(response_text(response@)) == Ok::<Seq<u8>, ErrorView>(bytes@),
            Err(e) => framed(response_text(response@)) == Err::<Seq<u8>, ErrorView>(e@),
        },
        line matches Ok(bytes) ==> is_line_of_response(bytes@, response@),
        line is Ok ==> forall|rest: Seq<u8>|
            (#[trigger] line_read(line->Ok_0@ + rest)) matches Ok(payload) && is_line_of_response(
                payload,
                response@,
            ),
{
    let text = write_response(response);
    proof {
        assert forall|rest: Seq<u8>| framed(text@) is Ok implies (#[trigger] line_read(
            text@.push(NEWLINE) + rest,
        )) == Ok::<Seq<u8>, ErrorView>(text@) by {
            law_a_framed_line_is_read_back(text@, rest);
        }
    }
    frame(text)
}

/// An optional text in Rust's debug format.
pub open spec fn debug_optional(text: Option<Seq<char>>) -> Seq<char> {
    match text {
        Some(t) => "Some("@ + debug_text(t) + ")"@,
        None => "None"@,
    }
}

fn show_optional(text: &Option<String>) -> (shown: String)
    ensures
        shown@ == debug_optional(optional(*text)),
{
    match text {
        Some(t) => {
            let mut shown = copy_text("Some(");
            shown.push_str(debug_quoted(t.as_str()).as_str());
            shown.push_str(")");
            shown
        },
        None => copy_text("None"),
    }
}

/// What a log line may show of a session: everything but the token, of which
/// it shows whether there is one.
pub open spec fn shown_session(session: SessionView) -> Seq<char> {
    "SessionRequest { cwd: "@ + debug_text(session.cwd) + ", server: "@ + debug_optional(
        session.server,
    ) + ", tenant: "@ + debug_optional(session.tenant) + ", codebase: "@ + debug_optional(
        session.codebase,
    ) + ", token: "@ + (if session.token is Some {
        "Some(Token(redacted))"@
    } else {
        "None"@
    }) + ", resync_secs: "@ + (match session.resync_secs {
        Some(n) => "Some("@ + decimal(n as nat) + ")"@,
        None => "None"@,
    }) + ", update_check: "@ + (if session.update_check {
        "true"@
    } else {
        "false"@
    }) + " }"@
}

/// What a log line may show of a request.
pub open spec fn shown_request(request: RequestView) -> Seq<char> {
    match request {
        RequestView::Attach { protocol, version, session } => "Attach { protocol: "@ + decimal(
            protocol as nat,
        ) + ", version: "@ + debug_text(version) + ", session: "@ + shown_session(session) + " }"@,
        RequestView::Status { protocol } => "Status { protocol: "@ + decimal(protocol as nat)
            + " }"@,
        RequestView::Stop { protocol } => "Stop { protocol: "@ + decimal(protocol as nat) + " }"@,
    }
}

impl SessionRequest {
    /// What a log line may show of this session.
    pub fn redacted(&self) -> (shown: String)
        ensures
            shown@ == shown_session(self@),
    {
        let mut shown = copy_text("SessionRequest { cwd: ");
        shown.push_str(debug_quoted(self.cwd.as_str()).as_str());
        shown.push_str(", server: ");
        shown.push_str(show_optional(&self.server).as_str());
        shown.push_str(", tenant: ");
        shown.push_str(show_optional(&self.tenant).as_str());
        shown.push_str(", codebase: ");
        shown.push_str(show_optional(&self.codebase).as_str());
        shown.push_str(", token: ");
        if self.token.is_some() {
            shown.push_str("Some(Token(redacted))");
        } else {
            shown.push_str("None");
        }
        shown.push_str(", resync_secs: ");
        let resync = match self.resync_secs {
            Some(n) => {
                let mut text = copy_text("Some(");
                text.push_str(decimal_text(n).as_str());
                text.push_str(")");
                text
            },
            None => copy_text("None"),
        };
        shown.push_str(resync.as_str());
        shown.push_str(", update_check: ");
        if self.update_check {
            shown.push_str("true");
        } else {
            shown.push_str("false");
        }
        shown.push_str(" }");
        shown
    }
}

impl Request {
    /// What a log line may show of this request.
    pub fn redacted(&self) -> (shown: String)
        ensures
            shown@ == shown_request(self@),
    {
        match self {
            Request::Attach { protocol, version, session } => {
                let mut shown = copy_text("Attach { protocol: ");
                shown.push_str(decimal_text(*protocol as u64).as_str());
                shown.push_str(", version: ");
                shown.push_str(debug_quoted(version.as_str()).as_str());
                shown.push_str(", session: ");
                shown.push_str(session.redacted().as_str());
                shown.push_str(" }");
                shown
            },
            Request::Status { protocol } => {
                let mut shown = copy_text("Status { protocol: ");
                shown.push_str(decimal_text(*protocol as u64).as_str());
                shown.push_str(" }");
                shown
            },
            Request::Stop { protocol } => {
                let mut shown = copy_text("Stop { protocol: ");
                shown.push_str(decimal_text(*protocol as u64).as_str());
                shown.push_str(" }");
                shown
            },
        }
    }
}

/// What is shown of a session does not depend on what its token is.
pub proof fn law_a_shown_session_hides_the_token(
    session: SessionView,
    first: Seq<char>,
    second: Seq<char>,
)
    ensures
        shown_session(SessionView { token: Some(first), ..session }) == shown_session(
            SessionView { token: Some(second), ..session },
        ),
{
}

/// A line is what stands before its newline byte. Without one it is not complete, and
/// one of more than 65535 bytes is too long in any case.
pub proof fn law_a_line_ends_at_its_newline(line: Seq<u8>, rest: Seq<u8>)
    requires
        !line.contains(10u8),
    ensures
        line.len() <= 65535 ==> line_read(line + seq![10u8] + rest) == Ok::<Seq<u8>, ErrorView>(
            line,
        ),
        line.len() > 65535 ==> line_read(line + seq![10u8] + rest) == Err::<Seq<u8>, ErrorView>(
            ErrorView::LineTooLong,
        ),
        line.len() <= 65535 ==> line_read(line) == Err::<Seq<u8>, ErrorView>(ErrorView::Closed),
        line.len() > 65535 ==> line_read(line) == Err::<Seq<u8>, ErrorView>(ErrorView::LineTooLong),
        line.len() <= 65535 ==> framed(line) == Ok::<Seq<u8>, ErrorView>(line + seq![10u8]),
        line.len() > 65535 ==> framed(line) == Err::<Seq<u8>, ErrorView>(ErrorView::LineTooLong),
{
    let all = line + seq![10u8] + rest;
    let n = line.len() as int;
    assert forall|i: int| 0 <= i < n implies #[trigger] line[i] != 10 by {
        assert(line.contains(line[i]));
    }
    assert forall|i: int| 0 <= i < n implies #[trigger] all[i] != 10 by {
        assert(all[i] == line[i]);
    }
    assert(all[n] == 10);
    lemma_first_newline(all, n);
    lemma_first_newline(line, n);
    assert(all.take(n) =~= line);
    assert(line.push(10u8) =~= line + seq![10u8]);
}

proof fn lemma_first_newline(bytes: Seq<u8>, n: int)
    requires
        0 <= n <= bytes.len(),
        n < bytes.len() ==> bytes[n] == 10,
        forall|i: int| 0 <= i < n ==> #[trigger] bytes[i] != 10,
    ensures
        newline_index(bytes) == n,
    decreases n,
{
    if n > 0 {
        assert(bytes[0] != 10);
        let rest = bytes.drop_first();
        assert(forall|i: int| 0 <= i < n - 1 ==> #[trigger] rest[i] == bytes[i + 1]);
        lemma_first_newline(rest, n - 1);
    }
}

/// What is said of each failure of a handshake.
pub proof fn law_failures_are_told(io: IoKind, detail: Seq<char>, expected: u32, received: u32)
    ensures
        error_text(ErrorView::Transport { kind: io, text: detail })
            == "handshake transport failed: "@ + detail,
        error_text(ErrorView::Closed) == "peer closed the connection during the handshake"@,
        error_text(ErrorView::TimedOut) == "handshake did not finish in time"@,
        error_text(ErrorView::LineTooLong) == "handshake line is longer than "@ + decimal(65536)
            + " bytes"@,
        error_text(ErrorView::Malformed(detail)) == "handshake line is malformed: "@ + detail,
        error_text(ErrorView::UnknownKind(detail)) == "unknown handshake kind "@ + debug_text(detail),
        error_text(ErrorView::ProtocolMismatch { expected, received }) == "handshake protocol "@
            + decimal(received as nat) + " does not match "@ + decimal(expected as nat),
{
}

/// A member is taken by its name and its type: a required one must be there, an
/// optional one may be missing or null, and one of another type is refused by name.
pub proof fn law_members_have_their_type(members: Map<Seq<char>, ScalarView>, name: Seq<char>)
    ensures
        ({
            let there = members.dom().contains(name);
            let value = members[name];
            let fault = ErrorView::Malformed("invalid or missing field `"@ + name + "`"@);
            &&& there && value is Text ==> text_field(members, name) == Ok::<Seq<char>, ErrorView>(
                value->Text_0,
            ) && optional_text_field(members, name) == Ok::<Option<Seq<char>>, ErrorView>(
                Some(value->Text_0),
            )
            &&& !(there && value is Text) ==> text_field(members, name) == Err::<
                Seq<char>,
                ErrorView,
            >(fault)
            &&& !there || value is Null ==> optional_text_field(members, name) == Ok::<
                Option<Seq<char>>,
                ErrorView,
            >(None) && optional_number_field(members, name) == Ok::<Option<u64>, ErrorView>(None)
            &&& there && !(value is Null) && !(value is Text) ==> optional_text_field(members, name)
                == Err::<Option<Seq<char>>, ErrorView>(fault)
            &&& there && value is Number ==> optional_number_field(members, name) == Ok::<
                Option<u64>,
                ErrorView,
            >(Some(value->Number_0))
            &&& there && !(value is Null) && !(value is Number) ==> optional_number_field(
                members,
                name,
            ) == Err::<Option<u64>, ErrorView>(fault)
            &&& there && value is Bool ==> bool_field(members, name) == Ok::<bool, ErrorView>(
                value->Bool_0,
            )
            &&& !(there && value is Bool) ==> bool_field(members, name) == Err::<bool, ErrorView>(
                fault,
            )
            &&& there && value is Number && value->Number_0 <= 4294967295 ==> u32_field(
                members,
                name,
            ) == Ok::<u32, ErrorView>(value->Number_0 as u32)
            &&& !(there && value is Number && value->Number_0 <= 4294967295) ==> u32_field(
                members,
                name,
            ) == Err::<u32, ErrorView>(fault)
        }),
{
}

/// An envelope is accepted where its kind is known and its protocol is the one that is
/// spoken here. An unknown kind is named as such whatever its protocol.
pub proof fn law_which_envelopes_are_accepted(
    members: Map<Seq<char>, ScalarView>,
    known: Seq<Seq<char>>,
    kind: Seq<char>,
    protocol: u32,
)
    requires
        members.dom().contains("kind"@),
        members["kind"@] == ScalarView::Text(kind),
        members.dom().contains("protocol"@),
        members["protocol"@] == ScalarView::Number(protocol as u64),
    ensures
        !known.contains(kind) ==> envelope(Ok(members), known) == Err::<
            (Seq<char>, u32),
            ErrorView,
        >(ErrorView::UnknownKind(kind)),
        known.contains(kind) && protocol != 1 ==> envelope(Ok(members), known) == Err::<
            (Seq<char>, u32),
            ErrorView,
        >(ErrorView::ProtocolMismatch { expected: 1, received: protocol }),
        known.contains(kind) && protocol == 1 ==> envelope(Ok(members), known) == Ok::<
            (Seq<char>, u32),
            ErrorView,
        >((kind, 1)),
{
}

/// A session is read from the members of its own names, each into its own field.
pub proof fn law_a_session_is_read_field_by_field(
    members: Map<Seq<char>, ScalarView>,
    session: SessionView,
)
    requires
        session_fields(members) == Ok::<SessionView, ErrorView>(session),
    ensures
        ({
            let text = |name: Seq<char>|
                if members.dom().contains(name) && members[name] is Text {
                    Some(members[name]->Text_0)
                } else {
                    None
                };
            &&& text("cwd"@) == Some(session.cwd)
            &&& session.server == text("server"@)
            &&& session.tenant == text("tenant"@)
            &&& session.codebase == text("codebase"@)
            &&& session.token == text("token"@)
            &&& session.resync_secs == (if members.dom().contains("resync_secs"@)
                && members["resync_secs"@] is Number {
                Some(members["resync_secs"@]->Number_0)
            } else {
                None
            })
            &&& members.dom().contains("update_check"@) && members["update_check"@]
                == ScalarView::Bool(session.update_check)
        }),
{
}

/// The first name of a list that a text repeats is found, and none only where it
/// repeats none of them.
pub proof fn law_the_first_repeated_name_is_found(text: Seq<u8>, names: Seq<Seq<char>>, at: int)
    requires
        0 <= at <= names.len(),
        forall|k: int| 0 <= k < at ==> !repeats(text, #[trigger] names[k]),
        at < names.len() ==> repeats(text, names[at]),
    ensures
        at == names.len() ==> first_repeated(text, names) is None,
        at < names.len() ==> first_repeated(text, names) == Some(names[at]),
    decreases at,
{
    if at > 0 {
        let rest = names.drop_first();
        assert(forall|k: int| 0 <= k < rest.len() ==> #[trigger] rest[k] == names[k + 1]);
        assert(!repeats(text, names[0]));
        law_the_first_repeated_name_is_found(text, rest, at - 1);
    }
}

/// Which members a request is written with.
pub proof fn law_what_a_request_holds(version: Seq<char>, session: SessionView)
    ensures
        ({
            let text = |value: Option<Seq<char>>|
                match value {
                    Some(t) => ScalarView::Text(t),
                    None => ScalarView::Null,
                };
            request_text(RequestView::Attach { protocol: 1, version, session }) == json_object(
                seq![
                    ("kind"@, ScalarView::Text("attach"@)),
                    ("protocol"@, ScalarView::Number(1)),
                    ("version"@, ScalarView::Text(version)),
                ],
                Some(
                    (
                        "session"@,
                        seq![
                            ("cwd"@, ScalarView::Text(session.cwd)),
                            ("server"@, text(session.server)),
                            ("tenant"@, text(session.tenant)),
                            ("codebase"@, text(session.codebase)),
                            ("token"@, text(session.token)),
                            (
                                "resync_secs"@,
                                match session.resync_secs {
                                    Some(n) => ScalarView::Number(n),
                                    None => ScalarView::Null,
                                },
                            ),
                            ("update_check"@, ScalarView::Bool(session.update_check)),
                        ],
                    ),
                ),
            )
        }),
        request_text(RequestView::Status { protocol: 1 }) == json_object(
            seq![
                ("kind"@, ScalarView::Text("status"@)),
                ("protocol"@, ScalarView::Number(1)),
            ],
            None,
        ),
        request_text(RequestView::Stop { protocol: 1 }) == json_object(
            seq![("kind"@, ScalarView::Text("stop"@)), ("protocol"@, ScalarView::Number(1))],
            None,
        ),
{
    let text = |value: Option<Seq<char>>|
        match value {
            Some(t) => ScalarView::Text(t),
            None => ScalarView::Null,
        };
    assert(session_members(session) =~= seq![
        ("cwd"@, ScalarView::Text(session.cwd)),
        ("server"@, text(session.server)),
        ("tenant"@, text(session.tenant)),
        ("codebase"@, text(session.codebase)),
        ("token"@, text(session.token)),
        (
            "resync_secs"@,
            match session.resync_secs {
                Some(n) => ScalarView::Number(n),
                None => ScalarView::Null,
            },
        ),
        ("update_check"@, ScalarView::Bool(session.update_check)),
    ]);
}

/// An answer is read from the members of its own names: an attached session with its
/// id, and a rejection with its reason.
pub proof fn law_an_answer_is_read_field_by_field(
    line: Seq<u8>,
    members: Map<Seq<char>, ScalarView>,
    version: Seq<char>,
    told: Seq<char>,
)
    requires
        line_object(line) == Ok::<Map<Seq<char>, ScalarView>, ErrorView>(members),
        members.dom().contains("kind"@),
        members.dom().contains("protocol"@),
        members["protocol"@] == ScalarView::Number(1),
        members.dom().contains("version"@),
        members["version"@] == ScalarView::Text(version),
        !repeats(line, "version"@),
    ensures
        members["kind"@] == ScalarView::Text("attached"@) && !repeats(line, "session_id"@)
            && members.dom().contains("session_id"@) && members["session_id"@] == ScalarView::Text(
            told,
        ) ==> decoded_response(line) == Ok::<ResponseView, ErrorView>(
            ResponseView::Attached { protocol: 1, version, session_id: told },
        ),
        members["kind"@] == ScalarView::Text("rejected"@) && !repeats(line, "reason"@)
            && members.dom().contains("reason"@) && members["reason"@] == ScalarView::Text(told)
            ==> decoded_response(line) == Ok::<ResponseView, ErrorView>(
            ResponseView::Rejected { protocol: 1, version, reason: told },
        ),
{
    reveal_strlit("attached");
    reveal_strlit("rejected");
    let kinds = response_kinds();
    assert(kinds[0] == "attached"@ && kinds[1] == "rejected"@);
    assert(kinds.contains("attached"@) && kinds.contains("rejected"@));
    assert("attached"@[0] == 'a' && "rejected"@[0] == 'r');
    law_the_first_repeated_name_is_found(line, seq!["version"@, "session_id"@], if repeats(
        line,
        "session_id"@,
    ) {
        1
    } else {
        2
    });
    law_the_first_repeated_name_is_found(line, seq!["version"@, "reason"@], if repeats(
        line,
        "reason"@,
    ) {
        1
    } else {
        2
    });
}

/// A request is read from the members of its own names: to attach a session of a
/// version, to ask for the status, or to stop.
pub proof fn law_a_request_is_read_field_by_field(
    line: Seq<u8>,
    members: Map<Seq<char>, ScalarView>,
    version: Seq<char>,
    session: SessionView,
)
    requires
        line_object(line) == Ok::<Map<Seq<char>, ScalarView>, ErrorView>(members),
        members.dom().contains("kind"@),
        members.dom().contains("protocol"@),
        members["protocol"@] == ScalarView::Number(1),
    ensures
        members["kind"@] == ScalarView::Text("attach"@) && members.dom().contains("version"@)
            && members["version"@] == ScalarView::Text(version) && !repeats(line, "version"@)
            && !repeats(line, "session"@) && session_body(line) == Ok::<SessionView, ErrorView>(
            session,
        ) ==> decoded_request(line, request_kinds()) == Ok::<RequestView, ErrorView>(
            RequestView::Attach { protocol: 1, version, session },
        ),
        members["kind"@] == ScalarView::Text("status"@) ==> decoded_request(line, request_kinds())
            == Ok::<RequestView, ErrorView>(RequestView::Status { protocol: 1 }),
        members["kind"@] == ScalarView::Text("stop"@) ==> decoded_request(line, request_kinds())
            == Ok::<RequestView, ErrorView>(RequestView::Stop { protocol: 1 }),
{
    reveal_strlit("attach");
    reveal_strlit("status");
    reveal_strlit("stop");
    let kinds = request_kinds();
    assert(kinds[0] == "attach"@ && kinds[1] == "status"@ && kinds[2] == "stop"@);
    assert(kinds.contains("attach"@) && kinds.contains("status"@) && kinds.contains("stop"@));
    assert("attach"@[0] == 'a' && "status"@[0] == 's' && "stop"@[0] == 's');
    assert("status"@.len() == 6 && "stop"@.len() == 4);
    law_the_first_repeated_name_is_found(line, seq!["version"@, "session"@], if repeats(
        line,
        "version"@,
    ) {
        0
    } else if repeats(line, "session"@) {
        1
    } else {
        2
    });
}

/// What is shown of a session and of a request: every field, and of a token only that
/// there is one.
pub proof fn law_what_is_shown_of_a_request(
    session: SessionView,
    version: Seq<char>,
    protocol: u32,
)
    ensures
        ({
            let text = |value: Option<Seq<char>>|
                match value {
                    Some(t) => "Some("@ + debug_text(t) + ")"@,
                    None => "None"@,
                };
            shown_session(session) == "SessionRequest { cwd: "@ + debug_text(session.cwd)
                + ", server: "@ + text(session.server) + ", tenant: "@ + text(session.tenant)
                + ", codebase: "@ + text(session.codebase) + ", token: "@ + (
            if session.token is Some { "Some(Token(redacted))"@ } else { "None"@ })
                + ", resync_secs: "@ + (match session.resync_secs {
                Some(n) => "Some("@ + decimal(n as nat) + ")"@,
                None => "None"@,
            }) + ", update_check: "@ + (if session.update_check { "true"@ } else { "false"@ })
                + " }"@
        }),
        shown_request(RequestView::Attach { protocol, version, session }) == "Attach { protocol: "@
            + decimal(protocol as nat) + ", version: "@ + debug_text(version) + ", session: "@
            + shown_session(session) + " }"@,
        shown_request(RequestView::Status { protocol }) == "Status { protocol: "@ + decimal(
            protocol as nat,
        ) + " }"@,
        shown_request(RequestView::Stop { protocol }) == "Stop { protocol: "@ + decimal(
            protocol as nat,
        ) + " }"@,
{
}

/// A request that was written is read back as it was, by a daemon; a client knows it for
/// no answer. The same holds of an answer the other way round.
pub proof fn law_what_was_written_is_read_back(
    request: &Request,
    asked: Result<Vec<u8>, HandshakeError>,
    response: &Response,
    answered: Result<Vec<u8>, HandshakeError>,
)
    requires
        call_ensures(encode_request, (request,), asked),
        call_ensures(encode_response, (response,), answered),
    ensures
        asked matches Ok(line) ==> {
            &&& line@.len() <= 65536 && line@.last() == 10
            &&& (match request@ {
                RequestView::Attach { protocol, version, session } => protocol,
                RequestView::Status { protocol } => protocol,
                RequestView::Stop { protocol } => protocol,
            }) == 1 ==> decoded_request(line@, request_kinds()) == Ok::<RequestView, ErrorView>(
                request@,
            )
            &&& decoded_response(line@) is Err
        },
        answered matches Ok(line) ==> {
            &&& line@.len() <= 65536 && line@.last() == 10
            &&& (match response@ {
                ResponseView::Attached { protocol, version, session_id } => protocol,
                ResponseView::Rejected { protocol, version, reason } => protocol,
            }) == 1 ==> decoded_response(line@) == Ok::<ResponseView, ErrorView>(response@)
            &&& decoded_request(line@, request_kinds()) is Err
        },
{
}

/// A request and an answer that are made here speak protocol one and hold what they are
/// made of.
pub proof fn law_what_is_made_speaks_the_protocol(
    version: &str,
    session: SessionRequest,
    attach: Request,
    told: &str,
    attached: Response,
    rejected: Response,
)
    requires
        call_ensures(Request::attach, (version, session), attach),
        call_ensures(Response::attached, (version, told), attached),
        call_ensures(Response::rejected, (version, told), rejected),
    ensures
        attach@ == (RequestView::Attach { protocol: 1, version: version@, session: session@ }),
        attached@ == (ResponseView::Attached {
            protocol: 1,
            version: version@,
            session_id: told@,
        }),
        rejected@ == (ResponseView::Rejected { protocol: 1, version: version@, reason: told@ }),
{
}

/// A session is seen field by field.
pub proof fn law_a_session_is_seen_as_it_is(session: SessionRequest)
    ensures
        session@.cwd == session.cwd@,
        session@.server == optional(session.server),
        session@.tenant == optional(session.tenant),
        session@.codebase == optional(session.codebase),
        session.token is None ==> session@.token is None,
        session.token matches Some(token) ==> session@.token == Some(token@),
        session@.resync_secs == session.resync_secs,
        session@.update_check == session.update_check,
{
}

/// A line is read as an object whose envelope names nothing twice, or as a list of just
/// the envelope's values in order; anything else is malformed, for its own reason.
pub proof fn law_what_a_line_is_read_as(line: Seq<u8>)
    ensures
        json_members(line, seq![]) matches Err(detail) ==> line_object(line) == Err::<
            Map<Seq<char>, ScalarView>,
            ErrorView,
        >(ErrorView::Malformed(detail)),
        json_members(line, seq![]) matches Ok(Some(members)) ==> {
            &&& repeats(line, "kind"@) ==> line_object(line) == Err::<
                Map<Seq<char>, ScalarView>,
                ErrorView,
            >(ErrorView::Malformed("duplicate field `"@ + "kind"@ + "`"@))
            &&& !repeats(line, "kind"@) && repeats(line, "protocol"@) ==> line_object(line)
                == Err::<Map<Seq<char>, ScalarView>, ErrorView>(
                ErrorView::Malformed("duplicate field `"@ + "protocol"@ + "`"@),
            )
            &&& !repeats(line, "kind"@) && !repeats(line, "protocol"@) ==> line_object(line)
                == Ok::<Map<Seq<char>, ScalarView>, ErrorView>(members)
        },
        json_members(line, seq![]) == Ok::<Option<Map<Seq<char>, ScalarView>>, Seq<char>>(None) && (
        json_items(line, seq![]) is None || json_items(line, seq![])->0.len() != 2) ==> line_object(
            line,
        ) == Err::<Map<Seq<char>, ScalarView>, ErrorView>(
            ErrorView::Malformed("expected a JSON object"@),
        ),
{
    law_the_first_repeated_name_is_found(
        line,
        envelope_names(),
        if repeats(line, "kind"@) {
            0
        } else if repeats(line, "protocol"@) {
            1
        } else {
            2
        },
    );
}

/// Requests and answers are decoded as their models say, and a line is taken byte by
/// byte until its newline or its limit of 65535 bytes.
pub proof fn law_lines_are_decoded(
    line: &[u8],
    request: Result<Request, HandshakeError>,
    response: Result<Response, HandshakeError>,
    taken: &mut Vec<u8>,
    byte: u8,
    step: LineStep,
)
    requires
        call_ensures(decode_request, (line,), request),
        call_ensures(decode_response, (line,), response),
        call_ensures(take_byte, (taken, byte), step),
    ensures
        match request {
            Ok(r) => decoded_request(line@, request_kinds()) == Ok::<RequestView, ErrorView>(r@),
            Err(e) => decoded_request(line@, request_kinds()) == Err::<RequestView, ErrorView>(e@),
        },
        match response {
            Ok(r) => decoded_response(line@) == Ok::<ResponseView, ErrorView>(r@),
            Err(e) => decoded_response(line@) == Err::<ResponseView, ErrorView>(e@),
        },
        byte == 10 ==> step is Done && final(taken)@ == old(taken)@,
        byte != 10 && old(taken)@.len() == 65535 ==> step is TooLong && final(taken)@ == old(taken)@,
        byte != 10 && old(taken)@.len() != 65535 ==> step is More && final(taken)@ == old(taken)@.push(byte),
{
}

} // verus!
