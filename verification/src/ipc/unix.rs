//! Unix domain socket endpoint for the shared local daemon.
//!
//! The endpoint lives in a private per-user runtime directory. A lock file next
//! to the socket elects the daemon, and every accepted peer must run under the
//! same user id.

use vstd::prelude::*;
use vstd::string::*;

use crate::ipc::handshake::IoKind;
use crate::paths::{join, joined};
use crate::text::{copy_text, decimal, decimal_text, digit};

verus! {

/// Largest socket path that is used, in bytes.
pub const MAX_SOCKET_PATH_BYTES: usize = 100;

/// First wait between connection attempts, in milliseconds.
pub const FIRST_BACKOFF: u64 = 10;

/// Longest wait between connection attempts, in milliseconds.
pub const LAST_BACKOFF: u64 = 200;

pub open spec fn socket_file(runtime_dir: Seq<char>, id: Seq<char>) -> Seq<char> {
    joined(runtime_dir, id + ".sock"@)
}

pub open spec fn lock_file(runtime_dir: Seq<char>, id: Seq<char>) -> Seq<char> {
    joined(runtime_dir, id + ".lock"@)
}

pub open spec fn log_file(runtime_dir: Seq<char>, id: Seq<char>) -> Seq<char> {
    joined(runtime_dir, id + ".log"@)
}

/// The socket file for one endpoint identity.
pub fn socket_path(runtime_dir: &str, id: &str) -> (path: String)
    ensures
        path@ == socket_file(runtime_dir@, id@),
{
    let mut name = copy_text(id);
    name.push_str(".sock");
    join(runtime_dir, name.as_str())
}

/// The election lock file for one endpoint identity.
pub fn lock_path(runtime_dir: &str, id: &str) -> (path: String)
    ensures
        path@ == lock_file(runtime_dir@, id@),
{
    let mut name = copy_text(id);
    name.push_str(".lock");
    join(runtime_dir, name.as_str())
}

/// The daemon log file for one endpoint identity.
pub fn log_path(runtime_dir: &str, id: &str) -> (path: String)
    ensures
        path@ == log_file(runtime_dir@, id@),
{
    let mut name = copy_text(id);
    name.push_str(".log");
    join(runtime_dir, name.as_str())
}

/// The directory that a platform's base directory names, where it names one.
pub open spec fn preferred_dir(base: Option<Seq<char>>) -> Option<Seq<char>> {
    match base {
        Some(dir) if dir.len() > 0 => Some(joined(dir, "semctl"@)),
        _ => None,
    }
}

/// The preferred runtime directory below the platform's base directory; an
/// empty value counts as unset.
pub fn preferred_runtime_dir(base: Option<&str>) -> (dir: Option<String>)
    ensures
        match dir {
            Some(d) => preferred_dir(
                match base {
                    Some(b) => Some(b@),
                    None => None,
                },
            ) == Some(d@),
            None => preferred_dir(
                match base {
                    Some(b) => Some(b@),
                    None => None,
                },
            ) is None,
        },
{
    match base {
        Some(dir) => {
            if dir.is_empty() {
                None
            } else {
                Some(join(dir, "semctl"))
            }
        },
        None => None,
    }
}

/// The runtime directory of a user: the preferred one where its socket path is
/// short enough, and one below `/tmp` otherwise.
pub open spec fn selected_dir(preferred: Option<Seq<char>>, id: Seq<char>, uid: u32) -> Seq<char> {
    match preferred {
        Some(dir) if vstd::utf8::encode_utf8(socket_file(dir, id)).len()
            <= MAX_SOCKET_PATH_BYTES => dir,
        _ => "/tmp/semctl-"@ + decimal(uid as nat),
    }
}

pub fn select_runtime_dir(preferred: Option<String>, id: &str, uid: u32) -> (dir: String)
    ensures
        dir@ == selected_dir(crate::text::optional(preferred), id@, uid),
{
    match preferred {
        Some(wanted) => {
            let socket = socket_path(wanted.as_str(), id);
            if socket.as_str().as_bytes().len() <= MAX_SOCKET_PATH_BYTES {
                return wanted;
            }
        },
        None => {},
    }
    let mut fallback = copy_text("/tmp/semctl-");
    fallback.push_str(decimal_text(uid as u64).as_str());
    fallback
}

/// What the file system says of a path, without following a link.
#[derive(Clone, Copy, Debug, PartialEq, Eq, Structural)]
pub struct DirectoryFacts {
    pub is_dir: bool,
    pub uid: u32,
    pub mode: u32,
}

/// The permission bits in octal, as four digits.
pub open spec fn octal_mode(mode: nat) -> Seq<char> {
    seq!['0', digit(mode / 64 % 8), digit(mode / 8 % 8), digit(mode % 8)]
}

fn octal_char(d: u32) -> (c: char)
    requires
        d < 8,
    ensures
        c == digit(d as nat),
{
    (48u8 + d as u8) as char
}

fn octal_text(mode: u32) -> (text: String)
    ensures
        text@ == octal_mode(mode as nat),
{
    let mut text = String::new();
    text.push('0');
    text.push(octal_char(mode / 64 % 8));
    text.push(octal_char(mode / 8 % 8));
    text.push(octal_char(mode % 8));
    assert(text@ =~= octal_mode(mode as nat));
    text
}

/// Why a runtime directory is refused, where it is: it has to be a real
/// directory of the user, without permission bits for anyone else.
pub open spec fn directory_fault(dir: Seq<char>, facts: DirectoryFacts, uid: u32) -> Option<
    Seq<char>,
> {
    if !facts.is_dir {
        Some("runtime path "@ + dir + " is not a directory"@)
    } else if facts.uid != uid {
        Some(
            "runtime directory "@ + dir + " is owned by uid "@ + decimal(facts.uid as nat)
                + ", not uid "@ + decimal(uid as nat),
        )
    } else if facts.mode % 64 != 0 {
        Some(
            "runtime directory "@ + dir + " allows group or other access (mode "@ + octal_mode(
                facts.mode as nat % 512,
            ) + ")"@,
        )
    } else {
        None
    }
}

/// Fails unless the directory is a real directory owned by `uid` with no group
/// or other permission bits.
pub fn verify_runtime_dir(dir: &str, facts: DirectoryFacts, uid: u32) -> (verified: Result<
    (),
    String,
>)
    ensures
        match verified {
            Ok(()) => directory_fault(dir@, facts, uid) is None,
            Err(reason) => directory_fault(dir@, facts, uid) == Some(reason@),
        },
{
    if !facts.is_dir {
        let mut reason = copy_text("runtime path ");
        reason.push_str(dir);
        reason.push_str(" is not a directory");
        return Err(reason);
    }
    if facts.uid != uid {
        let mut reason = copy_text("runtime directory ");
        reason.push_str(dir);
        reason.push_str(" is owned by uid ");
        reason.push_str(decimal_text(facts.uid as u64).as_str());
        reason.push_str(", not uid ");
        reason.push_str(decimal_text(uid as u64).as_str());
        return Err(reason);
    }
    let mode: u32 = facts.mode % 512;
    if mode % 64 != 0 {
        let mut reason = copy_text("runtime directory ");
        reason.push_str(dir);
        reason.push_str(" allows group or other access (mode ");
        reason.push_str(octal_text(mode).as_str());
        reason.push_str(")");
        return Err(reason);
    }
    Ok(())
}

/// The shared permission bits are the last two octal digits of the mode.
pub proof fn law_a_verified_directory_is_private(dir: Seq<char>, facts: DirectoryFacts, uid: u32)
    requires
        directory_fault(dir, facts, uid) is None,
    ensures
        facts.is_dir,
        facts.uid == uid,
        facts.mode & 0o077 == 0,
{
    let mode = facts.mode;
    assert(mode % 64 == mode & 0o077) by (bit_vector);
}

/// Whether a peer may connect: it runs under the endpoint's user id, and its
/// credentials could be read.
pub fn accepts_peer(uid: u32, peer: Option<u32>) -> (accepted: bool)
    ensures
        accepted == (peer == Some(uid)),
{
    match peer {
        Some(other) => other == uid,
        None => false,
    }
}

/// Whether a failure to connect means that no daemon is listening yet.
pub fn is_absent(kind: IoKind) -> (absent: bool)
    ensures
        absent == (kind == IoKind::NotFound || kind == IoKind::ConnectionRefused),
{
    match kind {
        IoKind::NotFound => true,
        IoKind::ConnectionRefused => true,
        _ => false,
    }
}

/// What a client does after it could not connect.
#[derive(Clone, Copy, Debug, PartialEq, Eq, Structural)]
pub enum ConnectStep {
    /// Sleep for `sleep` milliseconds, then try again with the longer wait.
    Wait { sleep: u64, backoff: u64 },
    /// The deadline has passed.
    TooLate,
    /// The failure does not mean that a daemon is still starting.
    Fail,
}

/// The smaller of two numbers.
pub open spec fn smaller(a: u64, b: u64) -> u64 {
    if a < b {
        a
    } else {
        b
    }
}

/// What follows a failed attempt, `remaining` milliseconds before the deadline:
/// the wait doubles up to its limit and never passes the deadline.
pub open spec fn connect_step(kind: IoKind, backoff: u64, remaining: u64) -> ConnectStep {
    if !(kind == IoKind::NotFound || kind == IoKind::ConnectionRefused) {
        ConnectStep::Fail
    } else if remaining == 0 {
        ConnectStep::TooLate
    } else {
        ConnectStep::Wait {
            sleep: smaller(backoff, remaining),
            backoff: smaller((backoff * 2) as u64, LAST_BACKOFF),
        }
    }
}

pub fn after_connect_failure(kind: IoKind, backoff: u64, remaining: u64) -> (step: ConnectStep)
    requires
        backoff <= LAST_BACKOFF,
    ensures
        step == connect_step(kind, backoff, remaining),
{
    if !is_absent(kind) {
        ConnectStep::Fail
    } else if remaining == 0 {
        ConnectStep::TooLate
    } else {
        let sleep: u64 = if backoff < remaining {
            backoff
        } else {
            remaining
        };
        let next: u64 = if backoff * 2 < LAST_BACKOFF {
            backoff * 2
        } else {
            LAST_BACKOFF
        };
        ConnectStep::Wait { sleep, backoff: next }
    }
}

/// A client never sleeps past its deadline, and its wait stays between the
/// first and the last backoff.
pub proof fn law_backoff_respects_the_deadline(kind: IoKind, backoff: u64, remaining: u64)
    requires
        FIRST_BACKOFF <= backoff <= LAST_BACKOFF,
    ensures
        connect_step(kind, backoff, remaining) matches ConnectStep::Wait { sleep, backoff: next }
            ==> 0 < sleep <= remaining && sleep <= LAST_BACKOFF && backoff <= next
            && FIRST_BACKOFF <= next <= LAST_BACKOFF,
{
}

/// What the election lock says.
#[derive(Clone, Copy, Debug, PartialEq, Eq, Structural)]
pub enum LockOutcome {
    Acquired,
    WouldBlock,
    Failed,
}

/// What a daemon that wants the endpoint does next.
#[derive(Clone, Copy, Debug, PartialEq, Eq, Structural)]
pub enum ElectionStep {
    /// Remove the socket that a dead daemon left, bind, and serve.
    Bind,
    /// Another daemon owns the endpoint.
    Lost,
    /// The lock could not be asked.
    Fail,
}

/// The lock decides before anything is removed: a socket file is a dead
/// daemon's only once the lock is held.
pub fn elect(lock: LockOutcome) -> (step: ElectionStep)
    ensures
        step == match lock {
            LockOutcome::Acquired => ElectionStep::Bind,
            LockOutcome::WouldBlock => ElectionStep::Lost,
            LockOutcome::Failed => ElectionStep::Fail,
        },
{
    match lock {
        LockOutcome::Acquired => ElectionStep::Bind,
        LockOutcome::WouldBlock => ElectionStep::Lost,
        LockOutcome::Failed => ElectionStep::Fail,
    }
}

/// The files of a daemon lie in its runtime directory, each named after the endpoint.
pub proof fn law_where_the_files_of_a_daemon_lie(runtime_dir: Seq<char>, id: Seq<char>)
    ensures
        socket_file(runtime_dir, id) == joined(runtime_dir, id + ".sock"@),
        lock_file(runtime_dir, id) == joined(runtime_dir, id + ".lock"@),
        log_file(runtime_dir, id) == joined(runtime_dir, id + ".log"@),
{
}

/// The runtime directory is the preferred one, below a base that is set, as long as
/// the socket's path fits in 100 bytes there; otherwise it is that of the user.
pub proof fn law_which_runtime_directory_is_taken(base: Seq<char>, id: Seq<char>, uid: u32)
    ensures
        preferred_dir(None) is None,
        preferred_dir(Some(seq![])) is None,
        base.len() > 0 ==> preferred_dir(Some(base)) == Some(joined(base, "semctl"@)),
        selected_dir(None, id, uid) == "/tmp/semctl-"@ + decimal(uid as nat),
        vstd::utf8::encode_utf8(joined(base, id + ".sock"@)).len() <= 100 ==> selected_dir(
            Some(base),
            id,
            uid,
        ) == base,
        vstd::utf8::encode_utf8(joined(base, id + ".sock"@)).len() > 100 ==> selected_dir(
            Some(base),
            id,
            uid,
        ) == "/tmp/semctl-"@ + decimal(uid as nat),
{
}

/// A runtime directory is refused where it is none, belongs to another user or lets
/// others in; and then only.
pub proof fn law_why_a_runtime_directory_is_refused(
    dir: Seq<char>,
    facts: DirectoryFacts,
    uid: u32,
)
    ensures
        ({
            let fault = directory_fault(dir, facts, uid);
            let mode = facts.mode as nat;
            &&& !facts.is_dir ==> fault == Some("runtime path "@ + dir + " is not a directory"@)
            &&& facts.is_dir && facts.uid != uid ==> fault == Some(
                "runtime directory "@ + dir + " is owned by uid "@ + decimal(facts.uid as nat)
                    + ", not uid "@ + decimal(uid as nat),
            )
            &&& facts.is_dir && facts.uid == uid && mode % 64 != 0 ==> fault == Some(
                "runtime directory "@ + dir + " allows group or other access (mode "@ + octal_mode(
                    mode % 512,
                ) + ")"@,
            )
            &&& facts.is_dir && facts.uid == uid && mode % 64 == 0 ==> fault is None
        }),
{
}

/// A mode is shown by its three octal digits behind a zero.
pub proof fn law_modes_are_shown_in_octal(user: nat, group: nat, other: nat)
    requires
        user < 8,
        group < 8,
        other < 8,
    ensures
        octal_mode(64 * user + 8 * group + other) == seq![
            '0',
            digit(user),
            digit(group),
            digit(other),
        ],
{
    let mode = 64 * user + 8 * group + other;
    assert(mode / 64 == user);
    assert(mode / 8 == 8 * user + group);
    assert((8 * user + group) % 8 == group);
    assert(mode % 8 == other);
}

/// A daemon that is not there yet is waited for: as long as the backoff says and the
/// deadline allows, and twice as long the next time, up to 200 milliseconds.
pub proof fn law_how_a_starting_daemon_is_waited_for(kind: IoKind, backoff: u64, remaining: u64)
    requires
        backoff <= 200,
    ensures
        ({
            let absent = kind == IoKind::NotFound || kind == IoKind::ConnectionRefused;
            let step = connect_step(kind, backoff, remaining);
            &&& !absent ==> step == ConnectStep::Fail
            &&& absent && remaining == 0 ==> step == ConnectStep::TooLate
            &&& absent && remaining > 0 ==> step == (ConnectStep::Wait {
                sleep: if backoff <= remaining { backoff } else { remaining },
                backoff: if backoff <= 100 { (2 * backoff) as u64 } else { 200 },
            })
        }),
{
}

/// A peer is accepted exactly where it is known to be the same user; a daemon serves
/// exactly where it got the lock.
pub proof fn law_who_is_served(
    uid: u32,
    peer: Option<u32>,
    accepted: bool,
    lock: LockOutcome,
    step: ElectionStep,
    kind: IoKind,
    absent: bool,
)
    requires
        call_ensures(accepts_peer, (uid, peer), accepted),
        call_ensures(elect, (lock,), step),
        call_ensures(is_absent, (kind,), absent),
    ensures
        accepted <==> peer is Some && peer->0 == uid,
        step is Bind <==> lock is Acquired,
        step is Lost <==> lock is WouldBlock,
        absent <==> kind == IoKind::NotFound || kind == IoKind::ConnectionRefused,
{
}

} // verus!
