//! The byte pump of the client role.
//!
//! The client copies bytes between the process standard streams and one daemon
//! connection. Two tasks do the work, and what they report decides when the
//! pump ends and with what status.

use vstd::prelude::*;

verus! {

/// Copy buffer size for each direction.
pub const BUFFER_BYTES: usize = 16384;

/// Process exit status of the client role.
#[derive(Clone, Copy, Debug, PartialEq, Eq, Structural)]
pub enum Exit {
    /// The daemon closed the connection, or standard output went away.
    Clean,
    /// The connection failed.
    TransportFailed,
}

impl Exit {
    /// The process exit code this outcome reports.
    pub fn code(self) -> (code: i32)
        ensures
            code == match self {
                Exit::Clean => 0i32,
                Exit::TransportFailed => 1i32,
            },
    {
        match self {
            Exit::Clean => 0,
            Exit::TransportFailed => 1,
        }
    }
}

/// Whether the transport can end its outbound direction on its own.
#[derive(Clone, Copy, Debug, PartialEq, Eq, Structural)]
pub enum HalfClose {
    /// A shutdown ends only the write direction.
    Supported,
    /// The transport has no half-close: ending the direction ends the
    /// connection.
    Unsupported,
}

/// What remains readable after the outbound direction ends.
#[derive(Clone, Copy, Debug, PartialEq, Eq, Structural)]
pub enum OutboundEnd {
    /// The inbound direction stays open.
    HalfClosed,
    /// The whole connection is closed. Nothing more will arrive.
    Closed,
}

/// What one pump task reports when it finishes.
#[derive(Clone, Copy, Debug, PartialEq, Eq, Structural)]
pub enum Report {
    Inbound(Exit),
    Outbound(OutboundEnd),
    /// The outbound task failed. The connection is broken.
    OutboundFailed,
}

/// The status that one report decides, where it decides: the end of the inbound
/// direction ends the pump at once, and so does the end of the connection;
/// otherwise the inbound direction is drained further. No report at all means
/// that both tasks ended without one.
pub open spec fn decided(report: Option<Report>) -> Option<Exit> {
    match report {
        Some(Report::Inbound(exit)) => Some(exit),
        Some(Report::Outbound(OutboundEnd::Closed)) => Some(Exit::Clean),
        Some(Report::Outbound(OutboundEnd::HalfClosed)) => None,
        Some(Report::OutboundFailed) => None,
        None => Some(Exit::TransportFailed),
    }
}

/// What one report decides.
pub fn after_report(report: Option<Report>) -> (exit: Option<Exit>)
    ensures
        exit == decided(report),
{
    match report {
        Some(Report::Inbound(exit)) => Some(exit),
        Some(Report::Outbound(OutboundEnd::Closed)) => Some(Exit::Clean),
        Some(Report::Outbound(OutboundEnd::HalfClosed)) => None,
        Some(Report::OutboundFailed) => None,
        None => Some(Exit::TransportFailed),
    }
}

/// The status of a pump whose tasks report these, in order, and then no more.
pub open spec fn collected(reports: Seq<Report>) -> Exit
    decreases reports.len(),
{
    if reports.len() == 0 {
        Exit::TransportFailed
    } else {
        match decided(Some(reports[0])) {
            Some(exit) => exit,
            None => collected(reports.drop_first()),
        }
    }
}

/// Decides the exit status from the reports in the order they arrive.
pub fn collect(reports: &Vec<Report>) -> (exit: Exit)
    ensures
        exit == collected(reports@),
{
    let mut i: usize = 0;
    assert(reports@.skip(0) =~= reports@);
    while i < reports.len()
        invariant
            i <= reports@.len(),
            collected(reports@) == collected(reports@.skip(i as int)),
        decreases reports@.len() - i,
    {
        assert(reports@.skip(i as int).drop_first() =~= reports@.skip(i + 1));
        match after_report(Some(reports[i])) {
            Some(exit) => return exit,
            None => {},
        }
        i = i + 1;
    }
    Exit::TransportFailed
}

/// How one read went.
#[derive(Clone, Copy, Debug, PartialEq, Eq, Structural)]
pub enum ReadOutcome {
    /// This many bytes; none at the end of the stream.
    Bytes(usize),
    Interrupted,
    Failed,
}

/// What a copying task does after a read.
#[derive(Clone, Copy, Debug, PartialEq, Eq, Structural)]
pub enum CopyStep {
    /// Write this many bytes of the buffer, then read again.
    Write(usize),
    /// Read again.
    Again,
    /// The stream is at its end.
    End,
    Failed,
}

/// What follows a read, in either direction.
pub fn after_read(read: ReadOutcome) -> (step: CopyStep)
    ensures
        step == match read {
            ReadOutcome::Bytes(count) => if count == 0 {
                CopyStep::End
            } else {
                CopyStep::Write(count)
            },
            ReadOutcome::Interrupted => CopyStep::Again,
            ReadOutcome::Failed => CopyStep::Failed,
        },
{
    match read {
        ReadOutcome::Bytes(count) => {
            if count == 0 {
                CopyStep::End
            } else {
                CopyStep::Write(count)
            }
        },
        ReadOutcome::Interrupted => CopyStep::Again,
        ReadOutcome::Failed => CopyStep::Failed,
    }
}

/// What the end of standard input means for the connection.
pub fn outbound_end(half_close: HalfClose) -> (end: OutboundEnd)
    ensures
        end == match half_close {
            HalfClose::Supported => OutboundEnd::HalfClosed,
            HalfClose::Unsupported => OutboundEnd::Closed,
        },
{
    match half_close {
        HalfClose::Supported => OutboundEnd::HalfClosed,
        HalfClose::Unsupported => OutboundEnd::Closed,
    }
}

/// The status of the inbound task: the end of the connection and an output that
/// went away are clean, a failed read is not.
pub fn inbound_exit(read_failed: bool) -> (exit: Exit)
    ensures
        exit == if read_failed {
            Exit::TransportFailed
        } else {
            Exit::Clean
        },
{
    if read_failed {
        Exit::TransportFailed
    } else {
        Exit::Clean
    }
}

/// The outbound direction alone never fails the pump: with a half-close, or
/// after a failed write, the status is what the inbound direction ends with.
pub proof fn law_the_inbound_direction_decides(end: Report, exit: Exit)
    requires
        end == Report::OutboundFailed || end == Report::Outbound(OutboundEnd::HalfClosed),
    ensures
        collected(seq![end, Report::Inbound(exit)]) == exit,
        collected(seq![Report::Inbound(exit), end]) == exit,
{
    reveal_with_fuel(collected, 3);
    assert(seq![end, Report::Inbound(exit)].drop_first() =~= seq![Report::Inbound(exit)]);
}

/// A session ends as the first report says that decides: the end of what comes in, or
/// the close of the whole connection. Ends of what goes out do not decide, and
/// without a deciding report the transport has failed.
pub proof fn law_the_first_deciding_report_ends_the_session(reports: Seq<Report>, at: int)
    requires
        0 <= at <= reports.len(),
        forall|k: int|
            0 <= k < at ==> (#[trigger] reports[k] == Report::OutboundFailed || reports[k]
                == Report::Outbound(OutboundEnd::HalfClosed)),
        at < reports.len() ==> reports[at] is Inbound || reports[at] == Report::Outbound(
            OutboundEnd::Closed,
        ),
    ensures
        at == reports.len() ==> collected(reports) == Exit::TransportFailed,
        at < reports.len() ==> match reports[at] {
            Report::Inbound(exit) => collected(reports) == exit,
            _ => collected(reports) == Exit::Clean,
        },
        decided(None) == Some(Exit::TransportFailed),
    decreases at,
{
    if at > 0 {
        let rest = reports.drop_first();
        assert(forall|k: int| 0 <= k < rest.len() ==> #[trigger] rest[k] == reports[k + 1]);
        assert(reports[0] == Report::OutboundFailed || reports[0] == Report::Outbound(
            OutboundEnd::HalfClosed,
        ));
        law_the_first_deciding_report_ends_the_session(rest, at - 1);
    }
}

/// Bytes that were read are written, all of them; an interrupted read is tried again;
/// the end of what is read ends the direction, and a failed read is a failure.
pub proof fn law_what_follows_a_read(
    read: ReadOutcome,
    step: CopyStep,
    half_close: HalfClose,
    end: OutboundEnd,
    failed: bool,
    exit: Exit,
)
    requires
        call_ensures(after_read, (read,), step),
        call_ensures(outbound_end, (half_close,), end),
        call_ensures(inbound_exit, (failed,), exit),
    ensures
        read matches ReadOutcome::Bytes(count) && count > 0 ==> step == CopyStep::Write(
            read->Bytes_0,
        ),
        read == ReadOutcome::Bytes(0) ==> step == CopyStep::End,
        read is Interrupted ==> step == CopyStep::Again,
        read is Failed ==> step == CopyStep::Failed,
        half_close is Supported <==> end is HalfClosed,
        failed <==> exit is TransportFailed,
{
}

} // verus!
