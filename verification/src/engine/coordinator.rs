//! One checkout's reconcile loop.
//!
//! A coordinator owns everything about keeping one working copy in sync. Every
//! trigger goes through one bounded queue into one loop. The loop drains the
//! queue before each run, so a burst of triggers becomes one reconcile, and a
//! trigger that arrives during a run becomes exactly one follow-up reconcile.

use vstd::prelude::*;

use crate::api::JobStatus;
use crate::digest::{blake3_digest, digest};
use crate::engine::registry::{CheckoutKey, KeyView};
use crate::engine::watch_hub::{
    delivered, event_views, overflowed, Event, EventView, SinkView, WatchSink, BATCH_CAPACITY,
};
use crate::mcp::readiness::{
    gate_views, result_view, GateView, IndexResult, InitialIndexGate, Waiting,
};
use crate::sync::SyncOutcome;
use crate::text::{
    copy_optional, copy_text, decimal, decimal_text, lemma_in_a_row, optional, optional_or,
    signed_decimal, signed_text, text_or,
};

verus! {

/// Reasons a reconcile can be due, before any coalescing.
pub const TRIGGER_CAPACITY: usize = 64;

/// Seconds between periodic re-syncs when no watcher is available.
pub const DEFAULT_RESYNC_SECS: u64 = 60;

/// How much less often the periodic re-sync runs beside an active watcher.
pub const WATCHED_RESYNC_MULTIPLIER: u64 = 5;

/// Why a reconcile is due.
#[derive(Clone, Copy, Debug, PartialEq, Eq, Structural)]
pub enum Trigger {
    /// The coordinator was just created.
    Startup,
    /// The watcher reported a relevant change.
    Watch,
    /// The periodic backstop fired.
    Periodic,
    /// A tool asked for a sync.
    Explicit,
}

pub open spec fn trigger_name(trigger: Trigger) -> Seq<char> {
    match trigger {
        Trigger::Startup => "startup"@,
        Trigger::Watch => "watch"@,
        Trigger::Periodic => "periodic"@,
        Trigger::Explicit => "explicit"@,
    }
}

impl Trigger {
    pub fn as_str(self) -> (name: &'static str)
        ensures
            name@ == trigger_name(self),
    {
        match self {
            Trigger::Startup => "startup",
            Trigger::Watch => "watch",
            Trigger::Periodic => "periodic",
            Trigger::Explicit => "explicit",
        }
    }
}

/// Whether this checkout has a realtime watcher.
pub enum WatcherState {
    Active,
    /// No watcher, and why. The periodic re-sync runs at its short interval.
    Unavailable(String),
}

/// A watcher state as the reason why there is none.
pub open spec fn watcher_view(state: WatcherState) -> Option<Seq<char>> {
    match state {
        WatcherState::Active => None,
        WatcherState::Unavailable(reason) => Some(reason@),
    }
}

/// One checkout, as a status call sees it.
pub struct CoordinatorStatus {
    pub root: String,
    pub codebase_id: Option<String>,
    pub leases: usize,
    pub watcher: WatcherState,
    pub last_job_id: Option<String>,
    pub running: bool,
    pub pending_triggers: usize,
    pub trigger_overflow: bool,
    pub last_outcome: Option<String>,
    pub last_error: Option<String>,
}

pub struct StatusView {
    pub root: Seq<char>,
    pub codebase_id: Option<Seq<char>>,
    pub leases: nat,
    pub watcher: Option<Seq<char>>,
    pub last_job_id: Option<Seq<char>>,
    pub running: bool,
    pub pending_triggers: nat,
    pub trigger_overflow: bool,
    pub last_outcome: Option<Seq<char>>,
    pub last_error: Option<Seq<char>>,
}

impl View for CoordinatorStatus {
    type V = StatusView;

    open spec fn view(&self) -> StatusView {
        StatusView {
            root: self.root@,
            codebase_id: optional(self.codebase_id),
            leases: self.leases as nat,
            watcher: watcher_view(self.watcher),
            last_job_id: optional(self.last_job_id),
            running: self.running,
            pending_triggers: self.pending_triggers as nat,
            trigger_overflow: self.trigger_overflow,
            last_outcome: optional(self.last_outcome),
            last_error: optional(self.last_error),
        }
    }
}

pub open spec fn bool_name(b: bool) -> Seq<char> {
    if b {
        "true"@
    } else {
        "false"@
    }
}

pub fn bool_text(b: bool) -> (text: &'static str)
    ensures
        text@ == bool_name(b),
{
    if b {
        "true"
    } else {
        "false"
    }
}

/// The status of a checkout on one line.
pub open spec fn status_line(status: StatusView) -> Seq<char> {
    "root "@ + status.root + " codebase "@ + text_or(status.codebase_id, "(unbound)"@) + " leases "@
        + decimal(status.leases) + " watcher "@ + text_or(status.watcher, "active"@) + " job "@
        + text_or(status.last_job_id, "(none)"@) + " running "@ + bool_name(status.running)
        + " pending "@ + decimal(status.pending_triggers) + (if status.trigger_overflow {
        " (overflowed)"@
    } else {
        ""@
    }) + " outcome "@ + text_or(status.last_outcome, "(none)"@) + " error "@ + text_or(
        status.last_error,
        "(none)"@,
    )
}

impl CoordinatorStatus {
    pub fn line(&self) -> (line: String)
        ensures
            line@ == status_line(self@),
    {
        let mut line = copy_text("root ");
        line.push_str(self.root.as_str());
        line.push_str(" codebase ");
        line.push_str(optional_or(&self.codebase_id, "(unbound)"));
        line.push_str(" leases ");
        line.push_str(decimal_text(self.leases as u64).as_str());
        line.push_str(" watcher ");
        let watcher = match &self.watcher {
            WatcherState::Active => "active",
            WatcherState::Unavailable(reason) => reason.as_str(),
        };
        line.push_str(watcher);
        line.push_str(" job ");
        line.push_str(optional_or(&self.last_job_id, "(none)"));
        line.push_str(" running ");
        line.push_str(bool_text(self.running));
        line.push_str(" pending ");
        line.push_str(decimal_text(self.pending_triggers as u64).as_str());
        let overflow = if self.trigger_overflow {
            " (overflowed)"
        } else {
            ""
        };
        line.push_str(overflow);
        line.push_str(" outcome ");
        line.push_str(optional_or(&self.last_outcome, "(none)"));
        line.push_str(" error ");
        line.push_str(optional_or(&self.last_error, "(none)"));
        line
    }
}

/// The number that eight bytes write, least significant first.
pub open spec fn little_endian(bytes: Seq<u8>) -> nat
    decreases bytes.len(),
{
    if bytes.len() == 0 {
        0
    } else {
        bytes[0] as nat + 256 * little_endian(bytes.drop_first())
    }
}

/// Nanoseconds that a checkout's first tick waits beyond a full interval: a
/// thousandth part of the interval for each unit of a digest of its root, so
/// one checkout always picks the same offset.
pub open spec fn jitter_nanos(root: Seq<u8>, interval_nanos: nat) -> nat {
    let fraction = little_endian(blake3_digest(root).take(8)) % 1000;
    let nanos = interval_nanos * fraction / 1000;
    if nanos <= u64::MAX {
        nanos
    } else {
        u64::MAX as nat
    }
}

/// The longest interval that a `Duration` of the standard library holds, in
/// nanoseconds.
pub const MAX_INTERVAL_NANOS: u128 = 18446744073709551615999999999;

/// Spreads the first tick of many coordinators across one interval.
pub fn jitter(root: &[u8], interval_nanos: u128) -> (nanos: u64)
    requires
        interval_nanos <= MAX_INTERVAL_NANOS,
    ensures
        nanos == jitter_nanos(root@, interval_nanos as nat),
        interval_nanos > 0 ==> nanos < interval_nanos,
{
    let hash = digest(root);
    let ghost first = hash@.take(8);
    let mut number: u64 = 0;
    let mut i: usize = 8;
    assert(first.skip(8) =~= Seq::<u8>::empty());
    while i > 0
        invariant
            i <= 8,
            first == hash@.take(8),
            number == little_endian(first.skip(i as int)),
            i == 8 ==> number == 0,
            i == 7 ==> number < 0x100,
            i == 6 ==> number < 0x10000,
            i == 5 ==> number < 0x1000000,
            i == 4 ==> number < 0x100000000,
            i == 3 ==> number < 0x10000000000,
            i == 2 ==> number < 0x1000000000000,
            i == 1 ==> number < 0x100000000000000,
        decreases i,
    {
        i = i - 1;
        assert(first.skip(i as int).drop_first() =~= first.skip(i + 1));
        assert(first.skip(i as int)[0] == hash@[i as int]);
        number = hash[i] as u64 + 256 * number;
    }
    assert(first.skip(0) =~= first);
    let fraction: u128 = (number % 1000) as u128;
    let ghost f = fraction as nat;
    assert(interval_nanos * fraction <= MAX_INTERVAL_NANOS * 999) by (nonlinear_arith)
        requires
            interval_nanos <= MAX_INTERVAL_NANOS,
            fraction <= 999,
    ;
    let nanos: u128 = interval_nanos * fraction / 1000;
    proof {
        if interval_nanos > 0 {
            assert(interval_nanos * fraction / 1000 < interval_nanos) by (nonlinear_arith)
                requires
                    fraction <= 999,
                    interval_nanos > 0,
            ;
        }
    }
    if nanos <= u64::MAX as u128 {
        nanos as u64
    } else {
        u64::MAX
    }
}

/// When the periodic backstop of a checkout ticks.
#[derive(Clone, Copy, Debug, PartialEq, Eq, Structural)]
pub struct PeriodicTimer {
    pub period_secs: u64,
    /// The wait before the first tick beyond one full period.
    pub offset_nanos: u64,
}

/// Seconds between two ticks: five times the session's interval beside an
/// active watcher, and nothing where the session disabled the timer.
pub open spec fn period_secs(resync_secs: Option<u64>, watched: bool) -> Option<u64> {
    let secs = match resync_secs {
        Some(n) => n,
        None => DEFAULT_RESYNC_SECS,
    };
    if secs == 0 {
        None
    } else if !watched {
        Some(secs)
    } else if secs * WATCHED_RESYNC_MULTIPLIER > u64::MAX {
        Some(u64::MAX)
    } else {
        Some((secs * WATCHED_RESYNC_MULTIPLIER) as u64)
    }
}

/// What the server says of a first index's job, once it is over.
pub open spec fn job_result(job_id: Seq<char>, job: JobStatus) -> Option<Result<(), Seq<char>>> {
    if job.error is Some {
        Some(Err("embedding job "@ + job_id + " failed: "@ + job.error->0@))
    } else if job.completed_at is None {
        None
    } else if job.files_failed > 0 {
        Some(
            Err(
                "embedding job "@ + job_id + " completed with "@ + signed_decimal(
                    job.files_failed as int,
                ) + " failed file(s)"@,
            ),
        )
    } else {
        Some(Ok(()))
    }
}

/// A first index is ready only when embedding finished with nothing failed.
pub fn initial_job_result(job_id: &str, job: &JobStatus) -> (result: Option<IndexResult>)
    ensures
        match result {
            Some(r) => job_result(job_id@, *job) == Some(result_view(r)),
            None => job_result(job_id@, *job) is None,
        },
{
    match &job.error {
        Some(error) => {
            let mut message = copy_text("embedding job ");
            message.push_str(job_id);
            message.push_str(" failed: ");
            message.push_str(error.as_str());
            return Some(Err(message));
        },
        None => {},
    }
    if job.completed_at.is_none() {
        return None;
    }
    if job.files_failed > 0 {
        let mut message = copy_text("embedding job ");
        message.push_str(job_id);
        message.push_str(" completed with ");
        message.push_str(signed_text(job.files_failed).as_str());
        message.push_str(" failed file(s)");
        return Some(Err(message));
    }
    Some(Ok(()))
}

/// How polling the job of a first index goes on: with another look later, or
/// with how the first index ends.
pub fn poll_initial_job(job_id: &str, reply: &Result<JobStatus, String>) -> (result: Option<
    IndexResult,
>)
    ensures
        match *reply {
            Ok(job) => match result {
                Some(r) => job_result(job_id@, job) == Some(result_view(r)),
                None => job_result(job_id@, job) is None,
            },
            Err(e) => result matches Some(r) && result_view(r) == Err::<(), Seq<char>>(
                "poll initial index job "@ + job_id@ + ": "@ + e@,
            ),
        },
{
    match reply {
        Ok(job) => initial_job_result(job_id, job),
        Err(e) => {
            let mut message = copy_text("poll initial index job ");
            message.push_str(job_id);
            message.push_str(": ");
            message.push_str(e.as_str());
            Some(Err(message))
        },
    }
}

/// Retrieval never runs against a partial first index: success means that the
/// job is over, without an error and without a failed file.
pub proof fn law_success_means_a_complete_index(job_id: Seq<char>, job: JobStatus)
    requires
        job_result(job_id, job) == Some(Ok::<(), Seq<char>>(())),
    ensures
        job.completed_at is Some,
        job.error is None,
        job.files_failed <= 0,
{
}

/// What a run does first.
#[derive(Clone, Copy, Debug, PartialEq, Eq, Structural)]
pub enum CodebaseStep {
    /// There is a codebase to reconcile into, or the sync finds one itself.
    Ready,
    /// A first index has not named its codebase yet: wait for its gate.
    Wait,
    /// The first index ended without a codebase: there is nothing to do.
    Abandon,
}

/// What a run's result means for the first index it reports.
pub enum GateStep {
    /// The first index has its result, or another run reports it.
    Skip,
    /// Poll this job and finish this gate with how it ends.
    Poll(String),
    /// The first index is finished with a failure.
    Failed,
}

/// What the loop does next.
pub enum Turn {
    /// Nothing is due.
    Idle,
    /// Reconcile now.
    Run(Trigger),
    /// Reconcile if one of these events matters to the source policy.
    Judge(Vec<Event>),
}

pub enum TurnView {
    Idle,
    Run(Trigger),
    Judge(Seq<EventView>),
}

impl View for Turn {
    type V = TurnView;

    open spec fn view(&self) -> TurnView {
        match *self {
            Turn::Idle => TurnView::Idle,
            Turn::Run(trigger) => TurnView::Run(trigger),
            Turn::Judge(events) => TurnView::Judge(event_views(events@)),
        }
    }
}

/// One checkout's owner.
pub struct Coordinator {
    key: CheckoutKey,
    /// The codebase this checkout is filed under.
    codebase_id: Option<String>,
    last_job: Option<String>,
    /// The first indexes of this checkout, the current one last.
    gates: Vec<InitialIndexGate>,
    watcher: WatcherState,
    triggers: Vec<Trigger>,
    /// Where the watcher's batches go. Its flag also says that a trigger was
    /// dropped.
    sink: WatchSink,
    running: bool,
    last_outcome: Option<String>,
    last_error: Option<String>,
    leases: usize,
    /// When the lease count last reached zero, in milliseconds.
    released_at: Option<u64>,
    resync_secs: Option<u64>,
}

pub struct CoordinatorView {
    pub key: KeyView,
    pub codebase_id: Option<Seq<char>>,
    pub last_job: Option<Seq<char>>,
    pub gates: Seq<GateView>,
    pub watcher: Option<Seq<char>>,
    pub triggers: Seq<Trigger>,
    pub sink: SinkView,
    pub running: bool,
    pub last_outcome: Option<Seq<char>>,
    pub last_error: Option<Seq<char>>,
    pub leases: nat,
    pub released_at: Option<u64>,
    pub resync_secs: Option<u64>,
}

impl View for Coordinator {
    type V = CoordinatorView;

    closed spec fn view(&self) -> CoordinatorView {
        CoordinatorView {
            key: self.key@,
            codebase_id: optional(self.codebase_id),
            last_job: optional(self.last_job),
            gates: gate_views(self.gates@),
            watcher: watcher_view(self.watcher),
            triggers: self.triggers@,
            sink: self.sink@,
            running: self.running,
            last_outcome: optional(self.last_outcome),
            last_error: optional(self.last_error),
            leases: self.leases as nat,
            released_at: self.released_at,
            resync_secs: self.resync_secs,
        }
    }
}

/// What a run that succeeded says of itself.
pub open spec fn outcome_text(trigger: Trigger, outcome: SyncOutcome) -> Seq<char> {
    trigger_name(trigger) + " uploaded "@ + decimal(outcome.uploaded as nat) + " file(s), "@
        + decimal(outcome.to_delete as nat) + " to delete"@
}

/// Whether a run changed anything on the server.
pub open spec fn outcome_changed(outcome: SyncOutcome) -> bool {
    outcome.uploaded > 0 || outcome.to_delete > 0
}

/// The trigger that is due: the tick before the queue, the queue before what
/// was dropped.
pub open spec fn due_trigger(coordinator: CoordinatorView, tick: bool) -> Option<Trigger> {
    if tick {
        Some(Trigger::Periodic)
    } else if coordinator.triggers.len() > 0 {
        Some(coordinator.triggers[0])
    } else if coordinator.sink.overflow {
        Some(Trigger::Watch)
    } else {
        None
    }
}

impl CoordinatorView {
    /// A coordinator as it is created.
    pub open spec fn fresh(
        key: KeyView,
        codebase_id: Option<Seq<char>>,
        watcher: Option<Seq<char>>,
        first_index: bool,
        resync_secs: Option<u64>,
    ) -> CoordinatorView {
        CoordinatorView {
            key,
            codebase_id,
            last_job: None,
            gates: if first_index {
                seq![GateView::fresh()]
            } else {
                seq![]
            },
            watcher,
            triggers: seq![],
            sink: SinkView { batches: seq![], capacity: BATCH_CAPACITY as nat, overflow: false },
            running: false,
            last_outcome: None,
            last_error: None,
            leases: 0,
            released_at: None,
            resync_secs,
        }
    }

    /// A trigger goes into the queue; where that is full it is folded into the
    /// overflow flag.
    pub open spec fn triggered(self, trigger: Trigger) -> CoordinatorView {
        if self.triggers.len() < TRIGGER_CAPACITY {
            CoordinatorView { triggers: self.triggers.push(trigger), ..self }
        } else {
            CoordinatorView { sink: SinkView { overflow: true, ..self.sink }, ..self }
        }
    }

    /// Whether the current first index still serves the next caller: it is
    /// pending or it succeeded.
    pub open spec fn gate_serves(self) -> bool {
        self.gates.len() > 0 && !self.gates.last().failed()
    }

    /// A failed or absent first index is replaced by a fresh one, and a run is
    /// queued for it.
    pub open spec fn gate_renewed(self) -> CoordinatorView {
        if self.gate_serves() {
            self
        } else {
            (CoordinatorView { gates: self.gates.push(GateView::fresh()), ..self }).triggered(
                Trigger::Startup,
            )
        }
    }

    /// Whether no session has held this coordinator for at least `grace`
    /// milliseconds. One that was never released is never idle.
    pub open spec fn idle(self, now: u64, grace: u64) -> bool {
        self.leases == 0 && (self.released_at matches Some(at) && (if now > at {
            now - at
        } else {
            0
        }) >= grace)
    }

    /// What a finished run leaves: a failure only its error, a success
    /// everything it confirmed. The job is kept where the run was the startup
    /// run or changed something, so an idle checkout keeps pointing at its last
    /// meaningful job.
    pub open spec fn recorded(self, trigger: Trigger, result: Result<SyncOutcome, String>)
        -> CoordinatorView {
        match result {
            Ok(outcome) => CoordinatorView {
                running: false,
                last_outcome: Some(outcome_text(trigger, outcome)),
                last_error: None,
                codebase_id: Some(outcome.codebase_id@),
                last_job: if trigger == Trigger::Startup || outcome_changed(outcome) {
                    Some(outcome.job_id@)
                } else {
                    self.last_job
                },
                ..self
            },
            Err(reason) => CoordinatorView { running: false, last_error: Some(reason@), ..self },
        }
    }

    /// What a turn of the loop leaves: both queues empty and the flag clear.
    pub open spec fn drained(self) -> CoordinatorView {
        CoordinatorView {
            triggers: seq![],
            sink: SinkView { batches: seq![], overflow: false, ..self.sink },
            ..self
        }
    }

    /// What the loop does in a turn.
    pub open spec fn turn(self, tick: bool) -> TurnView {
        match due_trigger(self, tick) {
            Some(trigger) => TurnView::Run(trigger),
            None => if self.sink.batches.flatten().len() > 0 {
                TurnView::Judge(self.sink.batches.flatten())
            } else {
                TurnView::Idle
            },
        }
    }

    /// What a status call reports.
    pub open spec fn status(self) -> StatusView {
        StatusView {
            root: self.key.root,
            codebase_id: self.codebase_id,
            leases: self.leases,
            watcher: self.watcher,
            last_job_id: self.last_job,
            running: self.running,
            pending_triggers: self.triggers.len(),
            trigger_overflow: self.sink.overflow,
            last_outcome: self.last_outcome,
            last_error: self.last_error,
        }
    }

    /// What a run that starts now does first, given the first index it found.
    pub open spec fn codebase_step(self, gate: Option<int>) -> CodebaseStep {
        if self.codebase_id is Some || gate is None {
            CodebaseStep::Ready
        } else {
            let found = self.gates[gate->0];
            if found.codebase_id is Some {
                CodebaseStep::Ready
            } else if found.result is Some {
                CodebaseStep::Abandon
            } else {
                CodebaseStep::Wait
            }
        }
    }

    /// The codebase that a run reconciles into, given the first index it found.
    pub open spec fn run_codebase(self, gate: Option<int>) -> Option<Seq<char>> {
        if self.codebase_id is Some || gate is None {
            self.codebase_id
        } else {
            self.gates[gate->0].codebase_id
        }
    }

    /// Whether a run may report the first index `gate`: it has no result, and
    /// no other run has taken the report on.
    pub open spec fn may_report(self, gate: int) -> bool {
        self.gates[gate].result is None && !self.gates[gate].polling
    }

    /// What a run's result does to the first index it found.
    pub open spec fn reported(self, gate: int, job: Result<String, String>) -> CoordinatorView {
        if !self.may_report(gate) {
            self
        } else {
            let claimed = GateView { polling: true, ..self.gates[gate] };
            let after = match job {
                Ok(_) => claimed,
                Err(reason) => claimed.finished(Err("initial scan/upload failed: "@ + reason@)),
            };
            CoordinatorView { gates: self.gates.update(gate, after), ..self }
        }
    }
}

/// The reason a cancelled coordinator gives for having no watcher.
pub open spec fn cancelled_reason() -> Seq<char> {
    "coordinator cancelled"@
}

impl Coordinator {
    /// A coordinator without a lease and without a trigger. `watch` says
    /// whether its root is watched, or why it is not.
    pub fn new(
        key: CheckoutKey,
        codebase_id: Option<String>,
        watch: Result<(), String>,
        first_index: bool,
        resync_secs: Option<u64>,
    ) -> (coordinator: Coordinator)
        ensures
            coordinator@ == CoordinatorView::fresh(
                key@,
                optional(codebase_id),
                match watch {
                    Ok(()) => None,
                    Err(reason) => Some(reason@),
                },
                first_index,
                resync_secs,
            ),
    {
        let mut gates: Vec<InitialIndexGate> = Vec::new();
        if first_index {
            gates.push(InitialIndexGate::pending());
            assert(gate_views(gates@) =~= seq![GateView::fresh()]);
        } else {
            assert(gate_views(gates@) =~= seq![]);
        }
        let watcher = match watch {
            Ok(()) => WatcherState::Active,
            Err(reason) => WatcherState::Unavailable(reason),
        };
        let coordinator = Coordinator {
            key,
            codebase_id,
            last_job: None,
            gates,
            watcher,
            triggers: Vec::new(),
            sink: WatchSink::new(BATCH_CAPACITY),
            running: false,
            last_outcome: None,
            last_error: None,
            leases: 0,
            released_at: None,
            resync_secs,
        };
        assert(coordinator@.triggers =~= seq![]);
        coordinator
    }

    pub fn key(&self) -> (key: &CheckoutKey)
        ensures
            key@ == self@.key,
    {
        &self.key
    }

    pub fn root(&self) -> (root: &str)
        ensures
            root@ == self@.key.root,
    {
        self.key.root()
    }

    /// The codebase this checkout is filed under.
    pub fn codebase_id(&self) -> (id: Option<String>)
        ensures
            optional(id) == self@.codebase_id,
    {
        copy_optional(&self.codebase_id)
    }

    /// Asks for a reconcile. It never waits and never fails.
    pub fn trigger(&mut self, trigger: Trigger)
        ensures
            final(self)@ == old(self)@.triggered(trigger),
    {
        if self.triggers.len() < TRIGGER_CAPACITY {
            self.triggers.push(trigger);
        } else {
            self.sink.mark_overflow();
        }
    }

    /// Hands one batch of the watcher over.
    pub fn deliver(&mut self, batch: Vec<Event>)
        ensures
            final(self)@ == (CoordinatorView {
                sink: delivered(old(self)@.sink, event_views(batch@)),
                ..old(self)@
            }),
    {
        self.sink.deliver(batch);
    }

    /// Records that the watcher lost events.
    pub fn report_overflow(&mut self)
        ensures
            final(self)@ == (CoordinatorView { sink: overflowed(old(self)@.sink), ..old(self)@ }),
    {
        self.sink.report_overflow();
    }

    /// Which gate an explicit first index waits on, by its index. A pending or
    /// successful gate is shared; a failed one is replaced, because a first
    /// index that failed must be retryable.
    pub fn renew_first_index_gate(&mut self) -> (gate: usize)
        requires
            old(self)@.gates.len() < usize::MAX,
        ensures
            final(self)@ == old(self)@.gate_renewed(),
            gate == final(self)@.gates.len() - 1,
            !final(self)@.gates[gate as int].failed(),
    {
        let count: usize = self.gates.len();
        if count > 0 {
            assert(self@.gates.last() == self.gates@[count - 1]@);
            let failed = match self.gates[count - 1].outcome() {
                Some(Err(_)) => true,
                _ => false,
            };
            if !failed {
                return count - 1;
            }
        }
        let ghost before = self@;
        self.gates.push(InitialIndexGate::pending());
        assert(self@.gates =~= before.gates.push(GateView::fresh()));
        self.trigger(Trigger::Startup);
        count
    }

    /// The index of the current first index, where there is one.
    pub fn gate(&self) -> (gate: Option<usize>)
        ensures
            gate == if self@.gates.len() == 0 {
                None
            } else {
                Some((self@.gates.len() - 1) as usize)
            },
            gate matches Some(i) ==> i == self@.gates.len() - 1,
    {
        if self.gates.len() == 0 {
            None
        } else {
            Some(self.gates.len() - 1)
        }
    }

    /// The first index at an index that [`Coordinator::gate`] gave.
    pub fn gate_at(&self, gate: usize) -> (found: &InitialIndexGate)
        requires
            gate < self@.gates.len(),
        ensures
            found@ == self@.gates[gate as int],
    {
        &self.gates[gate]
    }

    /// Names the codebase of a first index.
    pub fn register_codebase(&mut self, gate: usize, id: String)
        requires
            gate < old(self)@.gates.len(),
        ensures
            final(self)@ == (CoordinatorView {
                gates: old(self)@.gates.update(
                    gate as int,
                    GateView { codebase_id: Some(id@), ..old(self)@.gates[gate as int] },
                ),
                ..old(self)@
            }),
    {
        let ghost before = self@;
        let mut found = self.gates.remove(gate);
        found.register_codebase(id);
        self.gates.insert(gate, found);
        assert(self@.gates =~= before.gates.update(gate as int, found@));
    }

    /// Takes responsibility for registering the codebase of a first index.
    pub fn claim_registration(&mut self, gate: usize) -> (claimed: bool)
        requires
            gate < old(self)@.gates.len(),
        ensures
            claimed == !old(self)@.gates[gate as int].registering,
            final(self)@ == (CoordinatorView {
                gates: old(self)@.gates.update(
                    gate as int,
                    GateView { registering: true, ..old(self)@.gates[gate as int] },
                ),
                ..old(self)@
            }),
    {
        let ghost before = self@;
        let mut found = self.gates.remove(gate);
        let claimed = found.claim_registration();
        self.gates.insert(gate, found);
        assert(self@.gates =~= before.gates.update(gate as int, found@));
        claimed
    }

    /// Reports how a first index ended; the first report stands.
    pub fn finish(&mut self, gate: usize, result: IndexResult)
        requires
            gate < old(self)@.gates.len(),
        ensures
            final(self)@ == (CoordinatorView {
                gates: old(self)@.gates.update(
                    gate as int,
                    old(self)@.gates[gate as int].finished(result_view(result)),
                ),
                ..old(self)@
            }),
    {
        let ghost before = self@;
        let mut found = self.gates.remove(gate);
        found.finish(result);
        self.gates.insert(gate, found);
        assert(self@.gates =~= before.gates.update(gate as int, found@));
    }

    pub fn watcher_state(&self) -> (state: WatcherState)
        ensures
            watcher_view(state) == self@.watcher,
    {
        match &self.watcher {
            WatcherState::Active => WatcherState::Active,
            WatcherState::Unavailable(reason) => WatcherState::Unavailable(
                copy_text(reason.as_str()),
            ),
        }
    }

    pub fn status(&self) -> (status: CoordinatorStatus)
        ensures
            status@ == self@.status(),
    {
        CoordinatorStatus {
            root: copy_text(self.key.root()),
            codebase_id: copy_optional(&self.codebase_id),
            leases: self.leases,
            watcher: self.watcher_state(),
            last_job_id: copy_optional(&self.last_job),
            running: self.running,
            pending_triggers: self.triggers.len(),
            trigger_overflow: self.sink.overflow(),
            last_outcome: copy_optional(&self.last_outcome),
            last_error: copy_optional(&self.last_error),
        }
    }

    /// Takes one lease.
    pub fn hold_lease(&mut self)
        requires
            old(self)@.leases < usize::MAX,
        ensures
            final(self)@ == (CoordinatorView { leases: old(self)@.leases + 1, ..old(self)@ }),
    {
        self.leases = self.leases + 1;
    }

    /// Releases one lease and records when the last one went.
    pub fn release_lease(&mut self, now: u64)
        requires
            old(self)@.leases > 0,
        ensures
            final(self)@ == (CoordinatorView {
                leases: (old(self)@.leases - 1) as nat,
                released_at: if old(self)@.leases == 1 {
                    Some(now)
                } else {
                    old(self)@.released_at
                },
                ..old(self)@
            }),
    {
        self.leases = self.leases - 1;
        if self.leases == 0 {
            self.released_at = Some(now);
        }
    }

    /// Whether no session has held this coordinator for at least `grace`.
    pub fn idle_for(&self, now: u64, grace: u64) -> (idle: bool)
        ensures
            idle == self@.idle(now, grace),
    {
        if self.leases != 0 {
            return false;
        }
        match self.released_at {
            Some(at) => {
                let elapsed: u64 = if now > at {
                    now - at
                } else {
                    0
                };
                elapsed >= grace
            },
            None => false,
        }
    }

    /// Forgets the watch of a coordinator that is being stopped.
    pub fn cancel(&mut self)
        ensures
            final(self)@ == (CoordinatorView {
                watcher: Some(cancelled_reason()),
                ..old(self)@
            }),
    {
        self.watcher = WatcherState::Unavailable(copy_text("coordinator cancelled"));
    }

    /// The periodic backstop, or nothing when the session disabled it. `root`
    /// is the checkout's path as the platform writes it.
    pub fn periodic_timer(&self, root: &[u8]) -> (timer: Option<PeriodicTimer>)
        ensures
            timer == match period_secs(self@.resync_secs, self@.watcher is None) {
                None => None,
                Some(secs) => Some(
                    PeriodicTimer {
                        period_secs: secs,
                        offset_nanos: jitter_nanos(root@, secs as nat * 1_000_000_000) as u64,
                    },
                ),
            },
    {
        let secs: u64 = match self.resync_secs {
            Some(n) => n,
            None => DEFAULT_RESYNC_SECS,
        };
        if secs == 0 {
            return None;
        }
        let period: u64 = match &self.watcher {
            WatcherState::Active => {
                if secs > u64::MAX / WATCHED_RESYNC_MULTIPLIER {
                    u64::MAX
                } else {
                    secs * WATCHED_RESYNC_MULTIPLIER
                }
            },
            WatcherState::Unavailable(_) => secs,
        };
        let nanos: u128 = period as u128 * 1_000_000_000;
        let offset: u64 = jitter(root, nanos);
        Some(PeriodicTimer { period_secs: period, offset_nanos: offset })
    }

    /// The codebase to reconcile into: `gate` is the first index that the run
    /// found. Waiting for its registration keeps the run from registering a
    /// second codebase for the same checkout.
    pub fn await_codebase(&mut self, gate: Option<usize>) -> (step: CodebaseStep)
        requires
            gate matches Some(i) ==> i < old(self)@.gates.len(),
        ensures
            step == old(self)@.codebase_step(
                match gate {
                    Some(i) => Some(i as int),
                    None => None,
                },
            ),
            final(self)@ == (CoordinatorView {
                codebase_id: old(self)@.run_codebase(
                    match gate {
                        Some(i) => Some(i as int),
                        None => None,
                    },
                ),
                ..old(self)@
            }),
    {
        if self.codebase_id.is_some() {
            return CodebaseStep::Ready;
        }
        let found = match gate {
            Some(i) => {
                assert(self@.gates[i as int] == self.gates@[i as int]@);
                self.gates[i].registered_codebase()
            },
            None => return CodebaseStep::Ready,
        };
        match found {
            Waiting::Pending => CodebaseStep::Wait,
            Waiting::Ready(id) => {
                if id.is_some() {
                    self.codebase_id = id;
                    CodebaseStep::Ready
                } else {
                    CodebaseStep::Abandon
                }
            },
        }
    }

    /// Marks the start of a reconcile.
    pub fn begin_run(&mut self)
        ensures
            final(self)@ == (CoordinatorView { running: true, ..old(self)@ }),
    {
        self.running = true;
    }

    /// Records what a reconcile did, for status and for the search footer.
    pub fn record(&mut self, trigger: Trigger, result: &Result<SyncOutcome, String>)
        ensures
            final(self)@ == old(self)@.recorded(trigger, *result),
    {
        self.running = false;
        match result {
            Ok(outcome) => {
                let mut text = copy_text(trigger.as_str());
                text.push_str(" uploaded ");
                text.push_str(decimal_text(outcome.uploaded as u64).as_str());
                text.push_str(" file(s), ");
                text.push_str(decimal_text(outcome.to_delete as u64).as_str());
                text.push_str(" to delete");
                self.last_outcome = Some(text);
                self.last_error = None;
                self.codebase_id = Some(copy_text(outcome.codebase_id.as_str()));
                let startup = match trigger {
                    Trigger::Startup => true,
                    _ => false,
                };
                if startup || outcome.uploaded > 0 || outcome.to_delete > 0 {
                    self.last_job = Some(copy_text(outcome.job_id.as_str()));
                }
            },
            Err(reason) => {
                self.last_error = Some(copy_text(reason.as_str()));
            },
        }
    }

    /// Hands a run's result to the first index that the run found, if that is
    /// still waiting for one. One run takes the report on; what it polls then
    /// finishes this gate.
    pub fn finish_gate(&mut self, gate: usize, job: Result<String, String>) -> (step: GateStep)
        requires
            gate < old(self)@.gates.len(),
        ensures
            final(self)@ == old(self)@.reported(gate as int, job),
            match step {
                GateStep::Skip => !old(self)@.may_report(gate as int),
                GateStep::Poll(id) => old(self)@.may_report(gate as int) && (job matches Ok(wanted)
                    && id@ == wanted@),
                GateStep::Failed => old(self)@.may_report(gate as int) && job is Err,
            },
    {
        let ghost before = self@;
        assert(self@.gates[gate as int] == self.gates@[gate as int]@);
        if self.gates[gate].outcome().is_some() {
            return GateStep::Skip;
        }
        let mut found = self.gates.remove(gate);
        let claimed = found.claim_poll();
        if !claimed {
            self.gates.insert(gate, found);
            assert(self@.gates =~= before.gates);
            return GateStep::Skip;
        }
        match job {
            Ok(job_id) => {
                self.gates.insert(gate, found);
                assert(self@.gates =~= before.gates.update(gate as int, found@));
                GateStep::Poll(job_id)
            },
            Err(reason) => {
                let mut message = copy_text("initial scan/upload failed: ");
                message.push_str(reason.as_str());
                found.finish(Err(message));
                self.gates.insert(gate, found);
                assert(self@.gates =~= before.gates.update(gate as int, found@));
                GateStep::Failed
            },
        }
    }

    /// One turn of the loop: everything that arrived is drained, so a burst
    /// becomes one run. `tick` says that the periodic timer fired.
    pub fn next_turn(&mut self, tick: bool) -> (turn: Turn)
        ensures
            turn@ == old(self)@.turn(tick),
            final(self)@ == old(self)@.drained(),
    {
        let ghost before = self@;
        let mut due: Option<Trigger> = if tick {
            Some(Trigger::Periodic)
        } else {
            None
        };
        if due.is_none() && self.triggers.len() > 0 {
            due = Some(self.triggers[0]);
        }
        self.triggers = Vec::new();
        let mut batches = self.sink.drain();
        let ghost all = before.sink.batches;
        let mut events: Vec<Event> = Vec::new();
        let ghost view = |b: Vec<Event>| event_views(b@);
        assert(event_views(events@) =~= Seq::<EventView>::empty());
        assert(event_views(events@) + all.flatten() =~= all.flatten());
        while batches.len() > 0
            invariant
                view == (|b: Vec<Event>| event_views(b@)),
                event_views(events@) + batches@.map_values(view).flatten() == all.flatten(),
            decreases batches@.len(),
        {
            let ghost rest = batches@.map_values(view);
            let ghost so_far = event_views(events@);
            let mut batch = batches.remove(0);
            let ghost added = event_views(batch@);
            let ghost events_before = events@;
            let ghost batch_before = batch@;
            proof {
                reveal_with_fuel(Seq::flatten, 1);
                assert(rest.first() == added);
                assert(rest.drop_first() =~= batches@.map_values(view));
                assert(rest.flatten() == added + rest.drop_first().flatten());
            }
            events.append(&mut batch);
            proof {
                assert(event_views(events@) =~= so_far + added);
                assert(event_views(events@) + rest.drop_first().flatten() =~= so_far
                    + rest.flatten());
            }
        }
        proof {
            reveal_with_fuel(Seq::flatten, 1);
            assert(batches@.map_values(view) =~= Seq::<Seq<EventView>>::empty());
            assert(event_views(events@) =~= all.flatten());
        }
        if self.sink.take_overflow() && due.is_none() {
            due = Some(Trigger::Watch);
        }
        assert(self@.triggers =~= seq![]);
        assert(self@ == before.drained());
        match due {
            Some(trigger) => Turn::Run(trigger),
            None => {
                assert(event_views(events@).len() == events@.len());
                if events.len() > 0 {
                    Turn::Judge(events)
                } else {
                    Turn::Idle
                }
            },
        }
    }
}

/// A burst of triggers costs one run: after any turn nothing is due until
/// something new arrives.
pub proof fn law_a_burst_is_one_run(coordinator: CoordinatorView)
    ensures
        coordinator.drained().turn(false) == TurnView::Idle,
        coordinator.drained().drained() == coordinator.drained(),
{
    reveal_with_fuel(Seq::flatten, 1);
}

/// A trigger is never lost quietly: however many stand before it, and even where
/// the queue is full, the next turn runs. A trigger that arrives while a run is
/// in progress therefore gets a run of its own.
pub proof fn law_a_trigger_always_runs(coordinator: CoordinatorView, trigger: Trigger, tick: bool)
    ensures
        coordinator.triggered(trigger).turn(tick) is Run,
        coordinator.drained().triggered(trigger).turn(false) == TurnView::Run(trigger),
        coordinator.triggered(trigger).status().trigger_overflow
            == coordinator.status().trigger_overflow || coordinator.triggers.len()
            >= TRIGGER_CAPACITY,
        !coordinator.drained().status().trigger_overflow,
{
}

/// Lost events make the next run unconditional.
pub proof fn law_lost_events_always_run(coordinator: CoordinatorView)
    ensures
        (CoordinatorView { sink: overflowed(coordinator.sink), ..coordinator }).turn(false) is Run,
{
}

/// A first index that failed is retryable, and no caller inherits its failure;
/// one that is pending or succeeded is shared.
pub proof fn law_first_indexes_are_shared_until_they_fail(coordinator: CoordinatorView)
    ensures
        !coordinator.gate_renewed().gates.last().failed(),
        coordinator.gate_renewed().gate_renewed() == coordinator.gate_renewed(),
        coordinator.gate_serves() ==> coordinator.gate_renewed() == coordinator,
        !coordinator.gate_serves() ==> coordinator.gate_renewed().gates.last()
            == GateView::fresh() && coordinator.gate_renewed().turn(false) is Run,
{
}

/// One run reports a first index: once a run has taken the report on, no other
/// run does, and what was reported stays.
pub proof fn law_one_run_reports_a_first_index(
    coordinator: CoordinatorView,
    gate: int,
    first: Result<String, String>,
    later: Result<String, String>,
)
    requires
        0 <= gate < coordinator.gates.len(),
    ensures
        !coordinator.reported(gate, first).may_report(gate),
        coordinator.reported(gate, first).reported(gate, later) == coordinator.reported(gate, first),
{
}

/// A coordinator that some session holds is not idle, and neither is one whose
/// last release is more recent than the grace.
pub proof fn law_held_coordinators_are_not_idle(
    coordinator: CoordinatorView,
    now: u64,
    grace: u64,
)
    ensures
        coordinator.leases > 0 ==> !coordinator.idle(now, grace),
        coordinator.released_at is None ==> !coordinator.idle(now, grace),
        (coordinator.released_at matches Some(at) && at <= now < at + grace) ==> !coordinator.idle(
            now,
            grace,
        ),
{
}

/// What a status call reports of a run that succeeded: the run's job where it was
/// the startup run or uploaded or deleted anything, whatever its trigger, and
/// otherwise the job that was reported before; the codebase that the run confirmed;
/// no error; and the number of files. Nothing else changes, and the run is over.
pub proof fn law_status_reports_the_last_meaningful_job(
    coordinator: CoordinatorView,
    trigger: Trigger,
    outcome: SyncOutcome,
)
    ensures
        ({
            let before = coordinator.status();
            let after = coordinator.recorded(trigger, Ok(outcome)).status();
            &&& outcome.uploaded > 0 ==> after.last_job_id == Some(outcome.job_id@)
            &&& outcome.to_delete > 0 ==> after.last_job_id == Some(outcome.job_id@)
            &&& trigger is Startup ==> after.last_job_id == Some(outcome.job_id@)
            &&& outcome.uploaded == 0 && outcome.to_delete == 0 && !(trigger is Startup)
                ==> after.last_job_id == before.last_job_id
            &&& after.codebase_id == Some(outcome.codebase_id@)
            &&& !after.running
            &&& after.last_error is None
            &&& after.last_outcome is Some
            &&& (match trigger {
                Trigger::Startup => "startup uploaded "@,
                Trigger::Watch => "watch uploaded "@,
                Trigger::Periodic => "periodic uploaded "@,
                Trigger::Explicit => "explicit uploaded "@,
            }) + decimal(outcome.uploaded as nat) + " file(s), "@ + decimal(
                outcome.to_delete as nat,
            ) + " to delete"@ == after.last_outcome->0
            &&& after.root == before.root
            &&& after.leases == before.leases
            &&& after.watcher == before.watcher
            &&& after.pending_triggers == before.pending_triggers
            &&& after.trigger_overflow == before.trigger_overflow
        }),
{
    reveal_strlit("startup");
    reveal_strlit("watch");
    reveal_strlit("periodic");
    reveal_strlit("explicit");
    reveal_strlit(" uploaded ");
    reveal_strlit("startup uploaded ");
    reveal_strlit("watch uploaded ");
    reveal_strlit("periodic uploaded ");
    reveal_strlit("explicit uploaded ");
    assert("startup uploaded "@ =~= "startup"@ + " uploaded "@);
    assert("watch uploaded "@ =~= "watch"@ + " uploaded "@);
    assert("periodic uploaded "@ =~= "periodic"@ + " uploaded "@);
    assert("explicit uploaded "@ =~= "explicit"@ + " uploaded "@);
}

/// A run that failed leaves what earlier runs confirmed: only its reason is new.
pub proof fn law_a_failed_run_leaves_the_last_success(
    coordinator: CoordinatorView,
    trigger: Trigger,
    reason: String,
)
    ensures
        ({
            let before = coordinator.status();
            let after = coordinator.recorded(trigger, Err(reason)).status();
            &&& after.last_error == Some(reason@)
            &&& !after.running
            &&& after.last_job_id == before.last_job_id
            &&& after.codebase_id == before.codebase_id
            &&& after.last_outcome == before.last_outcome
            &&& after.leases == before.leases
            &&& after.watcher == before.watcher
            &&& after.pending_triggers == before.pending_triggers
        }),
{
}

/// A status call reports the checkout itself: its own root, what it is filed under,
/// who holds it, whether it is watched and runs, and how much is waiting.
pub proof fn law_a_status_is_that_of_its_checkout(coordinator: CoordinatorView)
    ensures
        coordinator.status().root == coordinator.key.root,
        coordinator.status().codebase_id == coordinator.codebase_id,
        coordinator.status().leases == coordinator.leases,
        coordinator.status().watcher == coordinator.watcher,
        coordinator.status().last_job_id == coordinator.last_job,
        coordinator.status().running == coordinator.running,
        coordinator.status().pending_triggers == coordinator.triggers.len(),
        coordinator.status().trigger_overflow == coordinator.sink.overflow,
        coordinator.status().last_outcome == coordinator.last_outcome,
        coordinator.status().last_error == coordinator.last_error,
{
}

/// A turn loses no event: where nothing else is due, all events that arrived are
/// judged, in the order in which they came, and the loop is idle only where there
/// are none. The tick comes before the queue, and the first of the queue before
/// what was dropped.
pub proof fn law_a_turn_loses_no_event(coordinator: CoordinatorView)
    ensures
        coordinator.turn(true) == TurnView::Run(Trigger::Periodic),
        coordinator.triggers.len() > 0 ==> coordinator.turn(false) == TurnView::Run(
            coordinator.triggers[0],
        ),
        coordinator.triggers.len() == 0 && coordinator.sink.overflow ==> coordinator.turn(false)
            == TurnView::Run(Trigger::Watch),
        coordinator.triggers.len() == 0 && !coordinator.sink.overflow ==> coordinator.turn(false)
            == if coordinator.sink.batches.flatten().len() == 0 {
            TurnView::Idle
        } else {
            TurnView::Judge(coordinator.sink.batches.flatten())
        },
        coordinator.drained().triggers.len() == 0,
        coordinator.drained().sink.batches.len() == 0,
        !coordinator.drained().sink.overflow,
        coordinator.drained().leases == coordinator.leases,
        coordinator.drained().last_job == coordinator.last_job,
        coordinator.drained().gates == coordinator.gates,
        coordinator.drained().codebase_id == coordinator.codebase_id,
{
}

/// A trigger waits behind those that are queued, of which there are at most 64, and
/// changes nothing else. Only where the queue is full is it counted as dropped.
pub proof fn law_triggers_queue_up(coordinator: CoordinatorView, trigger: Trigger)
    ensures
        ({
            let after = coordinator.triggered(trigger);
            &&& coordinator.triggers.len() < 64 ==> {
                &&& after.triggers.len() == coordinator.triggers.len() + 1
                &&& after.triggers.last() == trigger
                &&& after.triggers.drop_last() == coordinator.triggers
                &&& after.sink == coordinator.sink
            }
            &&& coordinator.triggers.len() >= 64 ==> {
                &&& after.triggers == coordinator.triggers
                &&& after.sink.overflow
                &&& after.sink.batches == coordinator.sink.batches
            }
            &&& after.leases == coordinator.leases
            &&& after.gates == coordinator.gates
            &&& after.last_job == coordinator.last_job
            &&& after.running == coordinator.running
        }),
{
    let after = coordinator.triggered(trigger);
    if coordinator.triggers.len() < 64 {
        assert(after.triggers.drop_last() =~= coordinator.triggers);
    }
}

/// A coordinator that nobody holds becomes idle once the grace has passed since its
/// last release, and stays so.
pub proof fn law_released_coordinators_become_idle(
    coordinator: CoordinatorView,
    released: u64,
    now: u64,
    later: u64,
    grace: u64,
)
    requires
        coordinator.leases == 0,
        coordinator.released_at == Some(released),
        released + grace <= now <= later,
    ensures
        coordinator.idle(now, grace),
        coordinator.idle(later, grace),
{
}

/// The periodic backstop ticks at the session's interval, and a fifth as often
/// beside a watcher; the interval is a minute where the session says nothing, and
/// zero turns the backstop off. A tick is offset by less than one interval.
pub proof fn law_the_backstop_is_slower_beside_a_watcher(secs: u64, root: Seq<u8>, nanos: nat)
    ensures
        period_secs(None, false) == Some(60u64),
        period_secs(None, true) == Some(300u64),
        period_secs(Some(0), true) is None,
        period_secs(Some(0), false) is None,
        secs > 0 ==> period_secs(Some(secs), false) == Some(secs),
        secs > 0 && 5 * secs <= u64::MAX ==> period_secs(Some(secs), true) == Some(
            (5 * secs) as u64,
        ),
        secs > 0 && 5 * secs > u64::MAX ==> period_secs(Some(secs), true) == Some(u64::MAX),
        nanos > 0 ==> jitter_nanos(root, nanos) < nanos,
{
    let fraction = little_endian(blake3_digest(root).take(8)) % 1000;
    if nanos > 0 {
        assert(nanos * fraction / 1000 < nanos) by (nonlinear_arith)
            requires
                fraction < 1000,
                nanos > 0,
        ;
    }
}

/// What ends a first index: an error of its job, or that the job is over, which is a
/// failure where files failed. The reason names the job.
pub proof fn law_how_a_first_index_ends(job_id: Seq<char>, job: JobStatus)
    ensures
        job.error is None && job.completed_at is None <==> job_result(job_id, job) is None,
        job.error is None && job.completed_at is Some && job.files_failed <= 0 <==> job_result(
            job_id,
            job,
        ) == Some(Ok::<(), Seq<char>>(())),
        job.error matches Some(error) ==> job_result(job_id, job) == Some(
            Err::<(), Seq<char>>("embedding job "@ + job_id + " failed: "@ + error@),
        ),
        job.error is None && job.completed_at is Some && job.files_failed > 0 ==> job_result(
            job_id,
            job,
        ) == Some(
            Err::<(), Seq<char>>(
                "embedding job "@ + job_id + " completed with "@ + decimal(job.files_failed as nat)
                    + " failed file(s)"@,
            ),
        ),
{
}

/// A run that found a first index waits until that has named its codebase, unless
/// the checkout has one already; it gives up where the first index ended without
/// one; and it reconciles into the codebase that it waited for.
pub proof fn law_a_run_takes_the_codebase_of_its_first_index(
    coordinator: CoordinatorView,
    gate: int,
)
    requires
        0 <= gate < coordinator.gates.len(),
    ensures
        coordinator.codebase_id is Some ==> coordinator.codebase_step(Some(gate))
            == CodebaseStep::Ready && coordinator.run_codebase(Some(gate))
            == coordinator.codebase_id,
        coordinator.codebase_id is None && coordinator.gates[gate].codebase_id is Some
            ==> coordinator.codebase_step(Some(gate)) == CodebaseStep::Ready
            && coordinator.run_codebase(Some(gate)) == coordinator.gates[gate].codebase_id,
        coordinator.codebase_id is None && coordinator.gates[gate].codebase_id is None
            ==> coordinator.codebase_step(Some(gate)) == if coordinator.gates[gate].result is Some {
            CodebaseStep::Abandon
        } else {
            CodebaseStep::Wait
        },
        coordinator.codebase_step(None) == CodebaseStep::Ready,
        coordinator.run_codebase(None) == coordinator.codebase_id,
{
}

/// What a run's result does to the first index that it found: a failed run ends it
/// with the run's reason, a run with a job leaves it open for the job to end, and no
/// other first index changes.
pub proof fn law_a_failed_run_ends_its_first_index(
    coordinator: CoordinatorView,
    gate: int,
    other: int,
    job_id: String,
    reason: String,
)
    requires
        0 <= gate < coordinator.gates.len(),
        0 <= other < coordinator.gates.len(),
        coordinator.gates[gate].result is None,
        !coordinator.gates[gate].polling,
    ensures
        coordinator.reported(gate, Err(reason)).gates[gate].result == Some(
            Err::<(), Seq<char>>("initial scan/upload failed: "@ + reason@),
        ),
        coordinator.reported(gate, Ok(job_id)).gates[gate].result is None,
        coordinator.reported(gate, Ok(job_id)).gates[gate].polling,
        other != gate ==> coordinator.reported(gate, Err(reason)).gates[other]
            == coordinator.gates[other] && coordinator.reported(gate, Ok(job_id)).gates[other]
            == coordinator.gates[other],
{
}

/// The status line says each thing in its place: it begins with the root, and each
/// of the others stands behind its own word.
pub proof fn law_a_status_line_says_everything(status: StatusView)
    ensures
        ({
            let codebase = match status.codebase_id {
                Some(id) => id,
                None => "(unbound)"@,
            };
            let watcher = match status.watcher {
                Some(reason) => reason,
                None => "active"@,
            };
            let job = match status.last_job_id {
                Some(id) => id,
                None => "(none)"@,
            };
            let outcome = match status.last_outcome {
                Some(text) => text,
                None => "(none)"@,
            };
            let error = match status.last_error {
                Some(text) => text,
                None => "(none)"@,
            };
            status_line(status) == seq![
                "root "@ + status.root,
                " codebase "@ + codebase,
                " leases "@ + decimal(status.leases),
                " watcher "@ + watcher,
                " job "@ + job,
                if status.running { " running true"@ } else { " running false"@ },
                " pending "@ + decimal(status.pending_triggers),
                if status.trigger_overflow { " (overflowed)"@ } else { ""@ },
                " outcome "@ + outcome,
                " error "@ + error,
            ].flatten()
        }),
{
    reveal_strlit("");
    reveal_strlit(" running ");
    reveal_strlit("true");
    reveal_strlit("false");
    reveal_strlit(" running true");
    reveal_strlit(" running false");
    assert(" running true"@ =~= " running "@ + "true"@);
    assert(" running false"@ =~= " running "@ + "false"@);
    let parts = seq![
        "root "@ + status.root,
        " codebase "@ + text_or(status.codebase_id, "(unbound)"@),
        " leases "@ + decimal(status.leases),
        " watcher "@ + text_or(status.watcher, "active"@),
        " job "@ + text_or(status.last_job_id, "(none)"@),
        " running "@ + bool_name(status.running),
        " pending "@ + decimal(status.pending_triggers),
        if status.trigger_overflow { " (overflowed)"@ } else { ""@ },
        " outcome "@ + text_or(status.last_outcome, "(none)"@),
        " error "@ + text_or(status.last_error, "(none)"@),
    ];
    crate::text::lemma_ten_parts(
        parts[0],
        parts[1],
        parts[2],
        parts[3],
        parts[4],
        parts[5],
        parts[6],
        parts[7],
        parts[8],
        parts[9],
    );
    let (p0, p1, p2, p3, p4) = (parts[0], parts[1], parts[2], parts[3], parts[4]);
    let (p5, p6, p7, p8) = (parts[5], parts[6], parts[7], parts[8]);
    lemma_in_a_row(p0, " codebase "@, text_or(status.codebase_id, "(unbound)"@));
    lemma_in_a_row(p0 + p1, " leases "@, decimal(status.leases));
    lemma_in_a_row(p0 + p1 + p2, " watcher "@, text_or(status.watcher, "active"@));
    lemma_in_a_row(p0 + p1 + p2 + p3, " job "@, text_or(status.last_job_id, "(none)"@));
    lemma_in_a_row(p0 + p1 + p2 + p3 + p4, " running "@, bool_name(status.running));
    lemma_in_a_row(p0 + p1 + p2 + p3 + p4 + p5, " pending "@, decimal(status.pending_triggers));
    lemma_in_a_row(
        p0 + p1 + p2 + p3 + p4 + p5 + p6 + p7,
        " outcome "@,
        text_or(status.last_outcome, "(none)"@),
    );
    lemma_in_a_row(
        p0 + p1 + p2 + p3 + p4 + p5 + p6 + p7 + p8,
        " error "@,
        text_or(status.last_error, "(none)"@),
    );
}

/// The number that bytes stand for, the lowest byte first: one more byte in front
/// adds itself and makes the rest count 256 times.
pub proof fn law_the_lowest_byte_comes_first(first: u8, rest: Seq<u8>)
    ensures
        little_endian(seq![]) == 0,
        little_endian(seq![first] + rest) == first + 256 * little_endian(rest),
{
    assert((seq![first] + rest).drop_first() =~= rest);
}

/// The offset of a checkout's timer: as many thousandths of the interval as the first
/// eight bytes of the digest of its root say. It stays below the interval.
pub proof fn law_the_offset_is_a_part_of_the_interval(root: Seq<u8>, interval_nanos: nat)
    ensures
        ({
            let part = little_endian(blake3_digest(root).subrange(0, 8)) % 1000;
            let offset = interval_nanos * part / 1000;
            &&& offset <= u64::MAX ==> jitter_nanos(root, interval_nanos) == offset
            &&& offset > u64::MAX ==> jitter_nanos(root, interval_nanos) == u64::MAX
        }),
        interval_nanos > 0 ==> jitter_nanos(root, interval_nanos) < interval_nanos,
{
    let part = little_endian(blake3_digest(root).take(8)) % 1000;
    assert(blake3_digest(root).subrange(0, 8) == blake3_digest(root).take(8));
    assert(interval_nanos > 0 ==> interval_nanos * part / 1000 < interval_nanos)
        by (nonlinear_arith)
        requires
            part < 1000,
            interval_nanos >= 0,
    ;
}

/// A new coordinator has run nothing and holds nothing: no job, no outcome, no
/// error, no lease and nothing that is due. It has a first index exactly where it is
/// asked for.
pub proof fn law_a_new_coordinator_has_done_nothing(
    key: KeyView,
    codebase_id: Option<Seq<char>>,
    watcher: Option<Seq<char>>,
    first_index: bool,
    resync_secs: Option<u64>,
)
    ensures
        ({
            let fresh = CoordinatorView::fresh(
                key,
                codebase_id,
                watcher,
                first_index,
                resync_secs,
            );
            &&& fresh.key == key && fresh.codebase_id == codebase_id && fresh.watcher == watcher
            &&& fresh.last_job is None && fresh.last_outcome is None && fresh.last_error is None
            &&& !fresh.running && fresh.leases == 0 && fresh.released_at is None
            &&& fresh.resync_secs == resync_secs
            &&& fresh.gates.len() == (if first_index { 1int } else { 0 })
            &&& fresh.gates.len() > 0 ==> fresh.gates[0].codebase_id is None
                && fresh.gates[0].result is None && !fresh.gates[0].polling
            &&& fresh.turn(false) == TurnView::Idle
            &&& fresh.turn(true) == TurnView::Run(Trigger::Periodic)
            &&& fresh.sink.capacity == 64 && !fresh.sink.overflow
        }),
{
    assert(Seq::<Seq<EventView>>::empty().flatten().len() == 0);
}

/// A call of `record` after a run that uploaded or deletes something, or was the first
/// one, makes its job the last one; after any other run the last job stays. A run
/// that failed only leaves its reason.
pub proof fn law_recording_keeps_the_last_meaningful_job(
    coordinator: &mut Coordinator,
    trigger: Trigger,
    result: &Result<SyncOutcome, String>,
)
    requires
        call_ensures(Coordinator::record, (coordinator, trigger, result), ()),
    ensures
        result matches Ok(outcome) ==> {
            let meaningful = outcome.uploaded > 0 || outcome.to_delete > 0 || trigger
                == Trigger::Startup;
            &&& meaningful ==> final(coordinator)@.last_job == Some(outcome.job_id@)
            &&& !meaningful ==> final(coordinator)@.last_job == old(coordinator)@.last_job
            &&& final(coordinator)@.codebase_id == Some(outcome.codebase_id@)
            &&& final(coordinator)@.last_error is None
        },
        result matches Err(reason) ==> {
            &&& final(coordinator)@.last_error == Some(reason@)
            &&& final(coordinator)@.last_job == old(coordinator)@.last_job
            &&& final(coordinator)@.codebase_id == old(coordinator)@.codebase_id
            &&& final(coordinator)@.last_outcome == old(coordinator)@.last_outcome
        },
        !final(coordinator)@.running,
        final(coordinator)@.gates == old(coordinator)@.gates,
        final(coordinator)@.triggers == old(coordinator)@.triggers,
        final(coordinator)@.sink == old(coordinator)@.sink,
        final(coordinator)@.leases == old(coordinator)@.leases,
        final(coordinator)@.watcher == old(coordinator)@.watcher,
        final(coordinator)@.key == old(coordinator)@.key,
{
}

/// A trigger is queued, up to 64 of them, and noted as an overflow beyond; a finished
/// poll tells how the embedding job ended, or that it could not be asked.
pub proof fn law_triggers_and_polls_are_told(
    coordinator: &mut Coordinator,
    trigger: Trigger,
    job_id: &str,
    reply: &Result<JobStatus, String>,
    result: Option<IndexResult>,
    shown: &Coordinator,
    status: CoordinatorStatus,
)
    requires
        call_ensures(Coordinator::trigger, (coordinator, trigger), ()),
        call_ensures(poll_initial_job, (job_id, reply), result),
        call_ensures(Coordinator::status, (shown,), status),
    ensures
        old(coordinator)@.triggers.len() < 64 ==> final(coordinator)@ == (CoordinatorView {
            triggers: old(coordinator)@.triggers.push(trigger),
            ..old(coordinator)@
        }),
        old(coordinator)@.triggers.len() >= 64 ==> final(coordinator)@.sink.overflow && final(coordinator)@.triggers == old(coordinator)@.triggers,
        reply matches Err(e) ==> (result matches Some(Err(reason)) && reason@
            == "poll initial index job "@ + job_id@ + ": "@ + e@),
        reply matches Ok(job) ==> {
            &&& job.error is None && job.completed_at is None ==> result is None
            &&& job.error is None && job.completed_at is Some && job.files_failed <= 0 ==> (
            result matches Some(Ok(_)))
            &&& job.error is Some || (job.completed_at is Some && job.files_failed > 0) ==> (
            result matches Some(Err(_)))
        },
        status@ == shown@.status(),
{
}

/// A turn hands out what is due and leaves nothing behind: the tick first, then the
/// first trigger, then an overflow, and otherwise all events that wait, in their order.
pub proof fn law_a_turn_hands_out_what_is_due(coordinator: &mut Coordinator, tick: bool, turn: Turn)
    requires
        call_ensures(Coordinator::next_turn, (coordinator, tick), turn),
    ensures
        ({
            let before = old(coordinator)@;
            let events = before.sink.batches.flatten();
            &&& tick ==> turn == Turn::Run(Trigger::Periodic)
            &&& !tick && before.triggers.len() > 0 ==> turn == Turn::Run(before.triggers[0])
            &&& !tick && before.triggers.len() == 0 && before.sink.overflow ==> turn == Turn::Run(
                Trigger::Watch,
            )
            &&& !tick && before.triggers.len() == 0 && !before.sink.overflow && events.len() > 0
                ==> (turn matches Turn::Judge(list) && Seq::new(list@.len(), |i: int| list@[i]@)
                == events)
            &&& !tick && before.triggers.len() == 0 && !before.sink.overflow && events.len() == 0
                ==> turn is Idle
        }),
        final(coordinator)@.triggers.len() == 0,
        final(coordinator)@.sink.batches.len() == 0,
        !final(coordinator)@.sink.overflow,
        final(coordinator)@.leases == old(coordinator)@.leases,
        final(coordinator)@.last_job == old(coordinator)@.last_job,
{
    if turn is Judge {
        let list = turn->Judge_0;
        assert(event_views(list@) =~= Seq::new(list@.len(), |i: int| list@[i]@));
    }
}

/// A lease is held and released one at a time, and a checkout is idle once none is held
/// for the grace.
pub proof fn law_leases_are_counted(
    held: &mut Coordinator,
    released: &mut Coordinator,
    now: u64,
    grace: u64,
    shown: &Coordinator,
    idle: bool,
)
    requires
        call_ensures(Coordinator::hold_lease, (held,), ()),
        call_ensures(Coordinator::release_lease, (released, now), ()),
        call_ensures(Coordinator::idle_for, (shown, now, grace), idle),
        old(released)@.leases > 0,
    ensures
        final(held)@ == (CoordinatorView { leases: old(held)@.leases + 1, ..old(held)@ }),
        final(released)@.leases == old(released)@.leases - 1,
        old(released)@.leases == 1 ==> final(released)@.released_at == Some(now),
        old(released)@.leases > 1 ==> final(released)@.released_at == old(released)@.released_at,
        shown@.leases > 0 ==> !idle,
        shown@.leases == 0 ==> (shown@.released_at matches Some(at) && now >= at ==> idle == (now
            - shown@.released_at->0 >= grace)),
{
}

/// The timer of a checkout: every sixty seconds, or as often as is set and never for
/// zero; five times as slow beside a watcher.
pub proof fn law_how_often_a_checkout_is_looked_at(
    coordinator: &Coordinator,
    root: &[u8],
    timer: Option<PeriodicTimer>,
)
    requires
        call_ensures(Coordinator::periodic_timer, (coordinator, root), timer),
    ensures
        ({
            let secs = if coordinator@.resync_secs is Some {
                coordinator@.resync_secs->0
            } else {
                60
            };
            &&& secs == 0 ==> timer is None
            &&& secs > 0 && coordinator@.watcher is Some ==> (timer matches Some(t)
                && t.period_secs == secs)
            &&& secs > 0 && coordinator@.watcher is None && 5 * secs <= u64::MAX ==> (
            timer matches Some(t) && t.period_secs == 5 * secs)
            &&& timer matches Some(t) ==> t.offset_nanos == jitter_nanos(
                root@,
                (timer->0.period_secs * 1000000000) as nat,
            )
        }),
{
}

/// The result of a run goes to its first index once: a job is polled, a failure ends it,
/// and one that has its result or is polled for is left alone.
pub proof fn law_a_first_index_is_reported_once(
    coordinator: &mut Coordinator,
    gate: usize,
    job: Result<String, String>,
    step: GateStep,
)
    requires
        call_ensures(Coordinator::finish_gate, (coordinator, gate, job), step),
        gate < old(coordinator)@.gates.len(),
    ensures
        ({
            let before = old(coordinator)@.gates[gate as int];
            let after = final(coordinator)@.gates[gate as int];
            let open = before.result is None && !before.polling;
            &&& !open ==> step is Skip && final(coordinator)@ == old(coordinator)@
            &&& open && job is Ok ==> (step matches GateStep::Poll(id) && id@ == job->Ok_0@)
                && after.polling && after.result is None
            &&& open && job is Err ==> step is Failed && after.result == Some(
                Err::<(), Seq<char>>("initial scan/upload failed: "@ + job->Err_0@),
            )
        }),
{
}

} // verus!
