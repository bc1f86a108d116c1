//! The loop that reconciles one checkout.
//!
//! The outside work is done by the caller: it takes the action that the loop
//! asks for and reports how it went. The loop decides what is due, waits for a
//! first index to name its codebase, and hands each result to the coordinator.

use vstd::prelude::*;

use crate::engine::coordinator::{
    CodebaseStep, Coordinator, CoordinatorView, GateStep, Trigger, Turn, TurnView, WatcherState,
};
use crate::engine::watch_hub::{event_views, Event, EventView};
use crate::sync::SyncOutcome;
use crate::text::optional;

verus! {

/// What the loop asks for.
pub enum LoopAction {
    /// Wait for a trigger, for events or for the periodic timer.
    Wait,
    /// Find out whether one of these events matters to the source policy.
    Judge(Vec<Event>),
    /// Wait until this first index names its codebase or ends.
    AwaitGate(usize),
    /// Reconcile into this codebase; without one the sync finds its own.
    Reconcile { codebase_id: Option<String> },
    /// Watch every rule directory that the current policy names, so that a later
    /// edit to such a rule is heard.
    RefreshWatches,
    /// The event does not fit what the loop waits for: nothing has changed.
    OutOfOrder,
}

/// An action by what it carries.
pub enum LoopActionView {
    Wait,
    Judge(Seq<EventView>),
    AwaitGate(int),
    Reconcile { codebase_id: Option<Seq<char>> },
    RefreshWatches,
    OutOfOrder,
}

impl View for LoopAction {
    type V = LoopActionView;

    open spec fn view(&self) -> LoopActionView {
        match *self {
            LoopAction::Wait => LoopActionView::Wait,
            LoopAction::Judge(events) => LoopActionView::Judge(event_views(events@)),
            LoopAction::AwaitGate(gate) => LoopActionView::AwaitGate(gate as int),
            LoopAction::Reconcile { codebase_id } => LoopActionView::Reconcile {
                codebase_id: optional(codebase_id),
            },
            LoopAction::RefreshWatches => LoopActionView::RefreshWatches,
            LoopAction::OutOfOrder => LoopActionView::OutOfOrder,
        }
    }
}

/// A job whose end is the end of a first index. It is polled beside the loop,
/// which stays free for the edits that are made meanwhile.
pub struct GatePoll {
    pub gate: usize,
    pub job_id: String,
}

/// What the loop learned.
pub enum LoopEvent {
    /// Something arrived: `tick` says that the periodic timer fired, and
    /// `watch_ended` that no more events come.
    Woken { tick: bool, watch_ended: bool },
    /// Whether the events matter.
    Judged(bool),
    /// The first index named its codebase or ended.
    Named,
    /// The reconcile ended.
    Reconciled(Result<SyncOutcome, String>),
    /// The rule directories are watched.
    Refreshed,
}

/// What the loop waits for.
#[derive(Clone, Copy, Debug, PartialEq, Eq, Structural)]
pub enum LoopStage {
    Waiting,
    Judging,
    AwaitingCodebase,
    Reconciling,
    Refreshing,
}

/// The loop of one checkout.
pub struct ReconcileLoop {
    stage: LoopStage,
    /// Events still come.
    watching: bool,
    /// Why the current run is due.
    trigger: Trigger,
    /// The first index that the current run found. It is read before the run, so
    /// one that is installed meanwhile is reported by the run that it queued.
    gate: Option<usize>,
}

pub struct LoopView {
    pub stage: LoopStage,
    pub watching: bool,
    pub trigger: Trigger,
    pub gate: Option<int>,
}

pub open spec fn gate_number(gate: Option<usize>) -> Option<int> {
    match gate {
        Some(i) => Some(i as int),
        None => None,
    }
}

impl View for ReconcileLoop {
    type V = LoopView;

    closed spec fn view(&self) -> LoopView {
        LoopView {
            stage: self.stage,
            watching: self.watching,
            trigger: self.trigger,
            gate: gate_number(self.gate),
        }
    }
}

/// Whether a loop is that of a coordinator: the first index of its run is one of
/// the coordinator's. First indexes are only ever added.
pub open spec fn loop_is_valid(state: LoopView, coordinator: CoordinatorView) -> bool {
    &&& state.gate matches Some(i) ==> 0 <= i < coordinator.gates.len()
    &&& state.stage == LoopStage::AwaitingCodebase ==> state.gate is Some
}

/// The first index that a run finds.
pub open spec fn found_gate(coordinator: CoordinatorView) -> Option<int> {
    if coordinator.gates.len() == 0 {
        None
    } else {
        Some(coordinator.gates.len() - 1)
    }
}

/// How a run goes on that has found its first index.
pub open spec fn entered(state: LoopView, coordinator: CoordinatorView) -> (
    LoopView,
    CoordinatorView,
    LoopActionView,
) {
    let named = CoordinatorView {
        codebase_id: coordinator.run_codebase(state.gate),
        ..coordinator
    };
    match coordinator.codebase_step(state.gate) {
        CodebaseStep::Ready => (
            LoopView { stage: LoopStage::Reconciling, ..state },
            CoordinatorView { running: true, ..named },
            LoopActionView::Reconcile { codebase_id: named.codebase_id },
        ),
        CodebaseStep::Wait => (
            LoopView { stage: LoopStage::AwaitingCodebase, ..state },
            named,
            LoopActionView::AwaitGate(state.gate->0),
        ),
        CodebaseStep::Abandon => {
            let (next, action) = left(state, named);
            (next, named, action)
        },
    }
}

/// How a run begins.
pub open spec fn begun(state: LoopView, coordinator: CoordinatorView, trigger: Trigger) -> (
    LoopView,
    CoordinatorView,
    LoopActionView,
) {
    entered((LoopView { trigger, gate: found_gate(coordinator), ..state }), coordinator)
}

/// What follows a run.
pub open spec fn left(state: LoopView, coordinator: CoordinatorView) -> (LoopView, LoopActionView) {
    if state.watching && coordinator.watcher is None {
        (LoopView { stage: LoopStage::Refreshing, ..state }, LoopActionView::RefreshWatches)
    } else {
        (LoopView { stage: LoopStage::Waiting, ..state }, LoopActionView::Wait)
    }
}

/// The job of a result, or why there is none.
pub open spec fn job_of(result: Result<SyncOutcome, String>) -> Result<String, String> {
    match result {
        Ok(outcome) => Ok(outcome.job_id),
        Err(reason) => Err(reason),
    }
}

/// What a result leaves: it is recorded, and the first index that the run found
/// is told of it.
pub open spec fn settled(
    state: LoopView,
    coordinator: CoordinatorView,
    result: Result<SyncOutcome, String>,
) -> CoordinatorView {
    let recorded = coordinator.recorded(state.trigger, result);
    match state.gate {
        Some(gate) => recorded.reported(gate, job_of(result)),
        None => recorded,
    }
}

/// The job that is polled for the first index of a run.
pub open spec fn polled(
    state: LoopView,
    coordinator: CoordinatorView,
    result: Result<SyncOutcome, String>,
) -> Option<(int, Seq<char>)> {
    match (state.gate, result) {
        (Some(gate), Ok(outcome)) => if coordinator.may_report(gate) {
            Some((gate, outcome.job_id@))
        } else {
            None
        },
        _ => None,
    }
}

/// What follows an event: the loop and the coordinator afterwards, and the
/// action that is asked for.
pub open spec fn loop_step(state: LoopView, coordinator: CoordinatorView, event: LoopEvent) -> (
    LoopView,
    CoordinatorView,
    LoopActionView,
) {
    match (state.stage, event) {
        (LoopStage::Waiting, LoopEvent::Woken { tick, watch_ended }) => {
            let awake = LoopView { watching: state.watching && !watch_ended, ..state };
            let drained = coordinator.drained();
            match coordinator.turn(tick) {
                TurnView::Idle => (awake, drained, LoopActionView::Wait),
                TurnView::Run(trigger) => begun(awake, drained, trigger),
                TurnView::Judge(events) => (
                    LoopView { stage: LoopStage::Judging, ..awake },
                    drained,
                    LoopActionView::Judge(events),
                ),
            }
        },
        (LoopStage::Judging, LoopEvent::Judged(relevant)) => if relevant {
            begun(state, coordinator, Trigger::Watch)
        } else {
            (
                LoopView { stage: LoopStage::Waiting, ..state },
                coordinator,
                LoopActionView::Wait,
            )
        },
        (LoopStage::AwaitingCodebase, LoopEvent::Named) => entered(state, coordinator),
        (LoopStage::Reconciling, LoopEvent::Reconciled(result)) => {
            let after = settled(state, coordinator, result);
            let (next, action) = left(state, after);
            (next, after, action)
        },
        (LoopStage::Refreshing, LoopEvent::Refreshed) => (
            LoopView { stage: LoopStage::Waiting, ..state },
            coordinator,
            LoopActionView::Wait,
        ),
        _ => (state, coordinator, LoopActionView::OutOfOrder),
    }
}

/// The poll that an event starts beside the loop.
pub open spec fn loop_poll(state: LoopView, coordinator: CoordinatorView, event: LoopEvent) -> Option<
    (int, Seq<char>),
> {
    match (state.stage, event) {
        (LoopStage::Reconciling, LoopEvent::Reconciled(result)) => polled(
            state,
            coordinator,
            result,
        ),
        _ => None,
    }
}

pub open spec fn poll_view(poll: Option<GatePoll>) -> Option<(int, Seq<char>)> {
    match poll {
        Some(p) => Some((p.gate as int, p.job_id@)),
        None => None,
    }
}

impl ReconcileLoop {
    /// The loop of a coordinator. It first asks for [`LoopAction::Wait`].
    pub fn new(coordinator: &Coordinator) -> (state: ReconcileLoop)
        ensures
            state@ == (LoopView {
                stage: LoopStage::Waiting,
                watching: coordinator@.watcher is None,
                trigger: Trigger::Startup,
                gate: None,
            }),
            loop_is_valid(state@, coordinator@),
    {
        let watching = match coordinator.watcher_state() {
            WatcherState::Active => true,
            WatcherState::Unavailable(_) => false,
        };
        ReconcileLoop {
            stage: LoopStage::Waiting,
            watching,
            trigger: Trigger::Startup,
            gate: None,
        }
    }

    fn begin(&mut self, coordinator: &mut Coordinator, trigger: Trigger) -> (action: LoopAction)
        ensures
            begun(old(self)@, old(coordinator)@, trigger) == (
                final(self)@,
                final(coordinator)@,
                action@,
            ),
            loop_is_valid(final(self)@, final(coordinator)@),
    {
        self.trigger = trigger;
        self.gate = coordinator.gate();
        self.enter(coordinator)
    }

    fn enter(&mut self, coordinator: &mut Coordinator) -> (action: LoopAction)
        requires
            old(self)@.gate matches Some(i) ==> 0 <= i < old(coordinator)@.gates.len(),
        ensures
            entered(old(self)@, old(coordinator)@) == (
                final(self)@,
                final(coordinator)@,
                action@,
            ),
            loop_is_valid(final(self)@, final(coordinator)@),
    {
        match coordinator.await_codebase(self.gate) {
            CodebaseStep::Ready => {
                coordinator.begin_run();
                self.stage = LoopStage::Reconciling;
                LoopAction::Reconcile { codebase_id: coordinator.codebase_id() }
            },
            CodebaseStep::Wait => {
                self.stage = LoopStage::AwaitingCodebase;
                match self.gate {
                    Some(gate) => LoopAction::AwaitGate(gate),
                    None => LoopAction::Wait,
                }
            },
            CodebaseStep::Abandon => self.leave(coordinator),
        }
    }

    fn leave(&mut self, coordinator: &Coordinator) -> (action: LoopAction)
        ensures
            left(old(self)@, coordinator@) == (final(self)@, action@),
    {
        let active = match coordinator.watcher_state() {
            WatcherState::Active => true,
            WatcherState::Unavailable(_) => false,
        };
        if self.watching && active {
            self.stage = LoopStage::Refreshing;
            LoopAction::RefreshWatches
        } else {
            self.stage = LoopStage::Waiting;
            LoopAction::Wait
        }
    }

    /// Takes what the last action learned and gives the next one. Where a first
    /// index now waits for a job, that job is to be polled beside the loop.
    pub fn step(&mut self, coordinator: &mut Coordinator, event: LoopEvent) -> (next: (
        LoopAction,
        Option<GatePoll>,
    ))
        requires
            loop_is_valid(old(self)@, old(coordinator)@),
        ensures
            loop_step(old(self)@, old(coordinator)@, event) == (
                final(self)@,
                final(coordinator)@,
                next.0@,
            ),
            poll_view(next.1) == loop_poll(old(self)@, old(coordinator)@, event),
            loop_is_valid(final(self)@, final(coordinator)@),
    {
        match (self.stage, event) {
            (LoopStage::Waiting, LoopEvent::Woken { tick, watch_ended }) => {
                if watch_ended {
                    self.watching = false;
                }
                match coordinator.next_turn(tick) {
                    Turn::Idle => (LoopAction::Wait, None),
                    Turn::Run(trigger) => (self.begin(coordinator, trigger), None),
                    Turn::Judge(events) => {
                        self.stage = LoopStage::Judging;
                        (LoopAction::Judge(events), None)
                    },
                }
            },
            (LoopStage::Judging, LoopEvent::Judged(relevant)) => {
                if relevant {
                    (self.begin(coordinator, Trigger::Watch), None)
                } else {
                    self.stage = LoopStage::Waiting;
                    (LoopAction::Wait, None)
                }
            },
            (LoopStage::AwaitingCodebase, LoopEvent::Named) => (self.enter(coordinator), None),
            (LoopStage::Reconciling, LoopEvent::Reconciled(result)) => {
                coordinator.record(self.trigger, &result);
                let job = match result {
                    Ok(outcome) => Ok(outcome.job_id),
                    Err(reason) => Err(reason),
                };
                let poll = match self.gate {
                    Some(gate) => match coordinator.finish_gate(gate, job) {
                        GateStep::Poll(job_id) => Some(GatePoll { gate, job_id }),
                        _ => None,
                    },
                    None => None,
                };
                (self.leave(coordinator), poll)
            },
            (LoopStage::Refreshing, LoopEvent::Refreshed) => {
                self.stage = LoopStage::Waiting;
                (LoopAction::Wait, None)
            },
            _ => (LoopAction::OutOfOrder, None),
        }
    }
}

/// Whatever is due when the loop wakes is run: it reconciles at once or once the
/// first index that it found names a codebase, and only a first index that ended
/// without one leaves nothing to do. Nothing stays queued.
pub proof fn law_what_is_due_is_run(
    state: LoopView,
    coordinator: CoordinatorView,
    tick: bool,
    watch_ended: bool,
)
    requires
        state.stage == LoopStage::Waiting,
        coordinator.turn(tick) is Run,
    ensures
        ({
            let (next, after, action) = loop_step(
                state,
                coordinator,
                LoopEvent::Woken { tick, watch_ended },
            );
            &&& TurnView::Run(next.trigger) == coordinator.turn(tick)
            &&& after.triggers.len() == 0
            &&& match coordinator.drained().codebase_step(found_gate(coordinator)) {
                CodebaseStep::Ready => action is Reconcile && after.running,
                CodebaseStep::Wait => action is AwaitGate,
                CodebaseStep::Abandon => action is Wait || action is RefreshWatches,
            }
        }),
{
}

/// A run never registers a codebase beside the one that a first index is about
/// to name: while the first index that it found is pending without a codebase,
/// the loop does not reconcile.
pub proof fn law_a_run_waits_for_its_first_index(
    state: LoopView,
    coordinator: CoordinatorView,
    event: LoopEvent,
)
    requires
        coordinator.codebase_id is None,
        found_gate(coordinator) matches Some(i) && coordinator.gates[i].codebase_id is None
            && coordinator.gates[i].result is None,
        state.stage == LoopStage::AwaitingCodebase ==> state.gate == found_gate(coordinator),
    ensures
        !(loop_step(state, coordinator, event).2 is Reconcile),
{
}

/// A result is reported to the first index that the run found when it began, and
/// to no other: one that was installed during the run is left to the run that it
/// queued.
pub proof fn law_a_result_goes_to_the_first_index_of_its_run(
    state: LoopView,
    coordinator: CoordinatorView,
    result: Result<SyncOutcome, String>,
    other: int,
)
    requires
        state.stage == LoopStage::Reconciling,
        loop_is_valid(state, coordinator),
        0 <= other < coordinator.gates.len(),
        state.gate != Some(other),
    ensures
        loop_step(state, coordinator, LoopEvent::Reconciled(result)).1.gates[other]
            == coordinator.gates[other],
        loop_step(state, coordinator, LoopEvent::Reconciled(result)).1.triggers
            == coordinator.triggers,
{
}

/// A first index that a run found gets its result from that run: a failure at
/// once, and otherwise the end of the job that is polled.
pub proof fn law_a_first_index_is_always_answered(
    state: LoopView,
    coordinator: CoordinatorView,
    result: Result<SyncOutcome, String>,
    gate: int,
)
    requires
        state.stage == LoopStage::Reconciling,
        loop_is_valid(state, coordinator),
        state.gate == Some(gate),
        coordinator.may_report(gate),
    ensures
        match result {
            Ok(outcome) => loop_poll(state, coordinator, LoopEvent::Reconciled(result)) == Some(
                (gate, outcome.job_id@),
            ),
            Err(reason) => loop_step(
                state,
                coordinator,
                LoopEvent::Reconciled(result),
            ).1.gates[gate].result == Some(
                Err::<(), Seq<char>>("initial scan/upload failed: "@ + reason@),
            ),
        },
{
}

/// A finished run is no longer running, and what it did is recorded: the codebase and
/// a new outcome where it succeeded, and the reason where it failed. Then the rule
/// directories are watched again, as long as the checkout is watched.
pub proof fn law_a_finished_run_is_recorded(
    state: LoopView,
    coordinator: CoordinatorView,
    outcome: SyncOutcome,
    reason: String,
)
    requires
        state.stage == LoopStage::Reconciling,
        loop_is_valid(state, coordinator),
    ensures
        ({
            let done = loop_step(state, coordinator, LoopEvent::Reconciled(Ok(outcome)));
            let failed = loop_step(state, coordinator, LoopEvent::Reconciled(Err(reason)));
            let next = if state.watching && coordinator.watcher is None {
                LoopActionView::RefreshWatches
            } else {
                LoopActionView::Wait
            };
            &&& !done.1.running && done.1.last_error is None
            &&& done.1.codebase_id == Some(outcome.codebase_id@)
            &&& outcome.uploaded > 0 || outcome.to_delete > 0 || state.trigger == Trigger::Startup
                ==> done.1.last_job == Some(outcome.job_id@)
            &&& !(outcome.uploaded > 0 || outcome.to_delete > 0 || state.trigger
                == Trigger::Startup) ==> done.1.last_job == coordinator.last_job
            &&& !failed.1.running && failed.1.last_error == Some(reason@)
            &&& failed.1.codebase_id == coordinator.codebase_id && failed.1.last_job
                == coordinator.last_job && failed.1.last_outcome == coordinator.last_outcome
            &&& done.2 == next && failed.2 == next
            &&& done.1.triggers == coordinator.triggers && failed.1.triggers == coordinator.triggers
            &&& done.1.sink == coordinator.sink && failed.1.sink == coordinator.sink
            &&& done.1.leases == coordinator.leases && failed.1.leases == coordinator.leases
        }),
{
}

/// Events that matter are a reason to run, and others are not: the loop then waits
/// again, with nothing changed.
pub proof fn law_events_that_matter_are_run(state: LoopView, coordinator: CoordinatorView)
    requires
        state.stage == LoopStage::Judging,
    ensures
        ({
            let (next, after, action) = loop_step(state, coordinator, LoopEvent::Judged(true));
            let first_index = coordinator.gates.last();
            let ready = coordinator.codebase_id is Some || coordinator.gates.len() == 0
                || first_index.codebase_id is Some;
            &&& next.trigger == Trigger::Watch
            &&& next.watching == state.watching
            &&& ready ==> after.running && action == (LoopActionView::Reconcile {
                codebase_id: if coordinator.codebase_id is Some || coordinator.gates.len() == 0 {
                    coordinator.codebase_id
                } else {
                    first_index.codebase_id
                },
            })
            &&& !ready && first_index.result is None ==> action == LoopActionView::AwaitGate(
                coordinator.gates.len() - 1,
            )
            &&& !ready && first_index.result is Some ==> action is Wait || action is RefreshWatches
        }),
        loop_step(state, coordinator, LoopEvent::Judged(false)) == (
            LoopView { stage: LoopStage::Waiting, ..state },
            coordinator,
            LoopActionView::Wait,
        ),
{
}

/// A run that waited for its first index goes on as soon as that one is named, into
/// its codebase, and is given up where it ended without one.
pub proof fn law_a_named_first_index_lets_its_run_go_on(
    state: LoopView,
    coordinator: CoordinatorView,
    gate: int,
)
    requires
        state.stage == LoopStage::AwaitingCodebase,
        state.gate == Some(gate),
        0 <= gate < coordinator.gates.len(),
        coordinator.codebase_id is None,
    ensures
        ({
            let (next, after, action) = loop_step(state, coordinator, LoopEvent::Named);
            let named = coordinator.gates[gate].codebase_id;
            let ended = coordinator.gates[gate].result is Some;
            &&& named is Some ==> action == (LoopActionView::Reconcile { codebase_id: named })
                && after.codebase_id == named && after.running
            &&& named is None && ended ==> action is Wait || action is RefreshWatches
            &&& named is None && !ended ==> action == LoopActionView::AwaitGate(gate)
            &&& next.trigger == state.trigger && next.gate == state.gate
        }),
{
}

/// An event that does not fit what the loop waits for changes nothing.
pub proof fn law_events_out_of_order_change_nothing(
    state: LoopView,
    coordinator: CoordinatorView,
    event: LoopEvent,
)
    ensures
        loop_step(state, coordinator, event).2 is OutOfOrder <==> !(match state.stage {
            LoopStage::Waiting => event is Woken,
            LoopStage::Judging => event is Judged,
            LoopStage::AwaitingCodebase => event is Named,
            LoopStage::Reconciling => event is Reconciled,
            LoopStage::Refreshing => event is Refreshed,
        }),
        loop_step(state, coordinator, event).2 is OutOfOrder ==> loop_step(
            state,
            coordinator,
            event,
        ).0 == state && loop_step(state, coordinator, event).1 == coordinator,
{
}

/// Every step of the loop is the one of its model, for the loop and its coordinator,
/// and polls the job that the model says.
pub proof fn law_the_loop_goes_by_its_steps(
    state: &mut ReconcileLoop,
    coordinator: &mut Coordinator,
    event: LoopEvent,
    next: (LoopAction, Option<GatePoll>),
)
    requires
        call_ensures(ReconcileLoop::step, (state, coordinator, event), next),
    ensures
        final(state)@ == loop_step(old(state)@, old(coordinator)@, event).0,
        final(coordinator)@ == loop_step(old(state)@, old(coordinator)@, event).1,
        next.0@ == loop_step(old(state)@, old(coordinator)@, event).2,
        next.1 matches Some(poll) ==> loop_poll(old(state)@, old(coordinator)@, event) == Some(
            (poll.gate as int, poll.job_id@),
        ),
        next.1 is None ==> loop_poll(old(state)@, old(coordinator)@, event) is None,
        next.0 matches LoopAction::Reconcile { codebase_id } ==> next.0@ == (
        LoopActionView::Reconcile { codebase_id: optional(codebase_id) }),
{
}

/// A job is polled only for the first index of its run, while that has no result and
/// nobody else polls for it.
pub proof fn law_which_jobs_are_polled(
    state: LoopView,
    coordinator: CoordinatorView,
    event: LoopEvent,
    gate: int,
    job: Seq<char>,
)
    requires
        loop_poll(state, coordinator, event) == Some((gate, job)),
    ensures
        state.stage == LoopStage::Reconciling,
        state.gate == Some(gate),
        event matches LoopEvent::Reconciled(Ok(outcome)) && outcome.job_id@ == job,
        coordinator.gates[gate].result is None && !coordinator.gates[gate].polling,
{
}

} // verus!
