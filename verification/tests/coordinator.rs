use semctl::api::JobStatus;
use semctl::engine::coordinator::{
    initial_job_result, jitter, poll_initial_job, CodebaseStep, Coordinator, GateStep, Trigger,
    Turn, WatcherState, DEFAULT_RESYNC_SECS, TRIGGER_CAPACITY, WATCHED_RESYNC_MULTIPLIER,
};
use semctl::engine::reconcile::{LoopAction, LoopEvent, ReconcileLoop};
use semctl::engine::registry::{CheckoutKey, CheckoutRegistry};
use semctl::engine::watch_hub::{Event, EventKind};
use semctl::mcp::readiness::Waiting;
use semctl::paths::PathName;
use semctl::session::credentials::{CredentialScope, CredentialSource};
use semctl::sync::SyncOutcome;

const TEST_ROOT: &str = "/semctl-test-checkout";

fn key(root: &str, scope: CredentialScope) -> CheckoutKey {
    CheckoutKey {
        server_url: "https://example.invalid".to_string(),
        tenant: None,
        credential_scope: scope,
        root: root.to_string(),
    }
}

fn coordinator() -> Coordinator {
    Coordinator::new(
        key(TEST_ROOT, CredentialSource::Stored.scope()),
        Some("codebase".to_string()),
        Err("no watcher in tests".to_string()),
        false,
        Some(0),
    )
}

/// A coordinator whose root is watched.
fn watched() -> Coordinator {
    Coordinator::new(
        key(TEST_ROOT, CredentialSource::Stored.scope()),
        Some("codebase".to_string()),
        Ok(()),
        false,
        Some(0),
    )
}

fn outcome() -> Result<SyncOutcome, String> {
    Ok(SyncOutcome {
        codebase_id: "codebase".to_string(),
        job_id: "job".to_string(),
        uploaded: 0,
        to_delete: 0,
    })
}

/// Starts the run that is due, if one is.
fn start(coordinator: &mut Coordinator) -> Option<Trigger> {
    match coordinator.next_turn(false) {
        Turn::Run(trigger) => {
            coordinator.begin_run();
            Some(trigger)
        }
        Turn::Idle => None,
        Turn::Judge(_) => panic!("no events were delivered"),
    }
}

#[test]
fn a_burst_of_triggers_becomes_one_reconcile() {
    let mut coordinator = coordinator();
    for _ in 0..10 {
        coordinator.trigger(Trigger::Explicit);
    }
    let mut count = 0;
    while let Some(trigger) = start(&mut coordinator) {
        count += 1;
        coordinator.record(trigger, &outcome());
    }
    assert_eq!(count, 1);
}

#[test]
fn a_trigger_during_a_run_produces_exactly_one_follow_up() {
    let mut coordinator = coordinator();
    coordinator.trigger(Trigger::Explicit);
    let mut count = 0;
    while let Some(trigger) = start(&mut coordinator) {
        count += 1;
        if count == 1 {
            for _ in 0..4 {
                coordinator.trigger(Trigger::Explicit);
            }
        }
        coordinator.record(trigger, &outcome());
    }
    assert_eq!(count, 2);
}

#[test]
fn an_explicit_trigger_after_startup_runs_twice() {
    let mut coordinator = coordinator();
    coordinator.trigger(Trigger::Startup);
    assert_eq!(start(&mut coordinator), Some(Trigger::Startup));
    coordinator.trigger(Trigger::Explicit);
    coordinator.record(Trigger::Startup, &outcome());
    assert_eq!(start(&mut coordinator), Some(Trigger::Explicit));
    coordinator.record(Trigger::Explicit, &outcome());
    assert_eq!(start(&mut coordinator), None);
}

#[test]
fn a_full_trigger_queue_sets_overflow_and_still_runs() {
    let mut coordinator = coordinator();
    for _ in 0..=TRIGGER_CAPACITY {
        coordinator.trigger(Trigger::Explicit);
    }
    assert!(
        coordinator.status().trigger_overflow,
        "a dropped trigger must be recorded"
    );
    assert_eq!(coordinator.status().pending_triggers, TRIGGER_CAPACITY);
    let trigger = start(&mut coordinator).expect("a run is due");
    coordinator.record(trigger, &outcome());
    assert_eq!(start(&mut coordinator), None);
    assert!(
        !coordinator.status().trigger_overflow,
        "the run must clear the overflow it acted on"
    );
}

#[test]
fn status_reports_the_last_job_and_the_watcher_state() {
    let mut coordinator = coordinator();
    coordinator.trigger(Trigger::Startup);
    let trigger = start(&mut coordinator).expect("a run is due");
    assert!(coordinator.status().running);
    coordinator.record(trigger, &outcome());
    let status = coordinator.status();
    assert_eq!(status.last_job_id.as_deref(), Some("job"));
    assert_eq!(status.codebase_id.as_deref(), Some("codebase"));
    match &status.watcher {
        WatcherState::Unavailable(reason) => assert_eq!(reason, "no watcher in tests"),
        WatcherState::Active => panic!("no watcher was opened"),
    }
    assert!(!status.running);
    assert!(status.last_error.is_none());
    assert!(status.line().contains("job job"), "{}", status.line());
}

#[test]
fn a_failed_run_keeps_its_reason() {
    let mut coordinator = coordinator();
    coordinator.trigger(Trigger::Watch);
    let trigger = start(&mut coordinator).expect("a run is due");
    coordinator.record(trigger, &Err("no network".to_string()));
    let status = coordinator.status();
    assert!(status.last_error.is_some_and(|e| e.contains("no network")));
    assert!(status.last_job_id.is_none());
}

#[test]
fn delivered_events_are_judged_in_one_turn() {
    let mut coordinator = coordinator();
    for name in ["a.rs", "b.rs"] {
        coordinator.deliver(vec![Event {
            kind: EventKind::Modify,
            paths: vec![PathName::from_text(&format!("{TEST_ROOT}/{name}"))],
        }]);
    }
    match coordinator.next_turn(false) {
        Turn::Judge(events) => assert_eq!(events.len(), 2),
        _ => panic!("the events have to be judged"),
    }
    coordinator.report_overflow();
    assert_eq!(start(&mut coordinator), Some(Trigger::Watch));
    assert!(matches!(coordinator.next_turn(true), Turn::Run(Trigger::Periodic)));
    assert!(matches!(coordinator.next_turn(false), Turn::Idle));
}

#[test]
fn the_periodic_offset_is_stable_and_inside_one_interval() {
    let interval: u128 = 300_000_000_000;
    let first = jitter(b"/work/first", interval);
    let second = jitter(b"/work/second", interval);
    assert!(u128::from(first) < interval);
    assert!(u128::from(second) < interval);
    assert_ne!(first, second, "two checkouts must not tick together");
    assert_eq!(first, jitter(b"/work/first", interval));
    let digest = blake3::hash(b"/work/first");
    let mut bytes = [0u8; 8];
    bytes.copy_from_slice(&digest.as_bytes()[..8]);
    let fraction = u128::from(u64::from_le_bytes(bytes) % 1000);
    assert_eq!(u128::from(first), interval * fraction / 1000);
}

#[test]
fn a_watched_checkout_is_swept_less_often() {
    let scope = CredentialSource::Stored.scope();
    let watched = Coordinator::new(key(TEST_ROOT, scope.copy()), None, Ok(()), false, None);
    let timer = watched.periodic_timer(TEST_ROOT.as_bytes()).expect("a timer");
    assert_eq!(timer.period_secs, DEFAULT_RESYNC_SECS * WATCHED_RESYNC_MULTIPLIER);
    let unwatched = Coordinator::new(
        key(TEST_ROOT, scope),
        None,
        Err("unavailable".to_string()),
        false,
        Some(7),
    );
    let timer = unwatched.periodic_timer(TEST_ROOT.as_bytes()).expect("a timer");
    assert_eq!(timer.period_secs, 7);
    assert!(coordinator().periodic_timer(TEST_ROOT.as_bytes()).is_none());
}

fn job(completed: bool, failed: i64, error: Option<&str>) -> JobStatus {
    JobStatus {
        files_to_embed: 3,
        files_to_delete: 0,
        files_embedded: if completed { 3 - failed } else { 1 },
        files_deleted: 0,
        files_failed: failed,
        chunk_count: if completed { Some(12) } else { None },
        error: error.map(str::to_string),
        started_at: Some("2026-07-31T00:00:00Z".into()),
        completed_at: if completed { Some("2026-07-31T00:00:01Z".into()) } else { None },
    }
}

#[test]
fn first_index_requires_terminal_success() {
    assert!(initial_job_result("j", &job(false, 0, None)).is_none());
    assert_eq!(initial_job_result("j", &job(true, 0, None)), Some(Ok(())));
    assert!(initial_job_result("j", &job(true, 1, None))
        .expect("a completed job is terminal")
        .expect_err("failed files must fail the first index")
        .contains("1 failed file"));
    assert!(initial_job_result("j", &job(true, 0, Some("worker died")))
        .expect("an errored job is terminal")
        .expect_err("a job error must fail the first index")
        .contains("worker died"));
}

#[test]
fn a_first_index_is_polled_once() {
    let scope = CredentialSource::Stored.scope();
    let mut coordinator = Coordinator::new(key(TEST_ROOT, scope), None, Ok(()), true, None);
    let gate = coordinator.gate().expect("a first index has a gate");
    assert!(matches!(coordinator.await_codebase(Some(gate)), CodebaseStep::Wait));
    coordinator.register_codebase(gate, "codebase".to_string());
    assert!(matches!(coordinator.await_codebase(Some(gate)), CodebaseStep::Ready));
    assert_eq!(coordinator.codebase_id().as_deref(), Some("codebase"));
    assert!(matches!(
        coordinator.finish_gate(gate, Ok("job".to_string())),
        GateStep::Poll(id) if id == "job"
    ));
    assert!(matches!(
        coordinator.finish_gate(gate, Ok("job".to_string())),
        GateStep::Skip
    ));
}

/// Attaches a session to a checkout.
fn attach(registry: &mut CheckoutRegistry, key: &CheckoutKey) {
    if !registry.attach(key) {
        let made = Coordinator::new(
            key.copy(),
            Some("codebase".to_string()),
            Err("no such directory".to_string()),
            false,
            Some(0),
        );
        assert!(registry.publish(made).is_none());
    }
}

fn attach_first_index(registry: &mut CheckoutRegistry, key: &CheckoutKey) -> usize {
    attach(registry, key);
    registry.first_index_gate(key).expect("the checkout is attached")
}

fn leases(registry: &CheckoutRegistry, key: &CheckoutKey) -> usize {
    registry.coordinator(key).expect("the checkout is attached").status().leases
}

fn stored(name: &str) -> CheckoutKey {
    key(
        &format!("/semctl-test-checkouts/{name}"),
        CredentialSource::Stored.scope(),
    )
}

const MINUTES: u64 = 300_000;

#[test]
fn one_key_is_one_coordinator() {
    let mut registry = CheckoutRegistry::new(MINUTES);
    let shared = stored("shared");
    attach(&mut registry, &shared);
    attach(&mut registry, &shared);
    assert_eq!(registry.len(), 1);
    assert_eq!(leases(&registry, &shared), 2);
}

#[test]
fn different_credential_scopes_do_not_share_a_checkout() {
    let mut registry = CheckoutRegistry::new(MINUTES);
    let first = stored("same");
    let scope = CredentialSource::from_token(Some("session-token")).scope();
    let second = key("/semctl-test-checkouts/same", scope);
    attach(&mut registry, &first);
    attach(&mut registry, &second);
    assert_eq!(registry.len(), 2, "one root, two authorizations");
    assert_eq!(leases(&registry, &first), 1);
}

#[test]
fn different_roots_are_different_coordinators() {
    let mut registry = CheckoutRegistry::new(MINUTES);
    attach(&mut registry, &stored("first"));
    attach(&mut registry, &stored("second"));
    assert_eq!(registry.len(), 2);
}

#[test]
fn an_unleased_coordinator_is_released_after_the_idle_grace() {
    let mut registry = CheckoutRegistry::new(0);
    let idle = stored("idle");
    attach(&mut registry, &idle);
    assert_eq!(registry.sweep_idle(10).len(), 0);
    assert_eq!(registry.len(), 1, "a held coordinator is never released");
    registry.release(&idle, 20);
    assert_eq!(registry.sweep_idle(20).len(), 1);
    assert_eq!(registry.len(), 0);
    attach(&mut registry, &idle);
    assert_eq!(registry.len(), 1);
    assert_eq!(leases(&registry, &idle), 1);
}

#[test]
fn an_attach_inside_the_grace_reuses_the_coordinator() {
    let mut registry = CheckoutRegistry::new(MINUTES);
    let warm = stored("warm");
    attach(&mut registry, &warm);
    registry.release(&warm, 10);
    assert_eq!(registry.sweep_idle(20).len(), 0);
    assert!(registry.attach(&warm), "the coordinator is reused");
    registry.release(&warm, 30);
    assert_eq!(registry.sweep_idle(30 + MINUTES).len(), 1);
}

#[test]
fn a_first_index_gate_is_shared_while_it_is_pending() {
    let mut registry = CheckoutRegistry::new(MINUTES);
    let root = stored("first-index");
    let first = attach_first_index(&mut registry, &root);
    let second = attach_first_index(&mut registry, &root);
    assert_eq!(first, second);
    assert_eq!(registry.coordinator(&root).and_then(|c| c.gate()), Some(first));
}

#[test]
fn a_failed_first_index_gate_is_replaced() {
    let mut registry = CheckoutRegistry::new(MINUTES);
    let root = stored("retry");
    let failed = attach_first_index(&mut registry, &root);
    let held = registry.coordinator_mut(&root).expect("attached");
    held.finish(failed, Err("registration failed".to_string()));
    let retried = attach_first_index(&mut registry, &root);
    assert_ne!(failed, retried);
    let held = registry.coordinator_mut(&root).expect("attached");
    assert!(held.gate_at(retried).outcome().is_none(), "the retry starts pending");
    held.finish(retried, Ok(()));
    assert!(matches!(held.gate_at(retried).wait(), Waiting::Ready(Ok(()))));
    let reused = attach_first_index(&mut registry, &root);
    assert_eq!(retried, reused);
}

#[test]
fn a_plain_attach_and_a_first_index_share_one_coordinator() {
    let mut registry = CheckoutRegistry::new(MINUTES);
    let root = stored("both");
    attach(&mut registry, &root);
    let gate = attach_first_index(&mut registry, &root);
    assert_eq!(registry.len(), 1);
    assert_eq!(registry.coordinator(&root).and_then(|c| c.gate()), Some(gate));
}

#[test]
fn releasing_one_lease_keeps_the_checkout_for_the_others() {
    let mut registry = CheckoutRegistry::new(0);
    let root = stored("two-sessions");
    attach(&mut registry, &root);
    attach(&mut registry, &root);
    registry.release(&root, 10);
    assert_eq!(registry.sweep_idle(20).len(), 0);
    assert_eq!(registry.len(), 1);
    assert_eq!(leases(&registry, &root), 1);
}

#[test]
fn a_lease_reports_the_key_it_was_taken_for() {
    let mut registry = CheckoutRegistry::new(MINUTES);
    let keyed = stored("keyed");
    attach(&mut registry, &keyed);
    let held = registry.coordinator(&keyed).expect("attached");
    assert!(held.key().same(&keyed));
    assert_eq!(held.root(), keyed.root());
}

#[test]
fn cancelling_a_coordinator_releases_its_watch() {
    let mut registry = CheckoutRegistry::new(0);
    let root = stored("cancelled");
    attach(&mut registry, &root);
    attach(&mut registry, &root);
    registry.release(&root, 10);
    registry.release(&root, 10);
    let released = registry.sweep_idle(10);
    assert_eq!(registry.len(), 0);
    match released[0].watcher_state() {
        WatcherState::Unavailable(reason) => assert_eq!(reason, "coordinator cancelled"),
        WatcherState::Active => panic!("a cancelled coordinator watches nothing"),
    }
}

#[test]
fn a_loop_reconciles_and_then_watches_its_rules() {
    let mut held = watched();
    let mut state = ReconcileLoop::new(&held);
    let woken = || LoopEvent::Woken { tick: false, watch_ended: false };
    assert!(matches!(state.step(&mut held, woken()), (LoopAction::Wait, None)));
    held.trigger(Trigger::Explicit);
    assert!(matches!(
        state.step(&mut held, woken()),
        (LoopAction::Reconcile { codebase_id: Some(id) }, None) if id == "codebase"
    ));
    assert!(held.status().running);
    assert!(
        matches!(state.step(&mut held, woken()), (LoopAction::OutOfOrder, None)),
        "one run at a time"
    );
    assert!(matches!(
        state.step(&mut held, LoopEvent::Reconciled(outcome())),
        (LoopAction::RefreshWatches, None)
    ));
    assert!(!held.status().running);
    assert!(matches!(
        state.step(&mut held, LoopEvent::Refreshed),
        (LoopAction::Wait, None)
    ));
    let ended = LoopEvent::Woken { tick: true, watch_ended: true };
    assert!(matches!(
        state.step(&mut held, ended),
        (LoopAction::Reconcile { .. }, None)
    ));
    assert!(
        matches!(
            state.step(&mut held, LoopEvent::Reconciled(Err("offline".to_string()))),
            (LoopAction::Wait, None)
        ),
        "nothing is watched any more"
    );
    assert_eq!(held.status().last_error.as_deref(), Some("offline"));
}

#[test]
fn a_loop_waits_for_its_first_index_and_reports_to_it() {
    let key = coordinator().key().copy();
    let mut held = Coordinator::new(key, None, Err("no watch".to_string()), true, Some(0));
    let gate = held.gate().expect("a first index");
    let mut state = ReconcileLoop::new(&held);
    held.trigger(Trigger::Startup);
    assert!(matches!(
        state.step(&mut held, LoopEvent::Woken { tick: false, watch_ended: false }),
        (LoopAction::AwaitGate(found), None) if found == gate
    ));
    assert!(matches!(
        state.step(&mut held, LoopEvent::Named),
        (LoopAction::AwaitGate(_), None)
    ));
    held.register_codebase(gate, "named".to_string());
    assert!(matches!(
        state.step(&mut held, LoopEvent::Named),
        (LoopAction::Reconcile { codebase_id: Some(id) }, None) if id == "named"
    ));
    assert!(matches!(
        state.step(&mut held, LoopEvent::Reconciled(outcome())),
        (LoopAction::Wait, Some(poll)) if poll.gate == gate && poll.job_id == "job"
    ));
}

#[test]
fn a_first_index_that_ends_without_a_codebase_leaves_nothing_to_do() {
    let key = coordinator().key().copy();
    let mut held = Coordinator::new(key, None, Err("no watch".to_string()), true, Some(0));
    let gate = held.gate().expect("a first index");
    let mut state = ReconcileLoop::new(&held);
    held.trigger(Trigger::Startup);
    held.finish(gate, Err("not registered".to_string()));
    assert!(matches!(
        state.step(&mut held, LoopEvent::Woken { tick: false, watch_ended: false }),
        (LoopAction::Wait, None)
    ));
    assert!(!held.status().running);
}

#[test]
fn a_failed_run_fails_the_first_index_it_found() {
    let key = coordinator().key().copy();
    let mut held = Coordinator::new(key, None, Err("no watch".to_string()), true, Some(0));
    let gate = held.gate().expect("a first index");
    held.register_codebase(gate, "named".to_string());
    let mut state = ReconcileLoop::new(&held);
    held.trigger(Trigger::Startup);
    state.step(&mut held, LoopEvent::Woken { tick: false, watch_ended: false });
    assert!(matches!(
        state.step(&mut held, LoopEvent::Reconciled(Err("disk full".to_string()))),
        (LoopAction::Wait, None)
    ));
    assert_eq!(
        held.gate_at(gate).outcome(),
        Some(Err("initial scan/upload failed: disk full".to_string()))
    );
}

#[test]
fn events_are_judged_before_they_cause_a_run() {
    let mut held = watched();
    let mut state = ReconcileLoop::new(&held);
    let changed = || Event { kind: EventKind::Other, paths: Vec::new() };
    for relevant in [false, true] {
        held.deliver(vec![changed()]);
        assert!(matches!(
            state.step(&mut held, LoopEvent::Woken { tick: false, watch_ended: false }),
            (LoopAction::Judge(events), None) if events.len() == 1
        ));
        let (action, _) = state.step(&mut held, LoopEvent::Judged(relevant));
        assert_eq!(matches!(action, LoopAction::Reconcile { .. }), relevant);
        assert_eq!(matches!(action, LoopAction::Wait), !relevant);
    }
}

#[test]
fn a_job_is_polled_until_it_is_over() {
    assert_eq!(poll_initial_job("7", &Ok(job(false, 0, None))), None);
    assert_eq!(poll_initial_job("7", &Ok(job(true, 0, None))), Some(Ok(())));
    assert_eq!(
        poll_initial_job("7", &Ok(job(true, 2, None))),
        Some(Err("embedding job 7 completed with 2 failed file(s)".to_string()))
    );
    assert_eq!(
        poll_initial_job("7", &Err("offline".to_string())),
        Some(Err("poll initial index job 7: offline".to_string()))
    );
}
