use semctl::engine::watch_hub::{
    dispatch, AccessKind, AccessMode, Event, EventKind, ExternalWatch, RootWatch, Route, WatchHub,
    WatchSink, BATCH_CAPACITY,
};
use semctl::paths::PathName;

fn path(text: &str) -> PathName {
    PathName::from_text(text)
}

fn texts(paths: &[PathName]) -> Vec<String> {
    paths.iter().map(|p| p.display()).collect()
}

fn route(id: u64, root: &str, externals: &[&str]) -> Route {
    Route {
        id,
        root: path(root),
        externals: externals.iter().map(|e| path(e)).collect(),
        watched: externals.iter().map(|e| path(e)).collect(),
        settled: true,
    }
}

fn event(text: &str) -> Event {
    changed(EventKind::Modify, text)
}

fn changed(kind: EventKind, text: &str) -> Event {
    Event { kind, paths: vec![path(text)] }
}

/// Sinks by route, filled by one dispatch.
struct Receivers {
    sinks: Vec<WatchSink>,
}

impl Receivers {
    fn new(count: usize, capacity: usize) -> Receivers {
        Receivers { sinks: (0..count).map(|_| WatchSink::new(capacity)).collect() }
    }

    fn dispatch(&mut self, routes: &Vec<Route>, events: Vec<Event>) {
        for delivery in dispatch(routes, &events) {
            self.sinks[delivery.id as usize].deliver(delivery.events);
        }
    }

    fn paths(&mut self, id: usize) -> Vec<String> {
        self.sinks[id]
            .drain()
            .iter()
            .flat_map(|batch| batch.iter().flat_map(|event| texts(&event.paths)))
            .collect()
    }
}

fn reaches_every_root() {
    let routes = vec![
        route(0, "/work/outer", &[]),
        route(1, "/work/outer/inner", &[]),
        route(2, "/work/other", &[]),
    ];
    let mut receivers = Receivers::new(3, BATCH_CAPACITY);

    receivers.dispatch(&routes, vec![event("/work/outer/inner/src/lib.rs")]);

    assert_eq!(receivers.paths(0), vec!["/work/outer/inner/src/lib.rs"]);
    assert_eq!(receivers.paths(1), vec!["/work/outer/inner/src/lib.rs"]);
    assert!(receivers.paths(2).is_empty(), "an unrelated root must not be woken");
}

#[test]
fn watch_hub_an_event_reaches_every_root_that_contains_it() {
    reaches_every_root();
}

#[test]
fn tests_an_event_reaches_every_root_that_contains_it() {
    reaches_every_root();
}

fn accesses_are_dropped() {
    let routes = vec![route(0, "/work/a", &[])];
    let mut receivers = Receivers::new(1, BATCH_CAPACITY);

    receivers.dispatch(
        &routes,
        vec![
            changed(
                EventKind::Access(AccessKind::Open(AccessMode::Read)),
                "/work/a/src/lib.rs",
            ),
            changed(EventKind::Access(AccessKind::Read), "/work/a/src/lib.rs"),
        ],
    );
    assert!(receivers.paths(0).is_empty(), "an access must not wake a run");

    receivers.dispatch(
        &routes,
        vec![changed(
            EventKind::Access(AccessKind::Close(AccessMode::Write)),
            "/work/a/src/lib.rs",
        )],
    );
    assert_eq!(
        receivers.paths(0),
        vec!["/work/a/src/lib.rs"],
        "a finished write is a change"
    );
}

#[test]
fn watch_hub_an_access_only_event_is_not_delivered() {
    accesses_are_dropped();
}

#[test]
fn tests_an_access_only_event_is_not_delivered() {
    accesses_are_dropped();
}

fn external_directories_are_flat() {
    let routes = vec![route(0, "/work/a", &["/"])];
    let mut receivers = Receivers::new(1, BATCH_CAPACITY);

    receivers.dispatch(&routes, vec![event("/tmp/other/file.rs")]);
    assert!(
        receivers.paths(0).is_empty(),
        "a deep path is not reported by a non-recursive watch"
    );

    receivers.dispatch(&routes, vec![event("/.gitconfig")]);
    assert_eq!(
        receivers.paths(0),
        vec!["/.gitconfig"],
        "a direct child of the external directory is reported"
    );

    receivers.dispatch(&routes, vec![event("/")]);
    assert_eq!(
        receivers.paths(0),
        vec!["/"],
        "the external directory itself is reported"
    );
}

#[test]
fn watch_hub_an_external_directory_observes_only_its_own_entries() {
    external_directories_are_flat();
}

#[test]
fn tests_an_external_directory_observes_only_its_own_entries() {
    external_directories_are_flat();
}

fn only_subscribers_hear() {
    let routes = vec![
        route(0, "/work/a", &["/home/user/.config/git"]),
        route(1, "/work/b", &[]),
    ];
    let mut receivers = Receivers::new(2, BATCH_CAPACITY);

    receivers.dispatch(&routes, vec![event("/home/user/.config/git/ignore")]);

    assert_eq!(receivers.paths(0), vec!["/home/user/.config/git/ignore"]);
    assert!(receivers.paths(1).is_empty());
}

#[test]
fn watch_hub_an_external_event_reaches_only_its_subscribers() {
    only_subscribers_hear();
}

#[test]
fn tests_an_external_event_reaches_only_its_subscribers() {
    only_subscribers_hear();
}

fn batches_are_filtered() {
    let routes = vec![route(0, "/work/a", &[])];
    let mut receivers = Receivers::new(1, BATCH_CAPACITY);

    receivers.dispatch(
        &routes,
        vec![
            event("/work/a/src/lib.rs"),
            event("/work/b/src/lib.rs"),
            changed(EventKind::Create, "/work/a/new.rs"),
        ],
    );

    assert_eq!(receivers.paths(0), vec!["/work/a/src/lib.rs", "/work/a/new.rs"]);
}

#[test]
fn watch_hub_a_batch_carries_only_the_events_the_registration_observes() {
    batches_are_filtered();
}

#[test]
fn tests_a_batch_carries_only_the_events_the_registration_observes() {
    batches_are_filtered();
}

fn full_sinks_overflow() {
    let routes = vec![route(0, "/work/a", &[])];
    let mut receivers = Receivers::new(1, 1);

    receivers.dispatch(&routes, vec![event("/work/a/first.rs")]);
    assert!(!receivers.sinks[0].overflow());

    receivers.dispatch(&routes, vec![event("/work/a/second.rs")]);
    assert!(
        receivers.sinks[0].overflow(),
        "a dropped batch must be reported as overflow"
    );
    assert_eq!(receivers.paths(0), vec!["/work/a/first.rs"]);
}

#[test]
fn watch_hub_a_full_sink_reports_overflow_instead_of_blocking() {
    full_sinks_overflow();
}

#[test]
fn tests_a_full_sink_reports_overflow_instead_of_blocking() {
    full_sinks_overflow();
}

/// Registers a root whose watch succeeds.
fn register(hub: &mut WatchHub, root: &str) -> u64 {
    let opening = hub.register(path(root));
    assert!(hub.settle(opening.id, true), "watch the checkout");
    opening.id
}

fn release(hub: &mut WatchHub, id: u64) {
    hub.release(id, &Vec::new());
}

fn watcher_lives_with_registrations() {
    let mut hub = WatchHub::new();
    assert!(!hub.has_watcher(), "an idle hub holds no watcher");

    let first = register(&mut hub, "/work/first");
    let second = register(&mut hub, "/work/second");
    assert_eq!(hub.routes().len(), 2, "one watcher serves both roots");

    release(&mut hub, first);
    assert!(hub.has_watcher(), "a remaining checkout keeps the watcher");
    assert_eq!(hub.routes().len(), 1);

    release(&mut hub, second);
    assert!(
        !hub.has_watcher(),
        "the last registration must release the platform watcher"
    );
}

#[test]
fn watch_hub_the_watcher_lives_only_while_a_registration_holds_it() {
    watcher_lives_with_registrations();
}

#[test]
fn tests_the_watcher_lives_only_while_a_registration_holds_it() {
    watcher_lives_with_registrations();
}

fn root_watches_are_shared() {
    let root = path("/work/checkout");
    let mut hub = WatchHub::new();
    let first = register(&mut hub, "/work/checkout");
    let second = register(&mut hub, "/work/checkout");
    assert_eq!(hub.root_holders(&root), 2);
    assert_eq!(hub.routes().len(), 2, "two registrations, one root watch");

    assert!(!hub.release_plan(first).unwatch_root);
    release(&mut hub, first);
    assert_eq!(
        hub.root_holders(&root),
        1,
        "the remaining holder keeps the root watch"
    );
    assert!(hub.has_watcher());

    assert!(hub.release_plan(second).unwatch_root);
    release(&mut hub, second);
    assert_eq!(hub.root_holders(&root), 0);
    assert!(
        !hub.has_watcher(),
        "the last registration must release the platform watcher"
    );
}

#[test]
fn watch_hub_a_root_watch_is_shared_and_released_with_its_last_holder() {
    root_watches_are_shared();
}

#[test]
fn tests_a_root_watch_is_shared_and_released_with_its_last_holder() {
    root_watches_are_shared();
}

/// Subscribes to a rule directory whose watch succeeds.
fn watch_external(hub: &mut WatchHub, id: u64, parent: &str) -> ExternalWatch {
    let plan = hub.external_plan(id, &path(parent));
    hub.add_external(id, path(parent), true);
    plan
}

fn external_watches_are_shared() {
    let shared = path("/home/user/.config/git");
    let mut hub = WatchHub::new();
    let first = register(&mut hub, "/work/first");
    let second = register(&mut hub, "/work/second");

    assert_eq!(
        watch_external(&mut hub, first, "/home/user/.config/git"),
        ExternalWatch::Platform
    );
    assert_eq!(
        watch_external(&mut hub, second, "/home/user/.config/git"),
        ExternalWatch::Shared
    );
    // A repeat from the same holder must not raise the count.
    assert_eq!(
        watch_external(&mut hub, second, "/home/user/.config/git"),
        ExternalWatch::Known
    );
    assert_eq!(hub.external_holders(&shared), 2);

    assert!(hub.release_plan(first).unwatch_directories.is_empty());
    release(&mut hub, first);
    assert_eq!(
        hub.external_holders(&shared),
        1,
        "the remaining holder keeps the shared watch"
    );

    assert_eq!(
        texts(&hub.release_plan(second).unwatch_directories),
        vec!["/home/user/.config/git"]
    );
    release(&mut hub, second);
    assert!(!hub.has_watcher());
}

#[test]
fn watch_hub_an_external_watch_is_shared_and_released_with_its_last_holder() {
    external_watches_are_shared();
}

#[test]
fn tests_an_external_watch_is_shared_and_released_with_its_last_holder() {
    external_watches_are_shared();
}

#[test]
fn an_external_watch_survives_the_release_of_the_root_that_covered_it() {
    let mut hub = WatchHub::new();
    let a = register(&mut hub, "/work/a");
    let b = register(&mut hub, "/work/b");

    assert_eq!(watch_external(&mut hub, a, "/work/b/policy"), ExternalWatch::Covered);
    assert_eq!(
        hub.external_holders(&path("/work/b/policy")),
        0,
        "B's recursive watch covers the rule directory, so no external watch exists yet"
    );

    let plan = hub.release_plan(b);
    assert_eq!(texts(&plan.watch_directories), vec!["/work/b/policy"]);
    release(&mut hub, b);
    assert_eq!(
        hub.external_holders(&path("/work/b/policy")),
        1,
        "releasing B must install the external watch A still needs"
    );

    let deliveries = dispatch(hub.routes(), &vec![event("/work/b/policy/ignore")]);
    assert_eq!(deliveries.len(), 1, "checkout A must hear the rule change");
    assert_eq!(deliveries[0].id, a);
    release(&mut hub, a);
    assert!(!hub.has_watcher(), "the last registration releases the hub");
}

#[test]
fn a_directory_that_cannot_be_watched_is_given_up() {
    let mut hub = WatchHub::new();
    let a = register(&mut hub, "/work/a");
    let b = register(&mut hub, "/work/b");
    watch_external(&mut hub, a, "/work/b/policy");

    hub.release(b, &vec![path("/work/b/policy")]);

    assert_eq!(hub.external_holders(&path("/work/b/policy")), 0);
    assert!(dispatch(hub.routes(), &vec![event("/work/b/policy/ignore")]).is_empty());
}

#[test]
fn nested_roots_are_watched_again_when_the_other_one_goes() {
    for outer_first in [true, false] {
        let mut hub = WatchHub::new();
        let (outer, inner) = if outer_first {
            let outer = register(&mut hub, "/work/outer");
            assert_eq!(hub.root_plan(&path("/work/outer/inner")), RootWatch::Covered);
            (outer, register(&mut hub, "/work/outer/inner"))
        } else {
            let inner = register(&mut hub, "/work/outer/inner");
            assert_eq!(hub.root_plan(&path("/work/outer")), RootWatch::Platform);
            (register(&mut hub, "/work/outer"), inner)
        };

        let outer_plan = hub.release_plan(outer);
        assert!(outer_plan.unwatch_root);
        assert_eq!(texts(&outer_plan.rewatch_trees), vec!["/work/outer/inner"]);

        let inner_plan = hub.release_plan(inner);
        assert!(inner_plan.unwatch_root);
        assert_eq!(texts(&inner_plan.rewatch_trees), vec!["/work/outer"]);
    }
}

#[test]
fn a_root_that_cannot_be_watched_is_taken_back() {
    let mut hub = WatchHub::new();
    let opening = hub.register(path("/work/a"));
    assert!(opening.start && opening.watch);
    assert_eq!(
        dispatch(hub.routes(), &vec![event("/work/a/f.rs")]).len(),
        1,
        "a route is published before its watch"
    );

    assert!(!hub.settle(opening.id, false));
    assert!(!hub.has_watcher());
}

#[test]
fn an_overflow_wakes_the_receiver_once() {
    let mut sink = WatchSink::new(2);
    sink.report_overflow();
    assert_eq!(sink.drain().len(), 1);
    assert!(sink.take_overflow());
    assert!(!sink.take_overflow());
}
