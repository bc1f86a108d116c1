//! One filesystem watcher for every checkout in the process.
//!
//! The hub keeps the registrations and decides which platform watches they
//! need. The platform calls are made by the caller: it asks for a plan, makes
//! the calls, and reports how they went.

use vstd::prelude::*;

use crate::paths::{add_path, holds, is_under, parent_of, path_set, PathName};

verus! {

/// Batches that one registration can hold before it is told of an overflow.
pub const BATCH_CAPACITY: usize = 64;

/// How a file was opened or closed.
#[derive(Clone, Copy, Debug, PartialEq, Eq, Structural)]
pub enum AccessMode {
    Any,
    Execute,
    Read,
    Write,
    Other,
}

/// What an access to a file was.
#[derive(Clone, Copy, Debug, PartialEq, Eq, Structural)]
pub enum AccessKind {
    Any,
    Read,
    Open(AccessMode),
    Close(AccessMode),
    Other,
}

/// What happened to the paths of an event.
#[derive(Clone, Copy, Debug, PartialEq, Eq, Structural)]
pub enum EventKind {
    Any,
    Access(AccessKind),
    Create,
    Modify,
    Remove,
    Other,
}

/// One event of the platform watcher.
pub struct Event {
    pub kind: EventKind,
    pub paths: Vec<PathName>,
}

/// An event as its kind and the paths it names, in order.
pub struct EventView {
    pub kind: EventKind,
    pub paths: Seq<Seq<Seq<u8>>>,
}

impl View for Event {
    type V = EventView;

    open spec fn view(&self) -> EventView {
        EventView { kind: self.kind, paths: self.paths@.map_values(|p: PathName| p@) }
    }
}

/// The views of a list of events.
pub open spec fn event_views(events: Seq<Event>) -> Seq<EventView> {
    events.map_values(|e: Event| e@)
}

/// Whether an event of this kind can have changed the tree it names: an access
/// cannot, unless it closed a file that was open for writing.
pub open spec fn changes_tree(kind: EventKind) -> bool {
    match kind {
        EventKind::Access(access) => access == AccessKind::Close(AccessMode::Write),
        _ => true,
    }
}

/// Whether an event can have changed the tree it names.
///
/// A reconcile walks and opens the watched tree itself, so letting reads
/// through would make each finished sync queue its successor forever.
pub fn can_change_tree(event: &Event) -> (changes: bool)
    ensures
        changes == changes_tree(event@.kind),
{
    match event.kind {
        EventKind::Access(access) => match access {
            AccessKind::Close(mode) => match mode {
                AccessMode::Write => true,
                _ => false,
            },
            _ => false,
        },
        _ => true,
    }
}

/// One registration's view of the filesystem.
pub struct Route {
    /// Never reused, so a dropped registration cannot be confused with a later
    /// one for the same root.
    pub id: u64,
    /// Canonical working-copy root, watched with everything below it.
    pub root: PathName,
    /// Directories outside the root that hold a rule this registration
    /// depends on.
    pub externals: Vec<PathName>,
    /// The externals this registration holds a platform watch share of.
    pub watched: Vec<PathName>,
    /// Whether the root watch is in place. A route is published before its
    /// watch, so that an event that arrives in between is delivered.
    pub settled: bool,
}

pub struct RouteView {
    pub id: u64,
    pub root: Seq<Seq<u8>>,
    pub externals: Set<Seq<Seq<u8>>>,
    pub watched: Set<Seq<Seq<u8>>>,
    pub settled: bool,
}

impl View for Route {
    type V = RouteView;

    open spec fn view(&self) -> RouteView {
        RouteView {
            id: self.id,
            root: self.root@,
            externals: path_set(self.externals@),
            watched: path_set(self.watched@),
            settled: self.settled,
        }
    }
}

/// The views of a list of routes.
pub open spec fn route_views(routes: Seq<Route>) -> Seq<RouteView> {
    routes.map_values(|r: Route| r@)
}

/// Whether a watch on the directory `external`, without what lies deeper, can
/// report `path`.
pub open spec fn external_reports(external: Seq<Seq<u8>>, path: Seq<Seq<u8>>) -> bool {
    path == external || parent_of(path) == Some(external)
}

/// Whether a registration observes `path`: everything below its root, and of
/// an external directory that directory and its direct children.
pub open spec fn route_contains(route: RouteView, path: Seq<Seq<u8>>) -> bool {
    is_under(path, route.root) || exists|e: Seq<Seq<u8>>|
        route.externals.contains(e) && #[trigger] external_reports(e, path)
}

/// Whether a registration observes one of the paths of an event.
pub open spec fn route_observes(route: RouteView, event: EventView) -> bool {
    exists|i: int| 0 <= i < event.paths.len() && route_contains(route, #[trigger] event.paths[i])
}

/// Whether an event belongs into the batch of a registration.
pub open spec fn delivered_to(route: RouteView) -> spec_fn(EventView) -> bool {
    |event: EventView| changes_tree(event.kind) && route_observes(route, event)
}

/// The events that a registration gets of one debounced group.
pub open spec fn batch_for(route: RouteView, events: Seq<EventView>) -> Seq<EventView> {
    events.filter(delivered_to(route))
}

/// The batches of one debounced group, one for each registration that observes
/// something in it, in the order of the registrations.
pub open spec fn batches(routes: Seq<RouteView>, events: Seq<EventView>) -> Seq<
    (u64, Seq<EventView>),
>
    decreases routes.len(),
{
    if routes.len() == 0 {
        seq![]
    } else {
        let before = batches(routes.drop_last(), events);
        let batch = batch_for(routes.last(), events);
        if batch.len() == 0 {
            before
        } else {
            before.push((routes.last().id, batch))
        }
    }
}

/// Whether a watch on the directory `external`, without what lies deeper, can
/// report `path`.
pub fn observes_external(external: &PathName, path: &PathName) -> (reports: bool)
    ensures
        reports == external_reports(external@, path@),
{
    if path.same(external) {
        return true;
    }
    match path.parent() {
        Some(parent) => parent.same(external),
        None => false,
    }
}

impl Route {
    /// Whether this registration observes `path`.
    pub fn contains(&self, path: &PathName) -> (observed: bool)
        ensures
            observed == route_contains(self@, path@),
    {
        if path.under(&self.root) {
            return true;
        }
        let mut i: usize = 0;
        while i < self.externals.len()
            invariant
                i <= self.externals@.len(),
                forall|j: int|
                    0 <= j < i ==> !external_reports((#[trigger] self.externals@[j])@, path@),
            decreases self.externals@.len() - i,
        {
            if observes_external(&self.externals[i], path) {
                assert(self@.externals.contains(self.externals@[i as int]@));
                return true;
            }
            i = i + 1;
        }
        false
    }

    /// Whether this registration observes one of the paths of `event`.
    pub fn observes(&self, event: &Event) -> (observed: bool)
        ensures
            observed == route_observes(self@, event@),
    {
        let mut i: usize = 0;
        while i < event.paths.len()
            invariant
                i <= event.paths@.len(),
                forall|j: int| 0 <= j < i ==> !route_contains(self@, #[trigger] event@.paths[j]),
            decreases event.paths@.len() - i,
        {
            if self.contains(&event.paths[i]) {
                assert(route_contains(self@, event@.paths[i as int]));
                return true;
            }
            i = i + 1;
        }
        false
    }
}

pub fn copy_event(event: &Event) -> (copy: Event)
    ensures
        copy@ == event@,
{
    let mut paths: Vec<PathName> = Vec::new();
    let mut i: usize = 0;
    while i < event.paths.len()
        invariant
            i <= event.paths@.len(),
            paths@.len() == i,
            forall|j: int| 0 <= j < i ==> (#[trigger] paths@[j])@ == event.paths@[j]@,
        decreases event.paths@.len() - i,
    {
        paths.push(event.paths[i].copy());
        i = i + 1;
    }
    let copy = Event { kind: event.kind, paths };
    assert(copy@.paths =~= event@.paths);
    copy
}

/// The events of one debounced group that one registration observes.
pub struct Delivery {
    pub id: u64,
    pub events: Vec<Event>,
}

/// Copies each event into the batch of every registration that observes one of
/// its paths. It reads the routes and the event paths, and nothing else.
pub fn dispatch(routes: &Vec<Route>, events: &Vec<Event>) -> (deliveries: Vec<Delivery>)
    ensures
        deliveries@.map_values(|d: Delivery| (d.id, event_views(d.events@))) == batches(
            route_views(routes@),
            event_views(events@),
        ),
{
    let mut deliveries: Vec<Delivery> = Vec::new();
    let ghost pairs = |d: Delivery| (d.id, event_views(d.events@));
    let mut i: usize = 0;
    assert(route_views(routes@).take(0) =~= Seq::<RouteView>::empty());
    assert(deliveries@.map_values(pairs) =~= batches(
        route_views(routes@).take(0),
        event_views(events@),
    ));
    while i < routes.len()
        invariant
            i <= routes@.len(),
            pairs == (|d: Delivery| (d.id, event_views(d.events@))),
            deliveries@.map_values(pairs) == batches(
                route_views(routes@).take(i as int),
                event_views(events@),
            ),
        decreases routes@.len() - i,
    {
        let mut matched: Vec<Event> = Vec::new();
        let ghost wanted = delivered_to(routes@[i as int]@);
        let ghost views = event_views(events@);
        let mut k: usize = 0;
        reveal(Seq::filter);
        assert(views.take(0).filter(wanted) =~= Seq::<EventView>::empty());
        assert(event_views(matched@) =~= Seq::<EventView>::empty());
        while k < events.len()
            invariant
                k <= events@.len(),
                i < routes@.len(),
                wanted == delivered_to(routes@[i as int]@),
                views == event_views(events@),
                event_views(matched@) == views.take(k as int).filter(wanted),
            decreases events@.len() - k,
        {
            let event = &events[k];
            proof {
                assert(views.take(k + 1).drop_last() =~= views.take(k as int));
                assert(views.take(k + 1).last() == event@);
            }
            reveal(Seq::filter);
            if can_change_tree(event) && routes[i].observes(event) {
                let copy = copy_event(event);
                let ghost before = matched@;
                matched.push(copy);
                assert(event_views(matched@) =~= event_views(before).push(event@));
            }
            k = k + 1;
        }
        proof {
            assert(views.take(k as int) =~= views);
            let shown = route_views(routes@);
            assert(shown.take(i + 1).drop_last() =~= shown.take(i as int));
            assert(shown.take(i + 1).last() == routes@[i as int]@);
        }
        if matched.len() > 0 {
            let ghost before = deliveries@;
            let delivery = Delivery { id: routes[i].id, events: matched };
            deliveries.push(delivery);
            assert(deliveries@.map_values(pairs) =~= before.map_values(pairs).push(
                pairs(delivery),
            ));
        }
        i = i + 1;
    }
    assert(route_views(routes@).take(i as int) =~= route_views(routes@));
    deliveries
}

/// Where one registration's batches go: a bounded queue, and a flag that says
/// that something changed that the queue does not hold.
pub struct WatchSink {
    batches: Vec<Vec<Event>>,
    capacity: usize,
    overflow: bool,
}

pub struct SinkView {
    pub batches: Seq<Seq<EventView>>,
    pub capacity: nat,
    pub overflow: bool,
}

/// What handing over one batch leaves: the batch behind the others where there
/// is room, and the overflow flag where there is none.
pub open spec fn delivered(sink: SinkView, batch: Seq<EventView>) -> SinkView {
    if sink.batches.len() < sink.capacity {
        SinkView { batches: sink.batches.push(batch), ..sink }
    } else {
        SinkView { overflow: true, ..sink }
    }
}

/// What a lost event leaves: the flag, and an empty batch to wake the receiver
/// where there is room for one.
pub open spec fn overflowed(sink: SinkView) -> SinkView {
    if sink.batches.len() < sink.capacity {
        SinkView { batches: sink.batches.push(seq![]), overflow: true, ..sink }
    } else {
        SinkView { overflow: true, ..sink }
    }
}

impl View for WatchSink {
    type V = SinkView;

    closed spec fn view(&self) -> SinkView {
        SinkView {
            batches: self.batches@.map_values(|b: Vec<Event>| event_views(b@)),
            capacity: self.capacity as nat,
            overflow: self.overflow,
        }
    }
}

impl WatchSink {
    pub fn new(capacity: usize) -> (sink: WatchSink)
        ensures
            sink@ == (SinkView { batches: seq![], capacity: capacity as nat, overflow: false }),
    {
        let sink = WatchSink { batches: Vec::new(), capacity, overflow: false };
        assert(sink@.batches =~= seq![]);
        sink
    }

    /// Hands one batch over without waiting.
    pub fn deliver(&mut self, batch: Vec<Event>)
        ensures
            final(self)@ == delivered(old(self)@, event_views(batch@)),
    {
        if self.batches.len() < self.capacity {
            self.batches.push(batch);
            assert(self@.batches =~= old(self)@.batches.push(event_views(batch@)));
        } else {
            self.report_overflow();
        }
    }

    /// Records that events were lost, and wakes the receiver.
    pub fn report_overflow(&mut self)
        ensures
            final(self)@ == overflowed(old(self)@),
    {
        self.overflow = true;
        if self.batches.len() < self.capacity {
            self.batches.push(Vec::new());
            assert(event_views(self.batches@.last()@) =~= seq![]);
            assert(self@.batches =~= old(self)@.batches.push(seq![]));
        }
    }

    /// Records that something was lost that no batch can carry.
    pub fn mark_overflow(&mut self)
        ensures
            final(self)@ == (SinkView { overflow: true, ..old(self)@ }),
    {
        self.overflow = true;
    }

    /// Takes every batch out of the queue, oldest first.
    pub fn drain(&mut self) -> (batches: Vec<Vec<Event>>)
        ensures
            batches@.map_values(|b: Vec<Event>| event_views(b@)) == old(self)@.batches,
            final(self)@ == (SinkView { batches: seq![], ..old(self)@ }),
    {
        let mut batches: Vec<Vec<Event>> = Vec::new();
        std::mem::swap(&mut batches, &mut self.batches);
        assert(self@.batches =~= seq![]);
        batches
    }

    /// Reads and clears the overflow flag.
    pub fn take_overflow(&mut self) -> (overflow: bool)
        ensures
            overflow == old(self)@.overflow,
            final(self)@ == (SinkView { overflow: false, ..old(self)@ }),
    {
        let overflow = self.overflow;
        self.overflow = false;
        overflow
    }

    pub fn overflow(&self) -> (overflow: bool)
        ensures
            overflow == self@.overflow,
    {
        self.overflow
    }
}

/// A batch that does not fit is never lost without a trace: after any delivery
/// the batch is in the queue or the flag is set, and no batch that was in the
/// queue is gone.
pub proof fn law_no_silent_loss(sink: SinkView, batch: Seq<EventView>)
    ensures
        delivered(sink, batch).overflow || delivered(sink, batch).batches.contains(batch),
        sink.batches.is_prefix_of(delivered(sink, batch).batches),
        delivered(sink, batch).batches.len() <= sink.capacity || delivered(sink, batch).batches
            == sink.batches,
{
    let after = delivered(sink, batch);
    if sink.batches.len() < sink.capacity {
        assert(after.batches[sink.batches.len() as int] == batch);
        assert(sink.batches =~= after.batches.subrange(0, sink.batches.len() as int));
    } else {
        assert(sink.batches =~= after.batches.subrange(0, sink.batches.len() as int));
    }
}

/// An access that changed nothing reaches no registration.
pub proof fn law_accesses_are_not_delivered(routes: Seq<RouteView>, events: Seq<EventView>)
    requires
        forall|i: int| 0 <= i < events.len() ==> !changes_tree((#[trigger] events[i]).kind),
    ensures
        batches(routes, events) == Seq::<(u64, Seq<EventView>)>::empty(),
    decreases routes.len(),
{
    if routes.len() > 0 {
        law_accesses_are_not_delivered(routes.drop_last(), events);
        events.lemma_all_neg_filter_empty(delivered_to(routes.last()));
    }
}

/// Every registration that observes a change gets it: a change below the root
/// of a registration, or in one of its external directories, stands in a batch
/// of that registration.
pub proof fn law_observed_changes_are_delivered(
    routes: Seq<RouteView>,
    events: Seq<EventView>,
    r: int,
    e: int,
)
    requires
        0 <= r < routes.len(),
        0 <= e < events.len(),
        changes_tree(events[e].kind),
        route_observes(routes[r], events[e]),
    ensures
        exists|b: int|
            0 <= b < batches(routes, events).len() && (#[trigger] batches(routes, events)[b]).0
                == routes[r].id && batches(routes, events)[b].1.contains(events[e]),
    decreases routes.len(),
{
    let all = batches(routes, events);
    let before = batches(routes.drop_last(), events);
    if r == routes.len() - 1 {
        let batch = batch_for(routes[r], events);
        assert(batch.contains(events[e])) by {
            events.lemma_filter_contains(delivered_to(routes[r]), e);
        }
        assert(batch.len() > 0);
        assert(all[before.len() as int] == (routes[r].id, batch));
    } else {
        law_observed_changes_are_delivered(routes.drop_last(), events, r, e);
        let b = choose|b: int|
            0 <= b < before.len() && (#[trigger] before[b]).0 == routes[r].id
                && before[b].1.contains(events[e]);
        assert(all[b] == before[b]);
    }
}

/// Whether a settled registration watches `path` as its root.
pub open spec fn is_root(routes: Seq<RouteView>, path: Seq<Seq<u8>>) -> bool {
    exists|i: int| 0 <= i < routes.len() && (#[trigger] routes[i]).settled && routes[i].root == path
}

/// Whether the root of a settled registration, other than `path` itself,
/// already watches `path` with everything below it.
pub open spec fn covered(routes: Seq<RouteView>, path: Seq<Seq<u8>>) -> bool {
    exists|i: int|
        0 <= i < routes.len() && (#[trigger] routes[i]).settled && routes[i].root != path
            && is_under(path, routes[i].root)
}

/// Whether some registration holds a share of the watch on the external
/// directory `path`.
pub open spec fn is_held(routes: Seq<RouteView>, path: Seq<Seq<u8>>) -> bool {
    exists|i: int| 0 <= i < routes.len() && (#[trigger] routes[i]).watched.contains(path)
}

/// How many settled registrations share the watch on the root `path`.
pub open spec fn root_count(routes: Seq<RouteView>, path: Seq<Seq<u8>>) -> nat
    decreases routes.len(),
{
    if routes.len() == 0 {
        0
    } else {
        let last = routes.last();
        root_count(routes.drop_last(), path) + if last.settled && last.root == path {
            1nat
        } else {
            0nat
        }
    }
}

/// How many registrations share the watch on the external directory `path`.
pub open spec fn external_count(routes: Seq<RouteView>, path: Seq<Seq<u8>>) -> nat
    decreases routes.len(),
{
    if routes.len() == 0 {
        0
    } else {
        external_count(routes.drop_last(), path) + if routes.last().watched.contains(path) {
            1nat
        } else {
            0nat
        }
    }
}

/// The index of the first route called `id`, or the number of routes.
pub open spec fn route_index(routes: Seq<RouteView>, id: u64) -> int
    decreases routes.len(),
{
    if routes.len() == 0 || routes[0].id == id {
        0
    } else {
        1 + route_index(routes.drop_first(), id)
    }
}

/// Whether there is a route called `id`.
pub open spec fn has_route(routes: Seq<RouteView>, id: u64) -> bool {
    route_index(routes, id) < routes.len()
}

/// The routes without the one called `id`.
pub open spec fn without_route(routes: Seq<RouteView>, id: u64) -> Seq<RouteView> {
    if has_route(routes, id) {
        routes.remove(route_index(routes, id))
    } else {
        routes
    }
}

/// What a new root needs of the platform watcher.
#[derive(Clone, Copy, Debug, PartialEq, Eq, Structural)]
pub enum RootWatch {
    /// Another registration watches this root: one watch serves both.
    Shared,
    /// The root lies inside another registered root, whose watch reports it.
    Covered,
    /// A watch of its own.
    Platform,
}

/// What a root needs of the platform watcher beside the given routes.
pub open spec fn root_watch(routes: Seq<RouteView>, root: Seq<Seq<u8>>) -> RootWatch {
    if is_root(routes, root) {
        RootWatch::Shared
    } else if covered(routes, root) {
        RootWatch::Covered
    } else {
        RootWatch::Platform
    }
}

/// A route as it is published, before its root watch is in place.
pub open spec fn published(id: u64, root: Seq<Seq<u8>>) -> RouteView {
    RouteView { id, root, externals: Set::empty(), watched: Set::empty(), settled: false }
}

/// The routes once the watch of the route `id` is in place, or could not be put
/// in place where it needs one of its own.
pub open spec fn settled(routes: Seq<RouteView>, id: u64, watched: bool) -> Seq<RouteView> {
    let i = route_index(routes, id);
    if i == routes.len() {
        routes
    } else if root_watch(routes, routes[i].root) == RootWatch::Platform && !watched {
        routes.remove(i)
    } else {
        routes.update(i, RouteView { settled: true, ..routes[i] })
    }
}

/// What a rule directory needs of the platform watcher.
#[derive(Clone, Copy, Debug, PartialEq, Eq, Structural)]
pub enum ExternalWatch {
    /// Nothing: there is no such registration, or it knows the directory.
    Known,
    /// A root watch already reports the directory.
    Covered,
    /// Another registration watches it: one watch serves both.
    Shared,
    /// A watch of its own.
    Platform,
}

/// What a rule directory of the route `id` needs of the platform watcher.
pub open spec fn external_watch(routes: Seq<RouteView>, id: u64, parent: Seq<Seq<u8>>) -> ExternalWatch {
    let i = route_index(routes, id);
    if i == routes.len() || routes[i].externals.contains(parent) {
        ExternalWatch::Known
    } else if covered(routes, parent) {
        ExternalWatch::Covered
    } else if is_held(routes, parent) {
        ExternalWatch::Shared
    } else {
        ExternalWatch::Platform
    }
}

/// The routes once the route `id` depends on the rule directory `parent`.
pub open spec fn with_external(
    routes: Seq<RouteView>,
    id: u64,
    parent: Seq<Seq<u8>>,
    watched: bool,
) -> Seq<RouteView> {
    let i = route_index(routes, id);
    let routed = RouteView { externals: routes[i].externals.insert(parent), ..routes[i] };
    match external_watch(routes, id, parent) {
        ExternalWatch::Known => routes,
        ExternalWatch::Covered => routes.update(i, routed),
        ExternalWatch::Platform if !watched => routes,
        _ => routes.update(i, RouteView { watched: routed.watched.insert(parent), ..routed }),
    }
}

/// Whether a registration depends on `path` without a watch that reports it.
pub open spec fn needs_watch(route: RouteView, routes: Seq<RouteView>, path: Seq<Seq<u8>>) -> bool {
    route.externals.contains(path) && !route.watched.contains(path) && !covered(routes, path)
}

/// Whether a rule directory has to be watched anew once the route `id` is gone:
/// a remaining registration depends on it, and nothing watches it any more.
pub open spec fn orphaned(routes: Seq<RouteView>, id: u64, path: Seq<Seq<u8>>) -> bool {
    let after = without_route(routes, id);
    !is_held(routes, path) && is_needed(after, after, path)
}

/// Whether one of `some` depends on `path` without a watch, given the roots of
/// all of `routes`.
pub open spec fn is_needed(some: Seq<RouteView>, routes: Seq<RouteView>, path: Seq<Seq<u8>>) -> bool {
    exists|i: int| 0 <= i < some.len() && needs_watch(#[trigger] some[i], routes, path)
}

/// A remaining route once the route `id` is gone: it takes a share of the watch
/// on each rule directory that only a released root reported, and forgets the
/// directories that could not be watched.
pub open spec fn adopted(
    route: RouteView,
    routes: Seq<RouteView>,
    id: u64,
    failed: Set<Seq<Seq<u8>>>,
) -> RouteView {
    let after = without_route(routes, id);
    let lost = Set::new(
        |p: Seq<Seq<u8>>|
            needs_watch(route, after, p) && failed.contains(p) && !is_held(routes, p),
    );
    let taken = Set::new(|p: Seq<Seq<u8>>| needs_watch(route, after, p) && !lost.contains(p));
    RouteView {
        externals: route.externals.difference(lost),
        watched: route.watched.union(taken),
        ..route
    }
}

/// The routes once the route `id` is released.
pub open spec fn released(
    routes: Seq<RouteView>,
    id: u64,
    failed: Set<Seq<Seq<u8>>>,
) -> Seq<RouteView> {
    without_route(routes, id).map_values(|r: RouteView| adopted(r, routes, id, failed))
}

/// The registrations of the process.
pub struct WatchHub {
    routes: Vec<Route>,
    next_id: u64,
}

pub struct HubView {
    pub routes: Seq<RouteView>,
    pub next_id: u64,
}

impl HubView {
    /// Ids are never reused, a registration holds shares only of directories it
    /// depends on, and something reports every directory a registration
    /// depends on.
    pub open spec fn wf(self) -> bool {
        &&& forall|i: int| 0 <= i < self.routes.len() ==> (#[trigger] self.routes[i]).id < self.next_id
        &&& forall|i: int, j: int|
            0 <= i < j < self.routes.len() ==> (#[trigger] self.routes[i]).id != (
            #[trigger] self.routes[j]).id
        &&& forall|i: int|
            0 <= i < self.routes.len() ==> (#[trigger] self.routes[i]).watched.subset_of(
                self.routes[i].externals,
            )
        &&& forall|i: int, e: Seq<Seq<u8>>|
            0 <= i < self.routes.len() && #[trigger] self.routes[i].externals.contains(e)
                ==> self.routes[i].watched.contains(e) || covered(self.routes, e)
    }
}

impl View for WatchHub {
    type V = HubView;

    closed spec fn view(&self) -> HubView {
        HubView { routes: route_views(self.routes@), next_id: self.next_id }
    }
}

proof fn lemma_route_index(routes: Seq<RouteView>, id: u64, n: int)
    requires
        0 <= n <= routes.len(),
        forall|i: int| 0 <= i < n ==> (#[trigger] routes[i]).id != id,
        n < routes.len() ==> routes[n].id == id,
    ensures
        route_index(routes, id) == n,
    decreases n,
{
    if n > 0 {
        let rest = routes.drop_first();
        assert forall|i: int| 0 <= i < n - 1 implies (#[trigger] rest[i]).id != id by {
            assert(rest[i] == routes[i + 1]);
        }
        lemma_route_index(rest, id, n - 1);
    }
}

pub proof fn lemma_route_index_bounds(routes: Seq<RouteView>, id: u64)
    ensures
        0 <= route_index(routes, id) <= routes.len(),
        has_route(routes, id) ==> routes[route_index(routes, id)].id == id,
    decreases routes.len(),
{
    if routes.len() > 0 && routes[0].id != id {
        lemma_route_index_bounds(routes.drop_first(), id);
    }
}

/// What publishing a route asks of the caller.
#[derive(Clone, Copy, Debug, PartialEq, Eq, Structural)]
pub struct Opening {
    pub id: u64,
    /// There is no platform watcher yet: start one.
    pub start: bool,
    /// The root needs a watch of its own.
    pub watch: bool,
}

impl WatchHub {
    pub fn new() -> (hub: WatchHub)
        ensures
            hub@ == (HubView { routes: seq![], next_id: 0 }),
            hub@.wf(),
    {
        let hub = WatchHub { routes: Vec::new(), next_id: 0 };
        assert(hub@.routes =~= seq![]);
        hub
    }

    /// The registrations, for [`dispatch`].
    pub fn routes(&self) -> (routes: &Vec<Route>)
        ensures
            route_views(routes@) == self@.routes,
    {
        &self.routes
    }

    fn find(&self, id: u64) -> (index: usize)
        ensures
            index == route_index(self@.routes, id),
            index <= self.routes@.len(),
    {
        let mut i: usize = 0;
        while i < self.routes.len()
            invariant
                i <= self.routes@.len(),
                forall|j: int| 0 <= j < i ==> (#[trigger] self@.routes[j]).id != id,
            decreases self.routes@.len() - i,
        {
            if self.routes[i].id == id {
                proof {
                    lemma_route_index(self@.routes, id, i as int);
                }
                return i;
            }
            i = i + 1;
        }
        proof {
            lemma_route_index(self@.routes, id, i as int);
        }
        i
    }

    /// Whether a platform watcher has to exist: some checkout needs it.
    pub fn has_watcher(&self) -> (needed: bool)
        ensures
            needed == (self@.routes.len() > 0),
    {
        self.routes.len() > 0
    }

    /// How many registrations share the watch on `root`.
    pub fn root_holders(&self, root: &PathName) -> (count: usize)
        ensures
            count == root_count(self@.routes, root@),
    {
        let mut count: usize = 0;
        let mut i: usize = 0;
        let ghost views = self@.routes;
        while i < self.routes.len()
            invariant
                i <= self.routes@.len(),
                count <= i,
                views == self@.routes,
                count == root_count(views.take(i as int), root@),
            decreases self.routes@.len() - i,
        {
            let route = &self.routes[i];
            assert(views.take(i + 1).drop_last() =~= views.take(i as int));
            assert(views.take(i + 1).last() == route@);
            if route.settled && route.root.same(root) {
                count = count + 1;
            }
            i = i + 1;
        }
        assert(views.take(i as int) =~= views);
        count
    }

    /// How many registrations share the watch on the rule directory `path`.
    pub fn external_holders(&self, path: &PathName) -> (count: usize)
        ensures
            count == external_count(self@.routes, path@),
    {
        let mut count: usize = 0;
        let mut i: usize = 0;
        let ghost views = self@.routes;
        while i < self.routes.len()
            invariant
                i <= self.routes@.len(),
                count <= i,
                views == self@.routes,
                count == external_count(views.take(i as int), path@),
            decreases self.routes@.len() - i,
        {
            let route = &self.routes[i];
            assert(views.take(i + 1).drop_last() =~= views.take(i as int));
            assert(views.take(i + 1).last() == route@);
            if holds(&route.watched, path) {
                count = count + 1;
            }
            i = i + 1;
        }
        assert(views.take(i as int) =~= views);
        count
    }

    /// What `root` needs of the platform watcher.
    pub fn root_plan(&self, root: &PathName) -> (plan: RootWatch)
        ensures
            plan == root_watch(self@.routes, root@),
    {
        if any_root(&self.routes, root) {
            RootWatch::Shared
        } else if covered_by_a_root(&self.routes, root) {
            RootWatch::Covered
        } else {
            RootWatch::Platform
        }
    }

    /// Publishes a route for `root`, before its watch, so that an event that
    /// arrives during the registration is delivered.
    pub fn register(&mut self, root: PathName) -> (opening: Opening)
        requires
            old(self)@.wf(),
            old(self)@.next_id < u64::MAX,
        ensures
            final(self)@.routes == old(self)@.routes.push(published(old(self)@.next_id, root@)),
            final(self)@.next_id == old(self)@.next_id + 1,
            final(self)@.wf(),
            opening.id == old(self)@.next_id,
            opening.start == (old(self)@.routes.len() == 0),
            opening.watch == (root_watch(old(self)@.routes, root@) == RootWatch::Platform),
    {
        let id: u64 = self.next_id;
        let start = self.routes.len() == 0;
        let watch = match self.root_plan(&root) {
            RootWatch::Platform => true,
            _ => false,
        };
        let ghost before = self@;
        self.next_id = id + 1;
        let route = Route { id, root, externals: Vec::new(), watched: Vec::new(), settled: false };
        assert(route@.externals =~= Set::empty());
        assert(route@.watched =~= Set::empty());
        self.routes.push(route);
        assert(self@.routes =~= before.routes.push(published(id, root@)));
        proof {
            lemma_published_keeps_wf(before, root@);
        }
        Opening { id, start, watch }
    }

    /// Counts the route `id` in once its watch is in place. Where it needs a
    /// watch of its own and there is none, the route is taken back.
    pub fn settle(&mut self, id: u64, watched: bool) -> (registered: bool)
        requires
            old(self)@.wf(),
            has_route(old(self)@.routes, id),
        ensures
            final(self)@.routes == settled(old(self)@.routes, id, watched),
            final(self)@.next_id == old(self)@.next_id,
            final(self)@.wf(),
            registered == has_route(final(self)@.routes, id),
            registered == (watched || root_watch(
                old(self)@.routes,
                old(self)@.routes[route_index(old(self)@.routes, id)].root,
            ) != RootWatch::Platform),
    {
        let ghost before = self@;
        let i: usize = self.find(id);
        let plan = self.root_plan(&self.routes[i].root);
        let own = match plan {
            RootWatch::Platform => true,
            _ => false,
        };
        proof {
            lemma_settled_keeps_wf(before, id, watched);
        }
        if own && !watched {
            self.routes.remove(i);
            assert(self@.routes =~= before.routes.remove(i as int));
            false
        } else {
            let mut route = self.routes.remove(i);
            route.settled = true;
            self.routes.insert(i, route);
            assert(self@.routes =~= settled(before.routes, id, watched));
            true
        }
    }

    /// What releasing the route `id` asks of the caller.
    pub fn release_plan(&self, id: u64) -> (plan: ReleasePlan)
        requires
            has_route(self@.routes, id),
        ensures
            plan.meets(self@.routes, id),
    {
        let ghost routes = self@.routes;
        let i: usize = self.find(id);
        let root = &self.routes[i].root;
        let rest = self.remaining(i);
        let ghost after = route_views(rest@);
        assert(rest@.len() == after.len());
        let last_holder = !any_root(&rest, root);
        let mut trees: Vec<PathName> = Vec::new();
        let mut directories: Vec<PathName> = Vec::new();
        assert(path_set(trees@) =~= Set::empty());
        if last_holder {
            trees = related_roots(&rest, root);
            directories = held_below(&self.routes, root);
            assert(path_set(trees@) =~= tree_rewatches(routes, id));
            assert(path_set(directories@) =~= directory_rewatches(routes, id));
        }
        ReleasePlan {
            unwatch_root: last_holder,
            rewatch_trees: trees,
            rewatch_directories: directories,
            watch_directories: orphans(&rest, &self.routes),
            unwatch_directories: unneeded(&self.routes[i].watched, &rest),
            stop: rest.len() == 0,
        }
    }

    /// Copies of the routes without the one at `i`.
    fn remaining(&self, i: usize) -> (rest: Vec<Route>)
        requires
            i < self@.routes.len(),
        ensures
            route_views(rest@) == self@.routes.remove(i as int),
    {
        let mut rest: Vec<Route> = Vec::new();
        let mut k: usize = 0;
        while k < self.routes.len()
            invariant
                k <= self.routes@.len(),
                i < self.routes@.len(),
                rest@.len() == if k <= i { k as int } else { k - 1 },
                forall|j: int|
                    0 <= j < rest@.len() ==> (#[trigger] rest@[j])@ == self.routes@[if j < i {
                        j
                    } else {
                        j + 1
                    }]@,
            decreases self.routes@.len() - k,
        {
            if k != i {
                rest.push(copy_route(&self.routes[k]));
            }
            k = k + 1;
        }
        assert(route_views(rest@) =~= self@.routes.remove(i as int));
        rest
    }

    /// Releases everything the route `id` holds. `failed` names the rule
    /// directories of [`ReleasePlan::watch_directories`] that could not be
    /// watched.
    pub fn release(&mut self, id: u64, failed: &Vec<PathName>)
        requires
            old(self)@.wf(),
            has_route(old(self)@.routes, id),
        ensures
            final(self)@.routes == released(old(self)@.routes, id, path_set(failed@)),
            final(self)@.next_id == old(self)@.next_id,
            final(self)@.wf(),
    {
        let ghost before = self@;
        let ghost routes = self@.routes;
        let ghost after = without_route(routes, id);
        let ghost lost_set = path_set(failed@);
        let i: usize = self.find(id);
        let rest = self.remaining(i);
        let mut kept: Vec<Route> = Vec::new();
        let mut k: usize = 0;
        while k < rest.len()
            invariant
                k <= rest@.len(),
                routes == self@.routes,
                after == without_route(routes, id),
                route_views(rest@) == after,
                lost_set == path_set(failed@),
                kept@.len() == k,
                forall|j: int|
                    0 <= j < k ==> (#[trigger] kept@[j])@ == adopted(after[j], routes, id, lost_set),
            decreases rest@.len() - k,
        {
            assert(after[k as int] == rest@[k as int]@);
            let route = adopt(&rest[k], &rest, &self.routes, failed, Ghost(id));
            kept.push(route);
            k = k + 1;
        }
        self.routes = kept;
        assert(self@.routes =~= released(routes, id, lost_set));
        proof {
            lemma_released_keeps_wf(before, id, lost_set);
        }
    }

    /// What the rule directory `parent` of the route `id` needs of the platform
    /// watcher.
    pub fn external_plan(&self, id: u64, parent: &PathName) -> (plan: ExternalWatch)
        ensures
            plan == external_watch(self@.routes, id, parent@),
    {
        let i: usize = self.find(id);
        if i == self.routes.len() || holds(&self.routes[i].externals, parent) {
            ExternalWatch::Known
        } else if covered_by_a_root(&self.routes, parent) {
            ExternalWatch::Covered
        } else if any_holder(&self.routes, parent) {
            ExternalWatch::Shared
        } else {
            ExternalWatch::Platform
        }
    }

    /// Lets the route `id` depend on the rule directory `parent`. `watched`
    /// says whether the watch succeeded that [`WatchHub::external_plan`] asked
    /// for; a directory that cannot be watched is left out, because the
    /// periodic reconcile still covers a change in it.
    pub fn add_external(&mut self, id: u64, parent: PathName, watched: bool)
        requires
            old(self)@.wf(),
        ensures
            final(self)@.routes == with_external(old(self)@.routes, id, parent@, watched),
            final(self)@.next_id == old(self)@.next_id,
            final(self)@.wf(),
    {
        let ghost before = self@;
        let plan = self.external_plan(id, &parent);
        proof {
            lemma_external_keeps_wf(before, id, parent@, watched);
            lemma_route_index_bounds(before.routes, id);
        }
        let (routed, share) = match plan {
            ExternalWatch::Known => (false, false),
            ExternalWatch::Covered => (true, false),
            ExternalWatch::Shared => (true, true),
            ExternalWatch::Platform => (watched, watched),
        };
        if routed {
            let i: usize = self.find(id);
            let mut route = self.routes.remove(i);
            let ghost was = route@;
            if share {
                add_path(&mut route.watched, parent.copy());
            }
            add_path(&mut route.externals, parent);
            self.routes.insert(i, route);
            assert(self@.routes =~= with_external(before.routes, id, parent@, watched));
        } else {
            assert(self@.routes =~= before.routes);
        }
    }
}

/// Whether a settled registration watches `path` as its root.
fn any_root(routes: &Vec<Route>, path: &PathName) -> (found: bool)
    ensures
        found == is_root(route_views(routes@), path@),
{
    let ghost views = route_views(routes@);
    let mut i: usize = 0;
    while i < routes.len()
        invariant
            i <= routes@.len(),
            views == route_views(routes@),
            forall|j: int| 0 <= j < i ==> !((#[trigger] views[j]).settled && views[j].root == path@),
        decreases routes@.len() - i,
    {
        if routes[i].settled && routes[i].root.same(path) {
            assert(views[i as int].settled && views[i as int].root == path@);
            return true;
        }
        i = i + 1;
    }
    false
}

/// Whether some registered root already watches `path` with everything below
/// it. The root itself is not a cover for itself.
fn covered_by_a_root(routes: &Vec<Route>, path: &PathName) -> (found: bool)
    ensures
        found == covered(route_views(routes@), path@),
{
    let ghost views = route_views(routes@);
    let mut i: usize = 0;
    while i < routes.len()
        invariant
            i <= routes@.len(),
            views == route_views(routes@),
            forall|j: int|
                0 <= j < i ==> !((#[trigger] views[j]).settled && views[j].root != path@
                    && is_under(path@, views[j].root)),
        decreases routes@.len() - i,
    {
        if routes[i].settled && !routes[i].root.same(path) && path.under(&routes[i].root) {
            assert(views[i as int].settled);
            return true;
        }
        i = i + 1;
    }
    false
}

/// Whether some registration holds a share of the watch on `path`.
fn any_holder(routes: &Vec<Route>, path: &PathName) -> (found: bool)
    ensures
        found == is_held(route_views(routes@), path@),
{
    let ghost views = route_views(routes@);
    let mut i: usize = 0;
    while i < routes.len()
        invariant
            i <= routes@.len(),
            views == route_views(routes@),
            forall|j: int| 0 <= j < i ==> !(#[trigger] views[j]).watched.contains(path@),
        decreases routes@.len() - i,
    {
        if holds(&routes[i].watched, path) {
            assert(views[i as int].watched.contains(path@));
            return true;
        }
        i = i + 1;
    }
    false
}

proof fn lemma_published_keeps_wf(hub: HubView, root: Seq<Seq<u8>>)
    requires
        hub.wf(),
        hub.next_id < u64::MAX,
    ensures
        (HubView {
            routes: hub.routes.push(published(hub.next_id, root)),
            next_id: (hub.next_id + 1) as u64,
        }).wf(),
{
    let routes = hub.routes.push(published(hub.next_id, root));
    assert forall|i: int, e: Seq<Seq<u8>>|
        0 <= i < routes.len() && #[trigger] routes[i].externals.contains(e) implies routes[i].watched.contains(
    e) || covered(routes, e) by {
        if i < hub.routes.len() {
            assert(hub.routes[i].externals.contains(e));
            if covered(hub.routes, e) {
                assert forall|k: int|
                    0 <= k < hub.routes.len() && (
                    #[trigger] hub.routes[k]).settled implies is_root(
                    routes,
                    hub.routes[k].root,
                ) by {
                    assert(routes[k].settled);
                }
                lemma_covered_is_monotone(hub.routes, routes, e);
            }
        }
    }
}

/// What covers a path in some routes covers it in routes that keep theirs.
proof fn lemma_covered_is_monotone(less: Seq<RouteView>, more: Seq<RouteView>, path: Seq<Seq<u8>>)
    requires
        covered(less, path),
        forall|i: int|
            0 <= i < less.len() && (#[trigger] less[i]).settled ==> is_root(more, less[i].root),
    ensures
        covered(more, path),
{
    let i = choose|i: int|
        0 <= i < less.len() && (#[trigger] less[i]).settled && less[i].root != path && is_under(
            path,
            less[i].root,
        );
    let j = choose|j: int| 0 <= j < more.len() && (#[trigger] more[j]).settled && more[j].root == less[i].root;
    assert(more[j].settled && more[j].root != path && is_under(path, more[j].root));
}

proof fn lemma_settled_keeps_wf(hub: HubView, id: u64, watched: bool)
    requires
        hub.wf(),
        has_route(hub.routes, id),
    ensures
        (HubView { routes: settled(hub.routes, id, watched), ..hub }).wf(),
        has_route(settled(hub.routes, id, watched), id) == (watched || root_watch(
            hub.routes,
            hub.routes[route_index(hub.routes, id)].root,
        ) != RootWatch::Platform),
{
    let i = route_index(hub.routes, id);
    lemma_route_index_bounds(hub.routes, id);
    let after = settled(hub.routes, id, watched);
    let gone = root_watch(hub.routes, hub.routes[i].root) == RootWatch::Platform && !watched;
    if gone {
        assert(!hub.routes[i].settled) by {
            if hub.routes[i].settled {
                assert(is_root(hub.routes, hub.routes[i].root));
            }
        }
        lemma_route_index(after, id, after.len() as int);
    } else {
        lemma_route_index(after, id, i);
    }
    assert forall|k: int|
        0 <= k < hub.routes.len() && (#[trigger] hub.routes[k]).settled implies is_root(
        after,
        hub.routes[k].root,
    ) by {
        if gone {
            let j = if k < i { k } else { k - 1 };
            assert(after[j].settled && after[j].root == hub.routes[k].root);
        } else {
            assert(after[k].settled && after[k].root == hub.routes[k].root);
        }
    }
    assert forall|k: int, e: Seq<Seq<u8>>|
        0 <= k < after.len() && #[trigger] after[k].externals.contains(e) implies after[k].watched.contains(
    e) || covered(after, e) by {
        let j = if gone && k >= i { k + 1 } else { k };
        assert(hub.routes[j].externals.contains(e));
        if covered(hub.routes, e) {
            lemma_covered_is_monotone(hub.routes, after, e);
        }
    }
}

proof fn lemma_external_keeps_wf(hub: HubView, id: u64, parent: Seq<Seq<u8>>, watched: bool)
    requires
        hub.wf(),
    ensures
        (HubView { routes: with_external(hub.routes, id, parent, watched), ..hub }).wf(),
{
    let i = route_index(hub.routes, id);
    lemma_route_index_bounds(hub.routes, id);
    let after = with_external(hub.routes, id, parent, watched);
    assert forall|k: int|
        0 <= k < hub.routes.len() && (#[trigger] hub.routes[k]).settled implies is_root(
        after,
        hub.routes[k].root,
    ) by {
        assert(after[k].settled && after[k].root == hub.routes[k].root);
    }
    assert forall|k: int, e: Seq<Seq<u8>>|
        0 <= k < after.len() && #[trigger] after[k].externals.contains(e) implies after[k].watched.contains(
    e) || covered(after, e) by {
        if hub.routes[k].externals.contains(e) {
            if covered(hub.routes, e) {
                lemma_covered_is_monotone(hub.routes, after, e);
            }
        } else {
            if covered(hub.routes, parent) {
                lemma_covered_is_monotone(hub.routes, after, parent);
            }
        }
    }
}

/// The roots to watch again once the watch on the root of the route `id` is
/// gone: removing it also takes the watches below it, so a nested root and the
/// coverage that an enclosing root had are put back.
pub open spec fn tree_rewatches(routes: Seq<RouteView>, id: u64) -> Set<Seq<Seq<u8>>> {
    let root = routes[route_index(routes, id)].root;
    Set::new(
        |p: Seq<Seq<u8>>|
            is_root(without_route(routes, id), p) && (is_under(p, root) || is_under(root, p)),
    )
}

/// The rule directories to watch again once the watch on the root of the route
/// `id` is gone.
pub open spec fn directory_rewatches(routes: Seq<RouteView>, id: u64) -> Set<Seq<Seq<u8>>> {
    let root = routes[route_index(routes, id)].root;
    Set::new(|p: Seq<Seq<u8>>| is_held(routes, p) && is_under(p, root))
}

/// The platform calls that a release asks for, in the order of the fields.
pub struct ReleasePlan {
    /// The root has no other holder: take its watch away.
    pub unwatch_root: bool,
    /// Roots to watch again, with everything below them.
    pub rewatch_trees: Vec<PathName>,
    /// Rule directories to watch again, without what lies deeper.
    pub rewatch_directories: Vec<PathName>,
    /// Rule directories that only the released root reported and that a
    /// remaining registration depends on: watch them.
    pub watch_directories: Vec<PathName>,
    /// Rule directories that no registration depends on any more.
    pub unwatch_directories: Vec<PathName>,
    /// Nothing is registered any more: stop the platform watcher.
    pub stop: bool,
}

impl ReleasePlan {
    /// Whether this is what releasing the route `id` asks for.
    pub open spec fn meets(self, routes: Seq<RouteView>, id: u64) -> bool {
        let after = without_route(routes, id);
        let target = routes[route_index(routes, id)];
        let last_holder = !is_root(after, target.root);
        &&& self.unwatch_root == last_holder
        &&& path_set(self.rewatch_trees@) == if last_holder {
            tree_rewatches(routes, id)
        } else {
            Set::empty()
        }
        &&& path_set(self.rewatch_directories@) == if last_holder {
            directory_rewatches(routes, id)
        } else {
            Set::empty()
        }
        &&& forall|p: Seq<Seq<u8>>|
            #[trigger] path_set(self.watch_directories@).contains(p) <==> orphaned(routes, id, p)
        &&& forall|p: Seq<Seq<u8>>| #[trigger]
            path_set(self.unwatch_directories@).contains(p) <==> target.watched.contains(p)
                && !is_held(after, p) && !is_needed(after, after, p)
        &&& self.stop == (after.len() == 0)
    }
}

pub fn copy_paths(paths: &Vec<PathName>) -> (copy: Vec<PathName>)
    ensures
        path_set(copy@) == path_set(paths@),
        copy@.len() == paths@.len(),
        forall|i: int| 0 <= i < copy@.len() ==> (#[trigger] copy@[i])@ == paths@[i]@,
{
    let mut copy: Vec<PathName> = Vec::new();
    let mut i: usize = 0;
    while i < paths.len()
        invariant
            i <= paths@.len(),
            copy@.len() == i,
            forall|j: int| 0 <= j < i ==> (#[trigger] copy@[j])@ == paths@[j]@,
        decreases paths@.len() - i,
    {
        copy.push(paths[i].copy());
        i = i + 1;
    }
    assert forall|p: Seq<Seq<u8>>| path_set(copy@).contains(p) == path_set(paths@).contains(p) by {
        if path_set(paths@).contains(p) {
            let j = choose|j: int| 0 <= j < paths@.len() && (#[trigger] paths@[j])@ == p;
            assert(copy@[j]@ == p);
        }
        if path_set(copy@).contains(p) {
            let j = choose|j: int| 0 <= j < copy@.len() && (#[trigger] copy@[j])@ == p;
            assert(paths@[j]@ == p);
        }
    }
    assert(path_set(copy@) =~= path_set(paths@));
    copy
}

fn copy_route(route: &Route) -> (copy: Route)
    ensures
        copy@ == route@,
{
    Route {
        id: route.id,
        root: route.root.copy(),
        externals: copy_paths(&route.externals),
        watched: copy_paths(&route.watched),
        settled: route.settled,
    }
}

/// Whether some registration depends on `path` without a watch that reports it.
fn any_needs(routes: &Vec<Route>, path: &PathName) -> (found: bool)
    ensures
        found == is_needed(route_views(routes@), route_views(routes@), path@),
{
    let ghost views = route_views(routes@);
    if covered_by_a_root(routes, path) {
        return false;
    }
    let mut i: usize = 0;
    while i < routes.len()
        invariant
            i <= routes@.len(),
            views == route_views(routes@),
            !covered(views, path@),
            forall|j: int| 0 <= j < i ==> !needs_watch(#[trigger] views[j], views, path@),
        decreases routes@.len() - i,
    {
        assert(views[i as int] == routes@[i as int]@);
        if holds(&routes[i].externals, path) && !holds(&routes[i].watched, path) {
            assert(needs_watch(views[i as int], views, path@));
            return true;
        }
        i = i + 1;
    }
    false
}

/// The registered roots that lie below or above `root`, each once.
fn related_roots(routes: &Vec<Route>, root: &PathName) -> (roots: Vec<PathName>)
    ensures
        forall|p: Seq<Seq<u8>>| #[trigger]
            path_set(roots@).contains(p) <==> is_root(route_views(routes@), p) && (is_under(
                p,
                root@,
            ) || is_under(root@, p)),
{
    let ghost views = route_views(routes@);
    let mut roots: Vec<PathName> = Vec::new();
    let mut i: usize = 0;
    while i < routes.len()
        invariant
            i <= routes@.len(),
            views == route_views(routes@),
            forall|p: Seq<Seq<u8>>| #[trigger]
                path_set(roots@).contains(p) <==> is_root(views.take(i as int), p) && (is_under(
                    p,
                    root@,
                ) || is_under(root@, p)),
        decreases routes@.len() - i,
    {
        let route = &routes[i];
        let ghost before = path_set(roots@);
        assert(views[i as int] == route@);
        if route.settled && (route.root.under(root) || root.under(&route.root)) && !holds(
            &roots,
            &route.root,
        ) {
            add_path(&mut roots, route.root.copy());
        }
        assert forall|p: Seq<Seq<u8>>| #[trigger]
            path_set(roots@).contains(p) <==> is_root(views.take(i + 1), p) && (is_under(p, root@)
                || is_under(root@, p)) by {
            lemma_root_next(views, i as int, p);
            assert(before.contains(p) <==> is_root(views.take(i as int), p) && (is_under(p, root@)
                || is_under(root@, p)));
        }
        i = i + 1;
    }
    assert(views.take(i as int) =~= views);
    roots
}

/// The rule directories below `root` that a registration holds, each once.
fn held_below(routes: &Vec<Route>, root: &PathName) -> (held: Vec<PathName>)
    ensures
        forall|p: Seq<Seq<u8>>| #[trigger]
            path_set(held@).contains(p) <==> is_held(route_views(routes@), p) && is_under(p, root@),
{
    let ghost views = route_views(routes@);
    let mut held: Vec<PathName> = Vec::new();
    let mut i: usize = 0;
    while i < routes.len()
        invariant
            i <= routes@.len(),
            views == route_views(routes@),
            forall|p: Seq<Seq<u8>>| #[trigger]
                path_set(held@).contains(p) <==> is_held(views.take(i as int), p) && is_under(
                    p,
                    root@,
                ),
        decreases routes@.len() - i,
    {
        let ghost before = path_set(held@);
        assert(views[i as int] == routes@[i as int]@);
        add_below(&mut held, &routes[i].watched, root);
        assert forall|p: Seq<Seq<u8>>| #[trigger]
            path_set(held@).contains(p) <==> is_held(views.take(i + 1), p) && is_under(p, root@) by {
            lemma_held_next(views, i as int, p);
            assert(before.contains(p) <==> is_held(views.take(i as int), p) && is_under(p, root@));
        }
        i = i + 1;
    }
    assert(views.take(i as int) =~= views);
    held
}

/// Adds to `list` the paths of `from` that lie below `root`.
fn add_below(list: &mut Vec<PathName>, from: &Vec<PathName>, root: &PathName)
    ensures
        forall|p: Seq<Seq<u8>>| #[trigger]
            path_set(final(list)@).contains(p) <==> path_set(old(list)@).contains(p) || (path_set(
                from@,
            ).contains(p) && is_under(p, root@)),
{
    let ghost start = path_set(list@);
    let mut i: usize = 0;
    assert(path_set(from@.take(0)) =~= Set::empty());
    while i < from.len()
        invariant
            i <= from@.len(),
            forall|p: Seq<Seq<u8>>| #[trigger]
                path_set(list@).contains(p) <==> start.contains(p) || (path_set(
                    from@.take(i as int),
                ).contains(p) && is_under(p, root@)),
        decreases from@.len() - i,
    {
        let ghost before = path_set(list@);
        proof {
            crate::paths::lemma_path_set_next(from@, i as int);
        }
        if from[i].under(root) && !holds(list, &from[i]) {
            add_path(list, from[i].copy());
        }
        assert forall|p: Seq<Seq<u8>>| #[trigger]
            path_set(list@).contains(p) <==> start.contains(p) || (path_set(
                from@.take(i + 1),
            ).contains(p) && is_under(p, root@)) by {
            assert(before.contains(p) <==> start.contains(p) || (path_set(
                from@.take(i as int),
            ).contains(p) && is_under(p, root@)));
        }
        i = i + 1;
    }
    assert(from@.take(i as int) =~= from@);
}

/// The rule directories that a route of `rest` depends on, that no root of
/// `rest` reports, and that no route of `all` holds a watch on, each once.
fn orphans(rest: &Vec<Route>, all: &Vec<Route>) -> (found: Vec<PathName>)
    ensures
        forall|p: Seq<Seq<u8>>| #[trigger]
            path_set(found@).contains(p) <==> !is_held(route_views(all@), p) && is_needed(
                route_views(rest@),
                route_views(rest@),
                p,
            ),
{
    let ghost views = route_views(rest@);
    let ghost every = route_views(all@);
    let mut found: Vec<PathName> = Vec::new();
    let mut i: usize = 0;
    while i < rest.len()
        invariant
            i <= rest@.len(),
            views == route_views(rest@),
            every == route_views(all@),
            forall|p: Seq<Seq<u8>>| #[trigger]
                path_set(found@).contains(p) <==> !is_held(every, p) && is_needed(
                    views.take(i as int),
                    views,
                    p,
                ),
        decreases rest@.len() - i,
    {
        let route = &rest[i];
        let ghost start = path_set(found@);
        assert(views[i as int] == route@);
        let mut m: usize = 0;
        assert(path_set(route.externals@.take(0)) =~= Set::empty());
        while m < route.externals.len()
            invariant
                m <= route.externals@.len(),
                views == route_views(rest@),
                every == route_views(all@),
                forall|p: Seq<Seq<u8>>| #[trigger]
                    path_set(found@).contains(p) <==> start.contains(p) || (path_set(
                        route.externals@.take(m as int),
                    ).contains(p) && !route@.watched.contains(p) && !covered(views, p) && !is_held(
                        every,
                        p,
                    )),
            decreases route.externals@.len() - m,
        {
            let external = &route.externals[m];
            let ghost before = path_set(found@);
            proof {
                crate::paths::lemma_path_set_next(route.externals@, m as int);
            }
            if !holds(&route.watched, external) && !covered_by_a_root(rest, external) && !any_holder(
                all,
                external,
            ) && !holds(&found, external) {
                add_path(&mut found, external.copy());
            }
            assert forall|p: Seq<Seq<u8>>| #[trigger]
                path_set(found@).contains(p) <==> start.contains(p) || (path_set(
                    route.externals@.take(m + 1),
                ).contains(p) && !route@.watched.contains(p) && !covered(views, p) && !is_held(
                    every,
                    p,
                )) by {
                assert(before.contains(p) <==> start.contains(p) || (path_set(
                    route.externals@.take(m as int),
                ).contains(p) && !route@.watched.contains(p) && !covered(views, p) && !is_held(
                    every,
                    p,
                )));
            }
            m = m + 1;
        }
        assert(route.externals@.take(m as int) =~= route.externals@);
        assert forall|p: Seq<Seq<u8>>| #[trigger]
            path_set(found@).contains(p) <==> !is_held(every, p) && is_needed(
                views.take(i + 1),
                views,
                p,
            ) by {
            lemma_needed_next(views, i as int, p);
            assert(start.contains(p) <==> !is_held(every, p) && is_needed(
                views.take(i as int),
                views,
                p,
            ));
        }
        i = i + 1;
    }
    assert(views.take(i as int) =~= views);
    found
}

/// The paths of `watched` that no route of `rest` holds or needs, each once.
fn unneeded(watched: &Vec<PathName>, rest: &Vec<Route>) -> (dropped: Vec<PathName>)
    ensures
        forall|p: Seq<Seq<u8>>| #[trigger]
            path_set(dropped@).contains(p) <==> path_set(watched@).contains(p) && !is_held(
                route_views(rest@),
                p,
            ) && !is_needed(route_views(rest@), route_views(rest@), p),
{
    let ghost views = route_views(rest@);
    let mut dropped: Vec<PathName> = Vec::new();
    let mut i: usize = 0;
    assert(path_set(watched@.take(0)) =~= Set::empty());
    while i < watched.len()
        invariant
            i <= watched@.len(),
            views == route_views(rest@),
            forall|p: Seq<Seq<u8>>| #[trigger]
                path_set(dropped@).contains(p) <==> path_set(watched@.take(i as int)).contains(p)
                    && !is_held(views, p) && !is_needed(views, views, p),
        decreases watched@.len() - i,
    {
        let ghost before = path_set(dropped@);
        proof {
            crate::paths::lemma_path_set_next(watched@, i as int);
        }
        if !any_holder(rest, &watched[i]) && !any_needs(rest, &watched[i]) && !holds(
            &dropped,
            &watched[i],
        ) {
            add_path(&mut dropped, watched[i].copy());
        }
        assert forall|p: Seq<Seq<u8>>| #[trigger]
            path_set(dropped@).contains(p) <==> path_set(watched@.take(i + 1)).contains(p)
                && !is_held(views, p) && !is_needed(views, views, p) by {
            assert(before.contains(p) <==> path_set(watched@.take(i as int)).contains(p)
                && !is_held(views, p) && !is_needed(views, views, p));
        }
        i = i + 1;
    }
    assert(watched@.take(i as int) =~= watched@);
    dropped
}

/// The route as it stands once the route `id` is gone.
fn adopt(
    route: &Route,
    rest: &Vec<Route>,
    all: &Vec<Route>,
    failed: &Vec<PathName>,
    Ghost(id): Ghost<u64>,
) -> (kept: Route)
    requires
        route_views(rest@) == without_route(route_views(all@), id),
    ensures
        kept@ == adopted(route@, route_views(all@), id, path_set(failed@)),
{
    let ghost after = route_views(rest@);
    let ghost goal = adopted(route@, route_views(all@), id, path_set(failed@));
    let ghost own = route@.watched;
    let mut externals: Vec<PathName> = Vec::new();
    let mut watched = copy_paths(&route.watched);
    let mut m: usize = 0;
    assert(path_set(route.externals@.take(0)) =~= Set::empty());
    while m < route.externals.len()
        invariant
            m <= route.externals@.len(),
            after == route_views(rest@),
            after == without_route(route_views(all@), id),
            goal == adopted(route@, route_views(all@), id, path_set(failed@)),
            own == route@.watched,
            forall|p: Seq<Seq<u8>>| #[trigger]
                path_set(externals@).contains(p) <==> path_set(
                    route.externals@.take(m as int),
                ).contains(p) && goal.externals.contains(p),
            forall|p: Seq<Seq<u8>>| #[trigger]
                path_set(watched@).contains(p) <==> own.contains(p) || (path_set(
                    route.externals@.take(m as int),
                ).contains(p) && goal.watched.contains(p)),
        decreases route.externals@.len() - m,
    {
        let external = &route.externals[m];
        let ghost externals_before = path_set(externals@);
        let ghost watched_before = path_set(watched@);
        proof {
            crate::paths::lemma_path_set_next(route.externals@, m as int);
            assert(path_set(route.externals@).contains(external@));
        }
        let needed = !holds(&route.watched, external) && !covered_by_a_root(rest, external);
        let lost = needed && holds(failed, external) && !any_holder(all, external);
        assert(needed == needs_watch(route@, after, external@));
        assert(goal.externals.contains(external@) == !lost);
        assert(goal.watched.contains(external@) == (own.contains(external@) || (needed && !lost)));
        if !lost {
            add_path(&mut externals, external.copy());
            if needed {
                add_path(&mut watched, external.copy());
            }
        }
        assert forall|p: Seq<Seq<u8>>| #[trigger]
            path_set(externals@).contains(p) <==> path_set(route.externals@.take(m + 1)).contains(p)
                && goal.externals.contains(p) by {
            assert(externals_before.contains(p) <==> path_set(
                route.externals@.take(m as int),
            ).contains(p) && goal.externals.contains(p));
        }
        assert forall|p: Seq<Seq<u8>>| #[trigger]
            path_set(watched@).contains(p) <==> own.contains(p) || (path_set(
                route.externals@.take(m + 1),
            ).contains(p) && goal.watched.contains(p)) by {
            assert(watched_before.contains(p) <==> own.contains(p) || (path_set(
                route.externals@.take(m as int),
            ).contains(p) && goal.watched.contains(p)));
        }
        m = m + 1;
    }
    assert(route.externals@.take(m as int) =~= route.externals@);
    assert(path_set(externals@) =~= goal.externals);
    assert(path_set(watched@) =~= goal.watched);
    Route { id: route.id, root: route.root.copy(), externals, watched, settled: route.settled }
}

proof fn lemma_root_next(routes: Seq<RouteView>, i: int, path: Seq<Seq<u8>>)
    requires
        0 <= i < routes.len(),
    ensures
        is_root(routes.take(i + 1), path) <==> is_root(routes.take(i), path) || (routes[i].settled
            && routes[i].root == path),
{
    let longer = routes.take(i + 1);
    let shorter = routes.take(i);
    if is_root(shorter, path) {
        let j = choose|j: int|
            0 <= j < shorter.len() && (#[trigger] shorter[j]).settled && shorter[j].root == path;
        assert(longer[j] == shorter[j]);
    }
    if routes[i].settled && routes[i].root == path {
        assert(longer[i].settled);
    }
    if is_root(longer, path) {
        let j = choose|j: int|
            0 <= j < longer.len() && (#[trigger] longer[j]).settled && longer[j].root == path;
        if j < i {
            assert(shorter[j] == longer[j]);
        }
    }
}

proof fn lemma_held_next(routes: Seq<RouteView>, i: int, path: Seq<Seq<u8>>)
    requires
        0 <= i < routes.len(),
    ensures
        is_held(routes.take(i + 1), path) <==> is_held(routes.take(i), path)
            || routes[i].watched.contains(path),
{
    let longer = routes.take(i + 1);
    let shorter = routes.take(i);
    if is_held(shorter, path) {
        let j = choose|j: int| 0 <= j < shorter.len() && (#[trigger] shorter[j]).watched.contains(path);
        assert(longer[j] == shorter[j]);
    }
    if routes[i].watched.contains(path) {
        assert(longer[i].watched.contains(path));
    }
    if is_held(longer, path) {
        let j = choose|j: int| 0 <= j < longer.len() && (#[trigger] longer[j]).watched.contains(path);
        if j < i {
            assert(shorter[j] == longer[j]);
        }
    }
}

proof fn lemma_needed_next(routes: Seq<RouteView>, i: int, path: Seq<Seq<u8>>)
    requires
        0 <= i < routes.len(),
    ensures
        is_needed(routes.take(i + 1), routes, path) <==> is_needed(routes.take(i), routes, path)
            || needs_watch(routes[i], routes, path),
{
    let longer = routes.take(i + 1);
    let shorter = routes.take(i);
    if is_needed(shorter, routes, path) {
        let j = choose|j: int| 0 <= j < shorter.len() && needs_watch(#[trigger] shorter[j], routes, path);
        assert(longer[j] == shorter[j]);
    }
    if needs_watch(routes[i], routes, path) {
        assert(needs_watch(longer[i], routes, path));
    }
    if is_needed(longer, routes, path) {
        let j = choose|j: int| 0 <= j < longer.len() && needs_watch(#[trigger] longer[j], routes, path);
        if j < i {
            assert(shorter[j] == longer[j]);
        }
    }
}

proof fn lemma_released_keeps_wf(hub: HubView, id: u64, failed: Set<Seq<Seq<u8>>>)
    requires
        hub.wf(),
        has_route(hub.routes, id),
    ensures
        (HubView { routes: released(hub.routes, id, failed), ..hub }).wf(),
{
    let i = route_index(hub.routes, id);
    lemma_route_index_bounds(hub.routes, id);
    let after = without_route(hub.routes, id);
    let end = released(hub.routes, id, failed);
    assert forall|k: int| 0 <= k < end.len() implies (#[trigger] end[k]).id < hub.next_id by {
        assert(after[k] == hub.routes[if k < i { k } else { k + 1 }]);
    }
    assert forall|j: int, k: int| 0 <= j < k < end.len() implies (#[trigger] end[j]).id != (
    #[trigger] end[k]).id by {
        assert(after[j] == hub.routes[if j < i { j } else { j + 1 }]);
        assert(after[k] == hub.routes[if k < i { k } else { k + 1 }]);
    }
    assert forall|k: int| 0 <= k < end.len() implies (#[trigger] end[k]).watched.subset_of(
        end[k].externals,
    ) by {
        assert(after[k] == hub.routes[if k < i { k } else { k + 1 }]);
        assert(end[k] == adopted(after[k], hub.routes, id, failed));
    }
    assert forall|k: int| 0 <= k < after.len() && (#[trigger] after[k]).settled implies is_root(
        end,
        after[k].root,
    ) by {
        assert(end[k].settled && end[k].root == after[k].root);
    }
    assert forall|k: int, e: Seq<Seq<u8>>|
        0 <= k < end.len() && #[trigger] end[k].externals.contains(e) implies end[k].watched.contains(e)
        || covered(end, e) by {
        assert(end[k] == adopted(after[k], hub.routes, id, failed));
        if covered(after, e) {
            lemma_covered_is_monotone(after, end, e);
        }
    }
}

/// A rule directory that gets a watch is heard. A directory that is itself the
/// root of a registration is left out: a watch on that directory alone replaces
/// the watch on the whole tree.
pub proof fn law_added_rule_directories_are_heard(
    routes: Seq<RouteView>,
    heard: Set<Seq<Seq<u8>>>,
    id: u64,
    parent: Seq<Seq<u8>>,
    watched: bool,
)
    requires
        all_heard(routes, heard),
        !is_root(routes, parent),
    ensures
        ({
            let now = if external_watch(routes, id, parent) == ExternalWatch::Platform && watched {
                heard.insert(parent)
            } else {
                heard
            };
            all_heard(with_external(routes, id, parent, watched), now)
        }),
{
    let i = route_index(routes, id);
    lemma_route_index_bounds(routes, id);
    let end = with_external(routes, id, parent, watched);
    let now = if external_watch(routes, id, parent) == ExternalWatch::Platform && watched {
        heard.insert(parent)
    } else {
        heard
    };
    assert forall|k: int, d: Seq<Seq<u8>>|
        0 <= k < end.len() && (#[trigger] end[k]).settled && #[trigger] is_under(
            d,
            end[k].root,
        ) implies now.contains(d) by {
        assert(routes[k].settled && is_under(d, routes[k].root));
    }
    assert forall|d: Seq<Seq<u8>>| #[trigger] is_held(end, d) implies now.contains(d) by {
        let k = choose|k: int| 0 <= k < end.len() && (#[trigger] end[k]).watched.contains(d);
        if routes[k].watched.contains(d) {
            assert(is_held(routes, d));
        }
    }
}

/// Releasing a registration undoes it: the routes are what they were before,
/// whatever could or could not be watched.
pub proof fn law_release_undoes_register(
    hub: HubView,
    root: Seq<Seq<u8>>,
    watched: bool,
    failed: Set<Seq<Seq<u8>>>,
)
    requires
        hub.wf(),
    ensures
        ({
            let opened = hub.routes.push(published(hub.next_id, root));
            let registered = settled(opened, hub.next_id, watched);
            if has_route(registered, hub.next_id) {
                released(registered, hub.next_id, failed) == hub.routes
            } else {
                registered == hub.routes
            }
        }),
{
    let id = hub.next_id;
    let n = hub.routes.len() as int;
    let opened = hub.routes.push(published(id, root));
    lemma_route_index(opened, id, n);
    let registered = settled(opened, id, watched);
    if root_watch(opened, root) == RootWatch::Platform && !watched {
        assert(registered =~= hub.routes);
        lemma_route_index(registered, id, n);
    } else {
        lemma_route_index(registered, id, n);
        assert(without_route(registered, id) =~= hub.routes);
        let end = released(registered, id, failed);
        assert forall|k: int| 0 <= k < n implies end[k] == hub.routes[k] by {
            let route = hub.routes[k];
            assert forall|p: Seq<Seq<u8>>| !needs_watch(route, hub.routes, p) by {
                if route.externals.contains(p) {
                    assert(hub.routes[k].externals.contains(p));
                }
            }
            assert(adopted(route, registered, id, failed).externals =~= route.externals);
            assert(adopted(route, registered, id, failed).watched =~= route.watched);
        }
        assert(end =~= hub.routes);
    }
}

/// A root is watched exactly while a registration holds it, and likewise a
/// rule directory.
pub proof fn law_watched_while_held(routes: Seq<RouteView>, path: Seq<Seq<u8>>)
    ensures
        root_count(routes, path) > 0 <==> is_root(routes, path),
        external_count(routes, path) > 0 <==> is_held(routes, path),
    decreases routes.len(),
{
    if routes.len() > 0 {
        let n = routes.len() - 1;
        law_watched_while_held(routes.drop_last(), path);
        assert(routes.take(n) =~= routes.drop_last());
        assert(routes.take(n + 1) =~= routes);
        lemma_root_next(routes, n, path);
        lemma_held_next(routes, n, path);
    }
}

/// Releasing a settled registration takes one holder from its root and none
/// from any other root.
pub proof fn law_release_takes_one_holder(
    routes: Seq<RouteView>,
    id: u64,
    failed: Set<Seq<Seq<u8>>>,
    path: Seq<Seq<u8>>,
)
    requires
        has_route(routes, id),
        routes[route_index(routes, id)].settled,
    ensures
        root_count(released(routes, id, failed), path) == root_count(routes, path) - if path
            == routes[route_index(routes, id)].root {
            1int
        } else {
            0int
        },
{
    let i = route_index(routes, id);
    lemma_route_index_bounds(routes, id);
    let after = without_route(routes, id);
    lemma_root_count_remove(routes, i, path);
    lemma_root_count_same(after, released(routes, id, failed), path);
}

proof fn lemma_root_count_remove(routes: Seq<RouteView>, i: int, path: Seq<Seq<u8>>)
    requires
        0 <= i < routes.len(),
    ensures
        root_count(routes, path) == root_count(routes.remove(i), path) + if routes[i].settled
            && routes[i].root == path {
            1int
        } else {
            0int
        },
    decreases routes.len(),
{
    let less = routes.remove(i);
    if i == routes.len() - 1 {
        assert(less =~= routes.drop_last());
    } else {
        lemma_root_count_remove(routes.drop_last(), i, path);
        assert(routes.drop_last().remove(i) =~= less.drop_last());
        assert(less.last() == routes.last());
    }
}

proof fn lemma_root_count_same(a: Seq<RouteView>, b: Seq<RouteView>, path: Seq<Seq<u8>>)
    requires
        a.len() == b.len(),
        forall|i: int|
            0 <= i < a.len() ==> (#[trigger] a[i]).settled == b[i].settled && a[i].root == b[i].root,
    ensures
        root_count(a, path) == root_count(b, path),
    decreases a.len(),
{
    if a.len() > 0 {
        assert(a.last() == a[a.len() - 1]);
        assert forall|i: int| 0 <= i < a.len() - 1 implies (#[trigger] a.drop_last()[i]).settled
            == b.drop_last()[i].settled && a.drop_last()[i].root == b.drop_last()[i].root by {
            assert(a.drop_last()[i] == a[i]);
        }
        lemma_root_count_same(a.drop_last(), b.drop_last(), path);
    }
}

/// Whether the platform watcher reports, with `heard` the directories it
/// reports on, everything below the root of each settled registration and each
/// rule directory a registration holds.
pub open spec fn all_heard(routes: Seq<RouteView>, heard: Set<Seq<Seq<u8>>>) -> bool {
    &&& forall|i: int, d: Seq<Seq<u8>>|
        0 <= i < routes.len() && (#[trigger] routes[i]).settled && #[trigger] is_under(
            d,
            routes[i].root,
        ) ==> heard.contains(d)
    &&& forall|d: Seq<Seq<u8>>| #[trigger] is_held(routes, d) ==> heard.contains(d)
}

/// What is reported once `root` is watched with everything below it.
pub open spec fn heard_with_tree(heard: Set<Seq<Seq<u8>>>, root: Seq<Seq<u8>>) -> Set<Seq<Seq<u8>>> {
    Set::new(|d: Seq<Seq<u8>>| heard.contains(d) || is_under(d, root))
}

/// What is reported once a release plan for the route `id` is carried out,
/// where every watch succeeds but those on `failed`. Taking a root watch away
/// takes every watch below that root with it.
pub open spec fn heard_after_release(
    heard: Set<Seq<Seq<u8>>>,
    plan: ReleasePlan,
    root: Seq<Seq<u8>>,
    failed: Set<Seq<Seq<u8>>>,
) -> Set<Seq<Seq<u8>>> {
    let trees = path_set(plan.rewatch_trees@);
    let restored = |d: Seq<Seq<u8>>|
        (exists|t: Seq<Seq<u8>>| trees.contains(t) && #[trigger] is_under(d, t)) || path_set(
            plan.rewatch_directories@,
        ).contains(d);
    let kept = |d: Seq<Seq<u8>>|
        (heard.contains(d) && !(plan.unwatch_root && is_under(d, root))) || restored(d) || (path_set(
            plan.watch_directories@,
        ).contains(d) && !failed.contains(d));
    Set::new(|d: Seq<Seq<u8>>| kept(d) && !path_set(plan.unwatch_directories@).contains(d))
}

/// Something reports every rule directory that a registration depends on.
pub proof fn law_rule_directories_are_heard(
    hub: HubView,
    heard: Set<Seq<Seq<u8>>>,
    i: int,
    directory: Seq<Seq<u8>>,
)
    requires
        hub.wf(),
        all_heard(hub.routes, heard),
        0 <= i < hub.routes.len(),
        hub.routes[i].externals.contains(directory),
    ensures
        heard.contains(directory),
{
    if hub.routes[i].watched.contains(directory) {
        assert(is_held(hub.routes, directory));
    } else {
        let j = choose|j: int|
            0 <= j < hub.routes.len() && (#[trigger] hub.routes[j]).settled && hub.routes[j].root
                != directory && is_under(directory, hub.routes[j].root);
        assert(hub.routes[j].settled && is_under(directory, hub.routes[j].root));
    }
}

/// A registration that succeeds is heard, whether its root got a watch of its
/// own, shares one, or lies below a root that is watched already.
pub proof fn law_registered_roots_are_heard(
    routes: Seq<RouteView>,
    heard: Set<Seq<Seq<u8>>>,
    id: u64,
    watched: bool,
)
    requires
        all_heard(routes, heard),
        has_route(routes, id),
    ensures
        ({
            let root = routes[route_index(routes, id)].root;
            let now = if root_watch(routes, root) == RootWatch::Platform && watched {
                heard_with_tree(heard, root)
            } else {
                heard
            };
            all_heard(settled(routes, id, watched), now)
        }),
{
    let i = route_index(routes, id);
    lemma_route_index_bounds(routes, id);
    let root = routes[i].root;
    let plan = root_watch(routes, root);
    let end = settled(routes, id, watched);
    let gone = plan == RootWatch::Platform && !watched;
    let now = if plan == RootWatch::Platform && watched {
        heard_with_tree(heard, root)
    } else {
        heard
    };
    assert forall|k: int, d: Seq<Seq<u8>>|
        0 <= k < end.len() && (#[trigger] end[k]).settled && #[trigger] is_under(
            d,
            end[k].root,
        ) implies now.contains(d) by {
        let j = if gone && k >= i { k + 1 } else { k };
        assert(end[k].root == routes[j].root);
        if routes[j].settled {
            assert(heard.contains(d));
        } else if plan == RootWatch::Shared {
            let m = choose|m: int| 0 <= m < routes.len() && (#[trigger] routes[m]).settled && routes[m].root == root;
            assert(routes[m].settled && is_under(d, routes[m].root));
        } else if plan == RootWatch::Covered {
            let m = choose|m: int|
                0 <= m < routes.len() && (#[trigger] routes[m]).settled && routes[m].root != root
                    && is_under(root, routes[m].root);
            lemma_under_is_transitive(d, root, routes[m].root);
            assert(routes[m].settled && is_under(d, routes[m].root));
        }
    }
    assert forall|d: Seq<Seq<u8>>| #[trigger] is_held(end, d) implies now.contains(d) by {
        let k = choose|k: int| 0 <= k < end.len() && (#[trigger] end[k]).watched.contains(d);
        let j = if gone && k >= i { k + 1 } else { k };
        assert(routes[j].watched.contains(d));
        assert(is_held(routes, d));
    }
}

pub proof fn lemma_under_is_transitive(a: Seq<Seq<u8>>, b: Seq<Seq<u8>>, c: Seq<Seq<u8>>)
    requires
        is_under(a, b),
        is_under(b, c),
    ensures
        is_under(a, c),
{
    assert(c =~= a.subrange(0, c.len() as int));
}

/// Of two directories that hold one path, one holds the other.
pub proof fn lemma_under_is_linear(d: Seq<Seq<u8>>, a: Seq<Seq<u8>>, b: Seq<Seq<u8>>)
    requires
        is_under(d, a),
        is_under(d, b),
    ensures
        is_under(a, b) || is_under(b, a),
{
    if a.len() <= b.len() {
        assert(a =~= b.subrange(0, a.len() as int));
    } else {
        assert(b =~= a.subrange(0, b.len() as int));
    }
}

/// Every remaining registration is still heard after a release: nested and
/// enclosing roots, shared rule directories, and rule directories that only the
/// released root reported. A rule directory that is given up inside a remaining
/// root is the exception: its watch is taken away without a new watch on that
/// root.
pub proof fn law_release_keeps_the_others_heard(
    hub: HubView,
    heard: Set<Seq<Seq<u8>>>,
    id: u64,
    plan: ReleasePlan,
    failed: Set<Seq<Seq<u8>>>,
)
    requires
        hub.wf(),
        all_heard(hub.routes, heard),
        has_route(hub.routes, id),
        plan.meets(hub.routes, id),
        forall|i: int, d: Seq<Seq<u8>>|
            0 <= i < hub.routes.len() && (#[trigger] hub.routes[i]).settled && hub.routes[i].id != id
                && #[trigger] path_set(plan.unwatch_directories@).contains(d) ==> !is_under(
                d,
                hub.routes[i].root,
            ),
    ensures
        all_heard(
            released(hub.routes, id, failed),
            heard_after_release(
                heard,
                plan,
                hub.routes[route_index(hub.routes, id)].root,
                failed,
            ),
        ),
{
    let routes = hub.routes;
    let i = route_index(routes, id);
    lemma_route_index_bounds(routes, id);
    let root = routes[i].root;
    let after = without_route(routes, id);
    let end = released(routes, id, failed);
    let now = heard_after_release(heard, plan, root, failed);
    assert forall|k: int, d: Seq<Seq<u8>>|
        0 <= k < end.len() && (#[trigger] end[k]).settled && #[trigger] is_under(
            d,
            end[k].root,
        ) implies now.contains(d) by {
        let j = if k < i { k } else { k + 1 };
        assert(after[k] == routes[j]);
        assert(routes[j].settled && is_under(d, routes[j].root));
        assert(heard.contains(d));
        assert(routes[j].id != id) by {
            if j < i {
                assert(routes[j].id != routes[i].id);
            } else {
                assert(routes[i].id != routes[j].id);
            }
        }
        if path_set(plan.unwatch_directories@).contains(d) {
            assert(!is_under(d, routes[j].root));
        }
        if plan.unwatch_root && is_under(d, root) {
            lemma_under_is_linear(d, root, after[k].root);
            assert(is_root(after, after[k].root));
            assert(path_set(plan.rewatch_trees@).contains(after[k].root));
            assert(is_under(d, after[k].root));
        }
    }
    assert forall|d: Seq<Seq<u8>>| #[trigger] is_held(end, d) implies now.contains(d) by {
        let k = choose|k: int| 0 <= k < end.len() && (#[trigger] end[k]).watched.contains(d);
        let j = if k < i { k } else { k + 1 };
        assert(after[k] == routes[j]);
        assert(end[k] == adopted(after[k], routes, id, failed));
        if after[k].watched.contains(d) {
            assert(is_held(after, d));
            assert(routes[j].watched.contains(d));
        } else {
            assert(needs_watch(after[k], after, d));
            assert(is_needed(after, after, d));
        }
        if is_held(routes, d) {
            assert(heard.contains(d));
            if plan.unwatch_root && is_under(d, root) {
                assert(path_set(plan.rewatch_directories@).contains(d));
            }
        } else {
            assert(orphaned(routes, id, d));
            assert(path_set(plan.watch_directories@).contains(d));
        }
        assert(!path_set(plan.unwatch_directories@).contains(d));
    }
}

/// The first of a path's ancestors that is a directory. `is_directory` holds
/// that of each ancestor, the closest first.
pub open spec fn first_directory(path: Seq<Seq<u8>>, is_directory: Seq<bool>, from: int) -> Option<
    Seq<Seq<u8>>,
>
    decreases is_directory.len() - from,
{
    if from >= is_directory.len() || from + 1 > path.len() {
        None
    } else if is_directory[from] {
        Some(path.take(path.len() - from - 1))
    } else {
        first_directory(path, is_directory, from + 1)
    }
}

/// The directory that is watched for a rule file. One that does not exist yet
/// has no directory to watch, so the closest one that exists is used.
pub fn watched_directory(path: &PathName, is_directory: &Vec<bool>) -> (directory: Option<PathName>)
    ensures
        match directory {
            Some(d) => first_directory(path@, is_directory@, 0) == Some(d@),
            None => first_directory(path@, is_directory@, 0) is None,
        },
{
    let size: usize = path.len();
    let mut from: usize = 0;
    while from < is_directory.len() && from < size
        invariant
            from <= is_directory@.len(),
            size == path@.len(),
            first_directory(path@, is_directory@, 0) == first_directory(
                path@,
                is_directory@,
                from as int,
            ),
        decreases is_directory@.len() - from,
    {
        if is_directory[from] {
            return Some(path.prefix(size - from - 1));
        }
        from = from + 1;
    }
    None
}

/// Every event can have changed the tree, but for the accesses; and of these the end
/// of a write can.
pub proof fn law_which_events_change_the_tree(kind: EventKind, access: AccessKind)
    ensures
        !(kind is Access) ==> changes_tree(kind),
        changes_tree(EventKind::Access(access)) <==> access == AccessKind::Close(AccessMode::Write),
{
}

/// What a registration hears: everything below its root, and of the rule directories
/// outside it the directory itself and what stands in it, but nothing deeper.
pub proof fn law_what_a_registration_hears(
    route: RouteView,
    path: Seq<Seq<u8>>,
    external: Seq<Seq<u8>>,
    name: Seq<u8>,
)
    requires
        name != seq![47u8],
    ensures
        route.root.is_prefix_of(path) ==> route_contains(route, path),
        route.externals.contains(external) ==> route_contains(route, external) && route_contains(
            route,
            external.push(name),
        ),
        !route.root.is_prefix_of(path) && (forall|e: Seq<Seq<u8>>| #[trigger]
            route.externals.contains(e) ==> path != e && !(path.len() == e.len() + 1
                && e.is_prefix_of(path))) ==> !route_contains(route, path),
{
    crate::paths::law_names_stand_in_their_parent(external, name);
    if route.externals.contains(external) {
        assert(external_reports(external, external));
        assert(external_reports(external, external.push(name)));
    }
    if route_contains(route, path) && !route.root.is_prefix_of(path) {
        let e = choose|e: Seq<Seq<u8>>|
            route.externals.contains(e) && #[trigger] external_reports(e, path);
        assert(route.externals.contains(e));
        if path != e {
            assert(path.drop_last() == e);
            assert(path.take(e.len() as int) =~= e);
        }
    }
}

/// An event is heard exactly where one of its paths is.
pub proof fn law_an_event_is_heard_by_its_paths(route: RouteView, event: EventView, i: int)
    ensures
        0 <= i < event.paths.len() && route_contains(route, event.paths[i]) ==> route_observes(
            route,
            event,
        ),
        (forall|k: int| 0 <= k < event.paths.len() ==> !route_contains(
            route,
            #[trigger] event.paths[k],
        )) ==> !route_observes(route, event),
{
}

/// What is delivered goes to a registration that hears it: every batch is that of one
/// registration, is not empty, and holds the events that changed the tree and are
/// heard by it, all of them in their order.
pub proof fn law_batches_hold_what_is_heard(
    routes: Seq<RouteView>,
    events: Seq<EventView>,
    b: int,
)
    requires
        0 <= b < batches(routes, events).len(),
    ensures
        ({
            let (id, batch) = batches(routes, events)[b];
            &&& batch.len() > 0
            &&& exists|r: int|
                0 <= r < routes.len() && (#[trigger] routes[r]).id == id && batch == events.filter(
                    |event: EventView| changes_tree(event.kind) && route_observes(routes[r], event),
                )
        }),
    decreases routes.len(),
{
    let fewer = routes.drop_last();
    let last = routes.len() - 1;
    let before = batches(fewer, events);
    let (id, batch) = batches(routes, events)[b];
    if b < before.len() {
        law_batches_hold_what_is_heard(fewer, events, b);
        assert(before[b] == (id, batch));
        let r = choose|r: int|
            0 <= r < fewer.len() && (#[trigger] fewer[r]).id == id && batch == events.filter(
                |event: EventView| changes_tree(event.kind) && route_observes(fewer[r], event),
            );
        assert(routes[r] == fewer[r]);
    } else {
        assert(batch == batch_for(routes.last(), events));
        assert(routes[last] == routes.last());
        assert(delivered_to(routes[last]) =~= (|event: EventView|
            changes_tree(event.kind) && route_observes(routes[last], event)));
        assert(routes[last].id == id);
    }
}

/// An overflow is always noted, and wakes whoever waits as long as there is room.
pub proof fn law_an_overflow_is_noted(sink: SinkView)
    ensures
        overflowed(sink).overflow,
        overflowed(sink).capacity == sink.capacity,
        sink.batches.is_prefix_of(overflowed(sink).batches),
        sink.batches.len() < sink.capacity ==> overflowed(sink).batches.len() > 0,
        overflowed(sink).batches.flatten() == sink.batches.flatten(),
{
    broadcast use Seq::lemma_flatten_push;

    assert(sink.batches.push(seq![]).take(sink.batches.len() as int) =~= sink.batches);
    assert(sink.batches.take(sink.batches.len() as int) =~= sink.batches);
    assert(sink.batches.flatten() + Seq::<EventView>::empty() =~= sink.batches.flatten());
}

/// Which watch a root gets: that of a registration of the same root where there is
/// one; that of a root above it; and otherwise its own.
pub proof fn law_one_watch_serves_a_root(routes: Seq<RouteView>, root: Seq<Seq<u8>>, i: int)
    ensures
        ({
            let plan = root_watch(routes, root);
            &&& 0 <= i < routes.len() && routes[i].settled && routes[i].root == root ==> plan
                == RootWatch::Shared
            &&& 0 <= i < routes.len() && routes[i].settled && routes[i].root.is_prefix_of(root)
                ==> plan != RootWatch::Platform
            &&& (forall|k: int|
                0 <= k < routes.len() && (#[trigger] routes[k]).settled
                    ==> !routes[k].root.is_prefix_of(root)) ==> plan == RootWatch::Platform
            &&& (forall|k: int|
                0 <= k < routes.len() && (#[trigger] routes[k]).settled ==> routes[k].root != root)
                ==> plan != RootWatch::Shared
        }),
{
    if is_root(routes, root) {
        let k = choose|k: int|
            0 <= k < routes.len() && (#[trigger] routes[k]).settled && routes[k].root == root;
        assert(routes[k].root.is_prefix_of(root));
    }
    if covered(routes, root) {
        let k = choose|k: int|
            0 <= k < routes.len() && (#[trigger] routes[k]).settled && routes[k].root != root
                && is_under(root, routes[k].root);
        assert(routes[k].root.is_prefix_of(root));
    }
}

proof fn lemma_place_of_route(hub: HubView, i: int)
    requires
        hub.wf(),
        0 <= i < hub.routes.len(),
    ensures
        route_index(hub.routes, hub.routes[i].id) == i,
        has_route(hub.routes, hub.routes[i].id),
{
    lemma_route_index(hub.routes, hub.routes[i].id, i);
}

/// A registration whose root is watched, by itself or by another one, is in place;
/// one whose own watch failed is gone. The others stay as they are.
pub proof fn law_a_registration_is_settled(hub: HubView, i: int, other: int, watched: bool)
    requires
        hub.wf(),
        0 <= i < hub.routes.len(),
        0 <= other < hub.routes.len(),
        other != i,
    ensures
        ({
            let before = hub.routes;
            let after = settled(before, before[i].id, watched);
            let lost = root_watch(before, before[i].root) == RootWatch::Platform && !watched;
            &&& lost ==> after == before.take(i) + before.skip(i + 1)
            &&& !lost ==> {
                &&& after.len() == before.len()
                &&& after[i] == (RouteView { settled: true, ..before[i] })
                &&& after[other] == before[other]
            }
        }),
{
    lemma_place_of_route(hub, i);
    assert(hub.routes.remove(i) =~= hub.routes.take(i) + hub.routes.skip(i + 1));
}

/// A rule directory that a registration did not know is known to it afterwards,
/// unless its watch failed. It holds a share of the watch where no root reports the
/// directory. The other registrations stay as they are.
pub proof fn law_a_rule_directory_is_added(
    hub: HubView,
    i: int,
    other: int,
    parent: Seq<Seq<u8>>,
    watched: bool,
)
    requires
        hub.wf(),
        0 <= i < hub.routes.len(),
        0 <= other < hub.routes.len(),
        other != i,
        !hub.routes[i].externals.contains(parent),
    ensures
        ({
            let before = hub.routes;
            let after = with_external(before, before[i].id, parent, watched);
            let by_root = exists|k: int|
                0 <= k < before.len() && (#[trigger] before[k]).settled && before[k].root != parent
                    && before[k].root.is_prefix_of(parent);
            let by_other = exists|k: int|
                0 <= k < before.len() && (#[trigger] before[k]).watched.contains(parent);
            let heard = by_root || by_other || watched;
            &&& after.len() == before.len()
            &&& after[other] == before[other]
            &&& !heard ==> after[i] == before[i]
            &&& heard ==> {
                &&& after[i].externals == before[i].externals.insert(parent)
                &&& by_root ==> after[i].watched == before[i].watched
                &&& !by_root ==> after[i].watched == before[i].watched.insert(parent)
                &&& after[i].id == before[i].id && after[i].root == before[i].root
                    && after[i].settled == before[i].settled
            }
            &&& external_watch(before, before[i].id, parent) == (if by_root {
                ExternalWatch::Covered
            } else if by_other {
                ExternalWatch::Shared
            } else {
                ExternalWatch::Platform
            })
        }),
{
    lemma_place_of_route(hub, i);
    let before = hub.routes;
    let by_root = exists|k: int|
        0 <= k < before.len() && (#[trigger] before[k]).settled && before[k].root != parent
            && before[k].root.is_prefix_of(parent);
    if by_root {
        let k = choose|k: int|
            0 <= k < before.len() && (#[trigger] before[k]).settled && before[k].root != parent
                && before[k].root.is_prefix_of(parent);
        assert(is_under(parent, before[k].root));
        assert(covered(before, parent));
    }
    if covered(before, parent) {
        let k = choose|k: int|
            0 <= k < before.len() && (#[trigger] before[k]).settled && before[k].root != parent
                && is_under(parent, before[k].root);
        assert(before[k].root.is_prefix_of(parent));
    }
    assert(covered(before, parent) == by_root);
}

/// A release takes away its own registration only. Each other one stays in its order
/// with its root, and keeps every rule directory, but for those that the released
/// root alone reported and whose own watch failed.
pub proof fn law_a_release_keeps_the_others(
    hub: HubView,
    i: int,
    other: int,
    failed: Set<Seq<Seq<u8>>>,
    directory: Seq<Seq<u8>>,
)
    requires
        hub.wf(),
        0 <= i < hub.routes.len(),
        0 <= other < hub.routes.len(),
        other != i,
    ensures
        ({
            let before = hub.routes;
            let after = released(before, before[i].id, failed);
            let now = after[if other < i { other } else { other - 1 }];
            &&& after.len() == before.len() - 1
            &&& now.id == before[other].id && now.root == before[other].root && now.settled
                == before[other].settled
            &&& before[other].watched.contains(directory) ==> now.watched.contains(directory)
            &&& before[other].externals.contains(directory) && !failed.contains(directory)
                ==> now.externals.contains(directory)
            &&& before[other].externals.contains(directory) && before[other].watched.contains(
                directory,
            ) ==> now.externals.contains(directory)
            &&& now.externals.contains(directory) ==> before[other].externals.contains(directory)
            &&& now.watched.contains(directory) ==> before[other].watched.contains(directory)
                || before[other].externals.contains(directory)
        }),
{
    lemma_place_of_route(hub, i);
    let before = hub.routes;
    let rest = without_route(before, before[i].id);
    assert(rest == before.remove(i));
    let k = if other < i { other } else { other - 1 };
    assert(rest[k] == before[other]);
}

/// A path is watched through the closest directory above it. `is_directory` says of
/// its parent, of the one above, and so on, whether there is such a directory.
pub proof fn law_the_closest_directory_is_watched(
    path: Seq<Seq<u8>>,
    is_directory: Seq<bool>,
    from: int,
    at: int,
)
    requires
        0 <= from <= at <= is_directory.len() <= path.len(),
        forall|k: int| from <= k < at ==> !#[trigger] is_directory[k],
        at == is_directory.len() || is_directory[at],
    ensures
        at == is_directory.len() ==> first_directory(path, is_directory, from) is None,
        at < is_directory.len() ==> first_directory(path, is_directory, from) == Some(
            path.take(path.len() - 1 - at),
        ),
    decreases at - from,
{
    if from < at {
        assert(!is_directory[from]);
        law_the_closest_directory_is_watched(path, is_directory, from + 1, at);
    }
}

/// Events are handed out by registration: each batch goes to the registration whose id
/// it carries, as it is told by the model.
pub proof fn law_dispatching_hands_out_batches(
    routes: &Vec<Route>,
    events: &Vec<Event>,
    deliveries: Vec<Delivery>,
    i: int,
)
    requires
        call_ensures(dispatch, (routes, events), deliveries),
        0 <= i < deliveries@.len(),
    ensures
        ({
            let all = batches(route_views(routes@), event_views(events@));
            &&& deliveries@.len() == all.len()
            &&& deliveries@[i].id == all[i].0
            &&& Seq::new(deliveries@[i].events@.len(), |k: int| deliveries@[i].events@[k]@)
                == all[i].1
        }),
{
    let told = deliveries@.map_values(|d: Delivery| (d.id, event_views(d.events@)));
    assert(told[i] == (deliveries@[i].id, event_views(deliveries@[i].events@)));
    assert(event_views(deliveries@[i].events@) =~= Seq::new(
        deliveries@[i].events@.len(),
        |k: int| deliveries@[i].events@[k]@,
    ));
}

/// A registration is published with a number of its own before its root is watched,
/// behind those that are there. A watch is asked for where no other one serves it, and
/// the watcher is started with the first registration.
pub proof fn law_registering_publishes_a_route(
    hub: &mut WatchHub,
    root: PathName,
    opening: Opening,
)
    requires
        call_ensures(WatchHub::register, (hub, root), opening),
    ensures
        ({
            let before = old(hub)@.routes;
            let after = final(hub)@.routes;
            &&& after.len() == before.len() + 1
            &&& after.take(before.len() as int) == before
            &&& after.last().id == opening.id && after.last().root == root@
                && !after.last().settled
            &&& after.last().externals == Set::<Seq<Seq<u8>>>::empty()
            &&& opening.id == old(hub)@.next_id && final(hub)@.next_id == old(hub)@.next_id + 1
            &&& opening.start <==> before.len() == 0
            &&& opening.watch <==> root_watch(before, root@) == RootWatch::Platform
        }),
{
    let before = old(hub)@.routes;
    assert(final(hub)@.routes.take(before.len() as int) =~= before);
}

/// Settling, adding a rule directory and releasing change the registrations as the
/// model says, and give no number twice.
pub proof fn law_registrations_go_by_their_model(
    settling: &mut WatchHub,
    adding: &mut WatchHub,
    releasing: &mut WatchHub,
    id: u64,
    watched: bool,
    parent: PathName,
    failed: &Vec<PathName>,
    registered: bool,
)
    requires
        call_ensures(WatchHub::settle, (settling, id, watched), registered),
        call_ensures(WatchHub::add_external, (adding, id, parent, watched), ()),
        call_ensures(WatchHub::release, (releasing, id, failed), ()),
    ensures
        final(settling)@.routes == settled(old(settling)@.routes, id, watched),
        registered == has_route(final(settling)@.routes, id),
        final(adding)@.routes == with_external(old(adding)@.routes, id, parent@, watched),
        final(releasing)@.routes == released(old(releasing)@.routes, id, path_set(failed@)),
        final(settling)@.next_id == old(settling)@.next_id,
        final(adding)@.next_id == old(adding)@.next_id,
        final(releasing)@.next_id == old(releasing)@.next_id,
{
}

/// A batch is delivered behind those that wait, or an overflow is noted; draining
/// hands out all of them in their order.
pub proof fn law_a_sink_hands_out_what_was_delivered(
    sink: &mut WatchSink,
    batch: Vec<Event>,
    full: &mut WatchSink,
    drained: Vec<Vec<Event>>,
    flagged: &mut WatchSink,
    overflow: bool,
)
    requires
        call_ensures(WatchSink::deliver, (sink, batch), ()),
        call_ensures(WatchSink::drain, (full,), drained),
        call_ensures(WatchSink::take_overflow, (flagged,), overflow),
    ensures
        old(sink)@.batches.len() < old(sink)@.capacity ==> final(sink)@.batches == old(sink)@.batches.push(event_views(batch@)) && final(sink)@.overflow == old(sink)@.overflow,
        old(sink)@.batches.len() >= old(sink)@.capacity ==> final(sink)@.overflow && final(sink)@.batches == old(sink)@.batches,
        drained@.map_values(|b: Vec<Event>| event_views(b@)) == old(full)@.batches,
        final(full)@.batches.len() == 0 && final(full)@.overflow == old(full)@.overflow,
        overflow == old(flagged)@.overflow && !final(flagged)@.overflow,
        final(flagged)@.batches == old(flagged)@.batches,
{
}

/// What is taken away when a registration is released: its root's watch, where no other
/// registration has that root; of its rule directories those that no other one holds
/// or needs; and the watcher itself, with the last registration. The roots below and
/// above, and the held directories below, are watched again where the root's watch
/// goes.
pub proof fn law_what_a_release_takes_away(
    hub: &WatchHub,
    i: int,
    plan: ReleasePlan,
    path: Seq<Seq<u8>>,
)
    requires
        hub@.wf(),
        0 <= i < hub@.routes.len(),
        call_ensures(WatchHub::release_plan, (hub, hub@.routes[i].id), plan),
    ensures
        ({
            let routes = hub@.routes;
            let rest = routes.remove(i);
            let shared = exists|k: int|
                0 <= k < rest.len() && (#[trigger] rest[k]).settled && rest[k].root
                    == routes[i].root;
            &&& plan.unwatch_root <==> !shared
            &&& plan.stop <==> routes.len() == 1
            &&& path_set(plan.unwatch_directories@).contains(path) ==> {
                &&& routes[i].watched.contains(path)
                &&& forall|k: int|
                    0 <= k < rest.len() ==> !(#[trigger] rest[k]).watched.contains(path)
            }
            &&& path_set(plan.rewatch_trees@).contains(path) ==> !shared && exists|k: int|
                0 <= k < rest.len() && (#[trigger] rest[k]).settled && rest[k].root == path
            &&& !shared && (exists|k: int|
                0 <= k < rest.len() && (#[trigger] rest[k]).settled && rest[k].root == path) && (
            routes[i].root.is_prefix_of(path) || path.is_prefix_of(routes[i].root)) ==> path_set(
                plan.rewatch_trees@,
            ).contains(path)
        }),
{
    let routes = hub@.routes;
    lemma_place_of_route(hub@, i);
    let rest = without_route(routes, routes[i].id);
    assert(rest == routes.remove(i));
    assert(plan.meets(routes, routes[i].id));
    let target = routes[i];
    assert(is_root(rest, target.root) <==> exists|k: int|
        0 <= k < rest.len() && (#[trigger] rest[k]).settled && rest[k].root == target.root);
    if path_set(plan.unwatch_directories@).contains(path) {
        assert(target.watched.contains(path) && !is_held(rest, path));
        assert forall|k: int| 0 <= k < rest.len() implies !(
        #[trigger] rest[k]).watched.contains(path) by {
        }
    }
    assert(is_root(rest, path) <==> exists|k: int|
        0 <= k < rest.len() && (#[trigger] rest[k]).settled && rest[k].root == path);
    assert(tree_rewatches(routes, routes[i].id).contains(path) <==> is_root(rest, path) && (
    is_under(path, target.root) || is_under(target.root, path)));
}

} // verus!
