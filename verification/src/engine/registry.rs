//! Which checkout a session's work belongs to, and who owns that checkout.

use vstd::prelude::*;

use crate::engine::coordinator::{cancelled_reason, Coordinator, CoordinatorView, Trigger, TurnView};
use crate::session::credentials::{scope_view, CredentialScope};
use crate::text::{copy_optional, copy_text, optional, same, same_optional};

verus! {

/// What makes two sessions' work on one checkout interchangeable.
pub struct CheckoutKey {
    pub server_url: String,
    pub tenant: Option<String>,
    /// Two sessions with different credential scopes on one root get two
    /// coordinators.
    pub credential_scope: CredentialScope,
    /// The canonical working-copy root.
    pub root: String,
}

pub struct KeyView {
    pub server_url: Seq<char>,
    pub tenant: Option<Seq<char>>,
    pub credential_scope: Option<Seq<char>>,
    pub root: Seq<char>,
}

impl View for CheckoutKey {
    type V = KeyView;

    open spec fn view(&self) -> KeyView {
        KeyView {
            server_url: self.server_url@,
            tenant: optional(self.tenant),
            credential_scope: scope_view(self.credential_scope),
            root: self.root@,
        }
    }
}

impl CheckoutKey {
    pub fn root(&self) -> (root: &str)
        ensures
            root@ == self@.root,
    {
        self.root.as_str()
    }

    pub fn same(&self, other: &CheckoutKey) -> (equal: bool)
        ensures
            equal == (self@ == other@),
    {
        same(self.server_url.as_str(), other.server_url.as_str()) && same_optional(
            &self.tenant,
            &other.tenant,
        ) && self.credential_scope.same(&other.credential_scope) && same(
            self.root.as_str(),
            other.root.as_str(),
        )
    }

    pub fn copy(&self) -> (copy: CheckoutKey)
        ensures
            copy@ == self@,
    {
        CheckoutKey {
            server_url: copy_text(self.server_url.as_str()),
            tenant: copy_optional(&self.tenant),
            credential_scope: self.credential_scope.copy(),
            root: copy_text(self.root.as_str()),
        }
    }
}

/// The views of a list of coordinators.
pub open spec fn coordinator_views(coordinators: Seq<Coordinator>) -> Seq<CoordinatorView> {
    coordinators.map_values(|c: Coordinator| c@)
}

/// The index of the coordinator of `key`, or the number of coordinators.
pub open spec fn key_index(coordinators: Seq<CoordinatorView>, key: KeyView) -> nat
    decreases coordinators.len(),
{
    if coordinators.len() == 0 || coordinators[0].key == key {
        0
    } else {
        1 + key_index(coordinators.drop_first(), key)
    }
}

/// Whether there is a coordinator for `key`.
pub open spec fn has_key(coordinators: Seq<CoordinatorView>, key: KeyView) -> bool {
    key_index(coordinators, key) < coordinators.len()
}

/// The coordinator of `key`.
pub open spec fn of_key(coordinators: Seq<CoordinatorView>, key: KeyView) -> CoordinatorView {
    coordinators[key_index(coordinators, key) as int]
}

/// The coordinators with the one of its key replaced.
pub open spec fn replaced(coordinators: Seq<CoordinatorView>, with: CoordinatorView) -> Seq<
    CoordinatorView,
> {
    coordinators.update(key_index(coordinators, with.key) as int, with)
}

/// A coordinator with one lease more.
pub open spec fn leased(coordinator: CoordinatorView) -> CoordinatorView {
    CoordinatorView { leases: coordinator.leases + 1, ..coordinator }
}

/// The coordinators once a session attached to `key`.
pub open spec fn attached(coordinators: Seq<CoordinatorView>, key: KeyView) -> Seq<CoordinatorView> {
    replaced(coordinators, leased(of_key(coordinators, key)))
}

/// The coordinators once a session has made one and published it: it is leased
/// and its startup run is queued, unless another session was faster, whose
/// coordinator is then used.
pub open spec fn published(coordinators: Seq<CoordinatorView>, made: CoordinatorView) -> Seq<
    CoordinatorView,
> {
    if has_key(coordinators, made.key) {
        attached(coordinators, made.key)
    } else {
        coordinators.push(leased(made).triggered(Trigger::Startup))
    }
}

/// The coordinators once the first index of `key` can be waited for.
pub open spec fn renewed(coordinators: Seq<CoordinatorView>, key: KeyView) -> Seq<CoordinatorView> {
    replaced(coordinators, of_key(coordinators, key).gate_renewed())
}

/// Whether a coordinator is idle, as a predicate.
pub open spec fn is_idle(now: u64, grace: u64) -> spec_fn(CoordinatorView) -> bool {
    |c: CoordinatorView| c.idle(now, grace)
}

/// Whether a coordinator is in use, as a predicate.
pub open spec fn is_kept(now: u64, grace: u64) -> spec_fn(CoordinatorView) -> bool {
    |c: CoordinatorView| !c.idle(now, grace)
}

/// A coordinator once it is cancelled.
pub open spec fn cancelled() -> spec_fn(CoordinatorView) -> CoordinatorView {
    |c: CoordinatorView| CoordinatorView { watcher: Some(cancelled_reason()), ..c }
}

/// Every checkout this process keeps in sync.
pub struct CheckoutRegistry {
    coordinators: Vec<Coordinator>,
    /// How long a coordinator with no lease stays alive, in milliseconds.
    idle_grace: u64,
}

pub struct RegistryView {
    pub coordinators: Seq<CoordinatorView>,
    pub idle_grace: u64,
}

impl RegistryView {
    /// One key is one coordinator.
    pub open spec fn wf(self) -> bool {
        forall|i: int, j: int|
            0 <= i < j < self.coordinators.len() ==> (#[trigger] self.coordinators[i]).key != (
            #[trigger] self.coordinators[j]).key
    }

    /// No counter of the coordinator of `key` is at the end of its range.
    pub open spec fn has_room(self, key: KeyView) -> bool {
        has_key(self.coordinators, key) ==> of_key(self.coordinators, key).leases < usize::MAX
            && of_key(self.coordinators, key).gates.len() < usize::MAX
    }
}

impl View for CheckoutRegistry {
    type V = RegistryView;

    closed spec fn view(&self) -> RegistryView {
        RegistryView {
            coordinators: coordinator_views(self.coordinators@),
            idle_grace: self.idle_grace,
        }
    }
}

proof fn lemma_key_index(coordinators: Seq<CoordinatorView>, key: KeyView, n: int)
    requires
        0 <= n <= coordinators.len(),
        forall|i: int| 0 <= i < n ==> (#[trigger] coordinators[i]).key != key,
        n < coordinators.len() ==> coordinators[n].key == key,
    ensures
        key_index(coordinators, key) == n,
    decreases n,
{
    if n > 0 {
        let rest = coordinators.drop_first();
        assert forall|i: int| 0 <= i < n - 1 implies (#[trigger] rest[i]).key != key by {
            assert(rest[i] == coordinators[i + 1]);
        }
        lemma_key_index(rest, key, n - 1);
    }
}

pub proof fn lemma_key_index_bounds(coordinators: Seq<CoordinatorView>, key: KeyView)
    ensures
        key_index(coordinators, key) <= coordinators.len(),
        has_key(coordinators, key) ==> of_key(coordinators, key).key == key,
        forall|i: int|
            0 <= i < key_index(coordinators, key) ==> (#[trigger] coordinators[i]).key != key,
    decreases coordinators.len(),
{
    if coordinators.len() > 0 && coordinators[0].key != key {
        let rest = coordinators.drop_first();
        lemma_key_index_bounds(rest, key);
        assert forall|i: int| 0 <= i < key_index(coordinators, key) implies (
        #[trigger] coordinators[i]).key != key by {
            if i > 0 {
                assert(rest[i - 1] == coordinators[i]);
            }
        }
    }
}

impl CheckoutRegistry {
    pub fn new(idle_grace: u64) -> (registry: CheckoutRegistry)
        ensures
            registry@ == (RegistryView { coordinators: seq![], idle_grace }),
            registry@.wf(),
    {
        let registry = CheckoutRegistry { coordinators: Vec::new(), idle_grace };
        assert(registry@.coordinators =~= seq![]);
        registry
    }

    /// How many checkouts this process keeps in sync.
    pub fn len(&self) -> (count: usize)
        ensures
            count == self@.coordinators.len(),
    {
        self.coordinators.len()
    }

    fn find(&self, key: &CheckoutKey) -> (index: usize)
        ensures
            index == key_index(self@.coordinators, key@),
            index <= self.coordinators@.len(),
    {
        let mut i: usize = 0;
        while i < self.coordinators.len()
            invariant
                i <= self.coordinators@.len(),
                forall|j: int| 0 <= j < i ==> (#[trigger] self@.coordinators[j]).key != key@,
            decreases self.coordinators@.len() - i,
        {
            assert(self@.coordinators[i as int] == self.coordinators@[i as int]@);
            if self.coordinators[i].key().same(key) {
                proof {
                    lemma_key_index(self@.coordinators, key@, i as int);
                }
                return i;
            }
            i = i + 1;
        }
        proof {
            lemma_key_index(self@.coordinators, key@, i as int);
        }
        i
    }

    /// The coordinator for `key`, if this process has one.
    pub fn coordinator(&self, key: &CheckoutKey) -> (found: Option<&Coordinator>)
        ensures
            match found {
                Some(c) => has_key(self@.coordinators, key@) && c@ == of_key(
                    self@.coordinators,
                    key@,
                ),
                None => !has_key(self@.coordinators, key@),
            },
    {
        let i: usize = self.find(key);
        if i < self.coordinators.len() {
            Some(&self.coordinators[i])
        } else {
            None
        }
    }

    /// The coordinator for `key`, to be changed in place.
    pub fn coordinator_mut(&mut self, key: &CheckoutKey) -> (found: Option<&mut Coordinator>)
        ensures
            match found {
                Some(c) => has_key(old(self)@.coordinators, key@) && c@ == of_key(
                    old(self)@.coordinators,
                    key@,
                ) && final(self)@.coordinators =~= old(self)@.coordinators.update(
                    key_index(old(self)@.coordinators, key@) as int,
                    final(c)@,
                ) && final(self)@.idle_grace == old(self)@.idle_grace,
                None => !has_key(old(self)@.coordinators, key@) && final(self)@ == old(self)@,
            },
    {
        let i: usize = self.find(key);
        let ghost before = self@;
        if i < self.coordinators.len() {
            assert(before.coordinators[i as int] == self.coordinators@[i as int]@);
            Some(&mut self.coordinators[i])
        } else {
            None
        }
    }

    /// Puts a coordinator in at index `i`.
    fn put_back(&mut self, i: usize, coordinator: Coordinator)
        requires
            i <= old(self)@.coordinators.len(),
        ensures
            final(self)@.coordinators == old(self)@.coordinators.insert(i as int, coordinator@),
            final(self)@.idle_grace == old(self)@.idle_grace,
    {
        let ghost before = self@;
        self.coordinators.insert(i, coordinator);
        assert(self@.coordinators =~= before.coordinators.insert(i as int, coordinator@));
    }

    /// Keeps a checkout in sync for one more session, where this process
    /// already has it, whichever session created it.
    pub fn attach(&mut self, key: &CheckoutKey) -> (reused: bool)
        requires
            old(self)@.wf(),
            old(self)@.has_room(key@),
        ensures
            reused == has_key(old(self)@.coordinators, key@),
            final(self)@.coordinators == if reused {
                attached(old(self)@.coordinators, key@)
            } else {
                old(self)@.coordinators
            },
            final(self)@.idle_grace == old(self)@.idle_grace,
            final(self)@.wf(),
    {
        let ghost before = self@;
        let i: usize = self.find(key);
        if i == self.coordinators.len() {
            return false;
        }
        proof {
            lemma_key_index_bounds(before.coordinators, key@);
            assert(before.coordinators[i as int] == self.coordinators@[i as int]@);
        }
        let mut coordinator = self.coordinators.remove(i);
        assert(self@.coordinators =~= before.coordinators.remove(i as int));
        coordinator.hold_lease();
        self.put_back(i, coordinator);
        assert(self@.coordinators =~= attached(before.coordinators, key@));
        true
    }

    /// Publishes a coordinator that a session made for a checkout that nobody
    /// held. The lease is taken before it is published, so the sweep can never
    /// see it without one. Where another session published the same checkout
    /// meanwhile, theirs is used and the one that was made is handed back to be
    /// stopped.
    pub fn publish(&mut self, made: Coordinator) -> (unused: Option<Coordinator>)
        requires
            old(self)@.wf(),
            old(self)@.has_room(made@.key),
            made@.leases < usize::MAX,
        ensures
            final(self)@.coordinators == published(old(self)@.coordinators, made@),
            final(self)@.idle_grace == old(self)@.idle_grace,
            final(self)@.wf(),
            match unused {
                Some(c) => has_key(old(self)@.coordinators, made@.key) && c@ == cancelled()(made@),
                None => !has_key(old(self)@.coordinators, made@.key),
            },
    {
        let ghost before = self@;
        let key = made.key().copy();
        if self.attach(&key) {
            let mut unused = made;
            unused.cancel();
            return Some(unused);
        }
        let mut coordinator = made;
        coordinator.hold_lease();
        coordinator.trigger(Trigger::Startup);
        let ghost added = coordinator@;
        self.coordinators.push(coordinator);
        assert(self@.coordinators =~= before.coordinators.push(added));
        proof {
            lemma_key_index_bounds(before.coordinators, key@);
        }
        None
    }

    /// Where a first index of an attached checkout is reported through.
    pub fn first_index_gate(&mut self, key: &CheckoutKey) -> (gate: Option<usize>)
        requires
            old(self)@.wf(),
            old(self)@.has_room(key@),
        ensures
            match gate {
                Some(g) => has_key(old(self)@.coordinators, key@) && final(self)@.coordinators
                    == renewed(old(self)@.coordinators, key@) && g == of_key(
                    final(self)@.coordinators,
                    key@,
                ).gates.len() - 1,
                None => !has_key(old(self)@.coordinators, key@) && final(self)@ == old(self)@,
            },
            final(self)@.idle_grace == old(self)@.idle_grace,
            final(self)@.wf(),
    {
        let ghost before = self@;
        let i: usize = self.find(key);
        if i == self.coordinators.len() {
            return None;
        }
        proof {
            lemma_key_index_bounds(before.coordinators, key@);
            assert(before.coordinators[i as int] == self.coordinators@[i as int]@);
        }
        let mut coordinator = self.coordinators.remove(i);
        assert(self@.coordinators =~= before.coordinators.remove(i as int));
        let gate: usize = coordinator.renew_first_index_gate();
        self.put_back(i, coordinator);
        assert(self@.coordinators =~= renewed(before.coordinators, key@));
        proof {
            lemma_key_index(self@.coordinators, key@, i as int);
        }
        Some(gate)
    }

    /// Releases one session's claim on a checkout.
    pub fn release(&mut self, key: &CheckoutKey, now: u64)
        requires
            old(self)@.wf(),
            has_key(old(self)@.coordinators, key@),
            of_key(old(self)@.coordinators, key@).leases > 0,
        ensures
            final(self)@.coordinators == replaced(
                old(self)@.coordinators,
                ({
                    let held = of_key(old(self)@.coordinators, key@);
                    CoordinatorView {
                        leases: (held.leases - 1) as nat,
                        released_at: if held.leases == 1 {
                            Some(now)
                        } else {
                            held.released_at
                        },
                        ..held
                    }
                }),
            ),
            final(self)@.idle_grace == old(self)@.idle_grace,
            final(self)@.wf(),
    {
        let ghost before = self@;
        let i: usize = self.find(key);
        proof {
            lemma_key_index_bounds(before.coordinators, key@);
            assert(before.coordinators[i as int] == self.coordinators@[i as int]@);
        }
        let mut coordinator = self.coordinators.remove(i);
        assert(self@.coordinators =~= before.coordinators.remove(i as int));
        coordinator.release_lease(now);
        let ghost after = coordinator@;
        self.put_back(i, coordinator);
        assert(self@.coordinators =~= replaced(before.coordinators, after));
    }

    /// Removes every coordinator that no session has held for the idle grace,
    /// and hands them back cancelled.
    pub fn sweep_idle(&mut self, now: u64) -> (released: Vec<Coordinator>)
        requires
            old(self)@.wf(),
        ensures
            final(self)@.coordinators == old(self)@.coordinators.filter(
                is_kept(now, old(self)@.idle_grace),
            ),
            coordinator_views(released@) == old(self)@.coordinators.filter(
                is_idle(now, old(self)@.idle_grace),
            ).map_values(cancelled()),
            final(self)@.idle_grace == old(self)@.idle_grace,
            final(self)@.wf(),
    {
        let ghost before = self@;
        let ghost keep = is_kept(now, before.idle_grace);
        let ghost idle = is_idle(now, before.idle_grace);
        let grace: u64 = self.idle_grace;
        let mut pending: Vec<Coordinator> = Vec::new();
        std::mem::swap(&mut pending, &mut self.coordinators);
        let mut kept: Vec<Coordinator> = Vec::new();
        let mut released: Vec<Coordinator> = Vec::new();
        let ghost all = before.coordinators;
        let ghost mut done: int = 0;
        reveal(Seq::filter);
        assert(all.take(0).filter(keep) =~= Seq::<CoordinatorView>::empty());
        assert(all.take(0).filter(idle) =~= Seq::<CoordinatorView>::empty());
        assert(coordinator_views(kept@) =~= Seq::<CoordinatorView>::empty());
        assert(coordinator_views(released@) =~= all.take(0).filter(idle).map_values(cancelled()));
        assert(coordinator_views(pending@) =~= all.skip(0));
        while pending.len() > 0
            invariant
                0 <= done <= all.len(),
                keep == is_kept(now, grace),
                idle == is_idle(now, grace),
                coordinator_views(pending@) == all.skip(done),
                coordinator_views(kept@) == all.take(done).filter(keep),
                coordinator_views(released@) == all.take(done).filter(idle).map_values(
                    cancelled(),
                ),
            decreases pending@.len(),
        {
            assert(coordinator_views(pending@).len() == pending@.len());
            assert(coordinator_views(pending@)[0] == pending@[0]@);
            assert(all.skip(done)[0] == all[done]);
            let ghost view_before = coordinator_views(pending@);
            let mut coordinator = pending.remove(0);
            assert(coordinator_views(pending@) =~= view_before.drop_first());
            proof {
                reveal(Seq::filter);
                assert(all.take(done + 1).drop_last() =~= all.take(done));
                assert(all.take(done + 1).last() == all[done]);
                assert(all.skip(done).drop_first() =~= all.skip(done + 1));
            }
            let ghost kept_before = kept@;
            let ghost released_before = released@;
            if coordinator.idle_for(now, grace) {
                coordinator.cancel();
                released.push(coordinator);
                assert(coordinator_views(released@) =~= coordinator_views(released_before).push(
                    cancelled()(all[done]),
                ));
                assert(all.take(done + 1).filter(idle).map_values(cancelled()) =~= all.take(
                    done,
                ).filter(idle).map_values(cancelled()).push(cancelled()(all[done])));
            } else {
                kept.push(coordinator);
                assert(coordinator_views(kept@) =~= coordinator_views(kept_before).push(all[done]));
            }
            proof {
                done = done + 1;
            }
        }
        proof {
            assert(coordinator_views(pending@).len() == pending@.len());
            assert(all.take(done) =~= all);
            lemma_filter_keeps_distinct_keys(all, keep);
        }
        self.coordinators = kept;
        released
    }
}

proof fn lemma_filter_keeps_distinct_keys(
    coordinators: Seq<CoordinatorView>,
    keep: spec_fn(CoordinatorView) -> bool,
)
    requires
        (RegistryView { coordinators, idle_grace: 0 }).wf(),
    ensures
        (RegistryView { coordinators: coordinators.filter(keep), idle_grace: 0 }).wf(),
        forall|i: int|
            0 <= i < coordinators.filter(keep).len() ==> coordinators.contains(
                #[trigger] coordinators.filter(keep)[i],
            ),
    decreases coordinators.len(),
{
    reveal(Seq::filter);
    if coordinators.len() > 0 {
        let shorter = coordinators.drop_last();
        let last = coordinators.last();
        assert((RegistryView { coordinators: shorter, idle_grace: 0 }).wf()) by {
            assert forall|i: int, j: int| 0 <= i < j < shorter.len() implies (
            #[trigger] shorter[i]).key != (#[trigger] shorter[j]).key by {
                assert(shorter[i] == coordinators[i] && shorter[j] == coordinators[j]);
            }
        }
        lemma_filter_keeps_distinct_keys(shorter, keep);
        let filtered = coordinators.filter(keep);
        assert forall|i: int| 0 <= i < filtered.len() implies coordinators.contains(
            #[trigger] filtered[i],
        ) by {
            if i < shorter.filter(keep).len() {
                let k = choose|k: int| 0 <= k < shorter.len() && shorter[k] == shorter.filter(keep)[i];
                assert(coordinators[k] == filtered[i]);
            } else {
                assert(coordinators[coordinators.len() - 1] == filtered[i]);
            }
        }
        assert forall|i: int, j: int| 0 <= i < j < filtered.len() implies (
        #[trigger] filtered[i]).key != (#[trigger] filtered[j]).key by {
            if j == shorter.filter(keep).len() {
                let k = choose|k: int| 0 <= k < shorter.len() && shorter[k] == shorter.filter(keep)[i];
                assert(coordinators[k].key != coordinators[coordinators.len() - 1].key);
            }
        }
    }
}

/// A sweep never releases a checkout that some session holds.
pub proof fn law_a_sweep_keeps_held_checkouts(registry: RegistryView, now: u64, i: int)
    requires
        0 <= i < registry.coordinators.len(),
        registry.coordinators[i].leases > 0,
    ensures
        registry.coordinators.filter(is_kept(now, registry.idle_grace)).contains(
            registry.coordinators[i],
        ),
{
    registry.coordinators.lemma_filter_contains(is_kept(now, registry.idle_grace), i);
}

/// Publishing a checkout that nobody holds gives it one lease and queues its
/// startup run; publishing one that another session holds starts nothing new.
pub proof fn law_one_checkout_is_started_once(
    coordinators: Seq<CoordinatorView>,
    made: CoordinatorView,
    again: CoordinatorView,
)
    requires
        made.leases == 0,
        made.triggers.len() == 0,
        again.key == made.key,
        !has_key(coordinators, made.key),
    ensures
        ({
            let once = published(coordinators, made);
            let twice = published(once, again);
            &&& once.len() == coordinators.len() + 1
            &&& of_key(once, made.key).leases == 1
            &&& of_key(once, made.key).turn(false) == TurnView::Run(Trigger::Startup)
            &&& twice.len() == once.len()
            &&& of_key(twice, made.key) == leased(of_key(once, made.key))
        }),
{
    lemma_key_index_bounds(coordinators, made.key);
    let once = published(coordinators, made);
    let n = coordinators.len() as int;
    lemma_key_index(once, made.key, n);
    let twice = published(once, again);
    lemma_key_index(twice, made.key, n);
}

/// One checkout is one coordinator, and two checkouts are two: two sessions share
/// a coordinator exactly where their keys are equal. The second session takes one
/// lease more. Where it finds a coordinator it uses that one and its first index;
/// otherwise its own is added, with a first index to wait for exactly where it
/// asked for one. The coordinator of the first session is left alone where the
/// keys differ.
pub proof fn law_one_key_is_one_coordinator(
    registry: RegistryView,
    first: CoordinatorView,
    key: KeyView,
    codebase_id: Option<Seq<char>>,
    watcher: Option<Seq<char>>,
    first_index: bool,
    resync_secs: Option<u64>,
)
    requires
        registry.wf(),
    ensures
        ({
            let second = CoordinatorView::fresh(
                key,
                codebase_id,
                watcher,
                first_index,
                resync_secs,
            );
            let one = published(registry.coordinators, first);
            let two = published(one, second);
            let created = !has_key(one, key);
            &&& (RegistryView { coordinators: two, ..registry }).wf()
            &&& has_key(two, first.key) && has_key(two, key)
            &&& key_index(two, first.key) == key_index(two, key) <==> first.key == key
            &&& first.key == key ==> !created
            &&& !created ==> two.len() == one.len() && of_key(two, key) == leased(of_key(one, key))
            &&& created ==> {
                &&& two.len() == one.len() + 1
                &&& of_key(two, key).leases == 1
                &&& of_key(two, key).gates.len() == if first_index { 1nat } else { 0nat }
            }
            &&& first.key != key ==> of_key(two, first.key) == of_key(one, first.key)
        }),
{
    let second = CoordinatorView::fresh(key, codebase_id, watcher, first_index, resync_secs);
    let one = published(registry.coordinators, first);
    let two = published(one, second);
    lemma_published(registry, first);
    let once = RegistryView { coordinators: one, ..registry };
    lemma_published(once, second);
    lemma_key_index_bounds(one, first.key);
    lemma_key_index_bounds(one, key);
    if first.key != key {
        let m = key_index(one, first.key) as int;
        assert(two[m] == one[m]);
        assert forall|i: int| 0 <= i < m implies (#[trigger] two[i]).key != first.key by {
            assert(one[i].key != first.key);
        }
        lemma_key_index(two, first.key, m);
    }
}

/// Publishing keeps one coordinator per key and gives the key a coordinator. Every
/// other coordinator stays what it is, where it is.
proof fn lemma_published(registry: RegistryView, made: CoordinatorView)
    requires
        registry.wf(),
    ensures
        ({
            let before = registry.coordinators;
            let after = published(before, made);
            let n = key_index(before, made.key) as int;
            &&& (RegistryView { coordinators: after, ..registry }).wf()
            &&& key_index(after, made.key) == n < after.len()
            &&& after[n].key == made.key
            &&& before.len() <= after.len()
            &&& forall|i: int| 0 <= i < before.len() && i != n ==> after[i] == #[trigger] before[i]
        }),
{
    let before = registry.coordinators;
    let after = published(before, made);
    let n = key_index(before, made.key) as int;
    lemma_key_index_bounds(before, made.key);
    lemma_key_index(after, made.key, n);
    assert forall|i: int, j: int| 0 <= i < j < after.len() implies (#[trigger] after[i]).key != (
    #[trigger] after[j]).key by {
        if j < before.len() {
            assert(before[i].key != before[j].key);
        }
    }
}

/// A coordinator is found by its key: there is one exactly where a coordinator has
/// the key, and it is that one.
pub proof fn law_a_coordinator_is_found_by_its_key(registry: RegistryView, key: KeyView, i: int)
    requires
        registry.wf(),
    ensures
        has_key(registry.coordinators, key) <==> registry.coordinators.map_values(
            |c: CoordinatorView| c.key,
        ).contains(key),
        0 <= i < registry.coordinators.len() ==> has_key(
            registry.coordinators,
            registry.coordinators[i].key,
        ) && of_key(registry.coordinators, registry.coordinators[i].key)
            == registry.coordinators[i],
{
    let all = registry.coordinators;
    let keys = all.map_values(|c: CoordinatorView| c.key);
    lemma_key_index_bounds(all, key);
    if has_key(all, key) {
        assert(keys[key_index(all, key) as int] == key);
    }
    if keys.contains(key) {
        let k = choose|k: int| 0 <= k < keys.len() && keys[k] == key;
        assert(all[k].key == key);
        lemma_first_with_key(all, key, k);
    }
    if 0 <= i < all.len() {
        lemma_first_with_key(all, all[i].key, i);
        lemma_key_index_bounds(all, all[i].key);
        let k = key_index(all, all[i].key) as int;
        if k < i {
            assert(all[k].key != all[i].key);
        }
    }
}

proof fn lemma_first_with_key(coordinators: Seq<CoordinatorView>, key: KeyView, i: int)
    requires
        0 <= i < coordinators.len(),
        coordinators[i].key == key,
    ensures
        key_index(coordinators, key) <= i,
    decreases coordinators.len(),
{
    if coordinators[0].key != key {
        lemma_first_with_key(coordinators.drop_first(), key, i - 1);
    }
}

/// A session that attaches to a checkout adds one lease to its coordinator and
/// changes nothing else of it, and nothing of the others.
pub proof fn law_attaching_adds_one_lease(registry: RegistryView, i: int, other: int)
    requires
        registry.wf(),
        0 <= i < registry.coordinators.len(),
        0 <= other < registry.coordinators.len(),
        other != i,
    ensures
        ({
            let before = registry.coordinators;
            let after = attached(before, before[i].key);
            &&& after.len() == before.len()
            &&& after[i] == (CoordinatorView { leases: before[i].leases + 1, ..before[i] })
            &&& after[other] == before[other]
        }),
{
    let before = registry.coordinators;
    law_a_coordinator_is_found_by_its_key(registry, before[i].key, i);
    lemma_key_index_bounds(before, before[i].key);
    let k = key_index(before, before[i].key) as int;
    lemma_first_with_key(before, before[i].key, i);
    if k < i {
        assert(before[k].key != before[i].key);
    }
}

/// A sweep parts the checkouts in two: those that no session has held for the grace
/// go, with their watcher marked as cancelled and nothing else changed, and all
/// others stay as they are.
pub proof fn law_a_sweep_parts_the_checkouts(registry: RegistryView, now: u64, i: int)
    requires
        0 <= i < registry.coordinators.len(),
    ensures
        ({
            let all = registry.coordinators;
            let c = all[i];
            let gone = c.leases == 0 && c.released_at is Some && now - c.released_at->0
                >= registry.idle_grace && (now >= c.released_at->0 || registry.idle_grace == 0);
            let quiet = c.leases == 0 && c.released_at is Some && registry.idle_grace == 0;
            let released = all.filter(is_idle(now, registry.idle_grace)).map_values(cancelled());
            &&& gone || quiet ==> released.contains(
                CoordinatorView { watcher: Some("coordinator cancelled"@), ..c },
            )
            &&& !gone && !quiet ==> all.filter(is_kept(now, registry.idle_grace)).contains(c)
            &&& forall|k: int|
                0 <= k < all.filter(is_kept(now, registry.idle_grace)).len() ==> all.contains(
                    #[trigger] all.filter(is_kept(now, registry.idle_grace))[k],
                )
        }),
{
    let all = registry.coordinators;
    let (idle, kept) = (is_idle(now, registry.idle_grace), is_kept(now, registry.idle_grace));
    if idle(all[i]) {
        all.lemma_filter_contains(idle, i);
        let k = choose|k: int| 0 <= k < all.filter(idle).len() && all.filter(idle)[k] == all[i];
        assert(all.filter(idle).map_values(cancelled())[k] == cancelled()(all[i]));
    } else {
        all.lemma_filter_contains(kept, i);
    }
    assert forall|k: int| 0 <= k < all.filter(kept).len() implies all.contains(
        #[trigger] all.filter(kept)[k],
    ) by {
        all.lemma_filter_contains_rev(kept, all.filter(kept)[k]);
    }
}

/// A released lease is given back: the coordinator has one less, and is released now
/// where that was the last one. Nothing else of it changes, and nothing of the others.
pub proof fn law_a_released_lease_is_given_back(
    registry: &mut CheckoutRegistry,
    key: &CheckoutKey,
    now: u64,
    i: int,
    other: int,
)
    requires
        call_ensures(CheckoutRegistry::release, (registry, key, now), ()),
        old(registry)@.wf(),
        0 <= i < old(registry)@.coordinators.len(),
        old(registry)@.coordinators[i].key == key@,
        old(registry)@.coordinators[i].leases > 0,
        0 <= other < old(registry)@.coordinators.len(),
        other != i,
    ensures
        ({
            let before = old(registry)@.coordinators;
            let after = final(registry)@.coordinators;
            &&& after.len() == before.len()
            &&& after[i] == (CoordinatorView {
                leases: (before[i].leases - 1) as nat,
                released_at: if before[i].leases == 1 {
                    Some(now)
                } else {
                    before[i].released_at
                },
                ..before[i]
            })
            &&& after[other] == before[other]
        }),
{
    let before = old(registry)@.coordinators;
    law_a_coordinator_is_found_by_its_key(old(registry)@, key@, i);
    lemma_key_index_bounds(before, key@);
    lemma_first_with_key(before, key@, i);
    let k = key_index(before, key@) as int;
    if k < i {
        assert(before[k].key != before[i].key);
    }
}

/// A checkout that is published is new, with one lease and a first run that is due, or
/// is the one that is there, with one more lease; then what was made for it is not
/// used.
pub proof fn law_publishing_starts_a_checkout_once(
    registry: &mut CheckoutRegistry,
    made: Coordinator,
    unused: Option<Coordinator>,
    i: int,
)
    requires
        call_ensures(CheckoutRegistry::publish, (registry, made), unused),
        old(registry)@.wf(),
        0 <= i < old(registry)@.coordinators.len(),
        made@.triggers.len() < 64,
    ensures
        ({
            let before = old(registry)@.coordinators;
            let after = final(registry)@.coordinators;
            let known = before.map_values(|c: CoordinatorView| c.key).contains(made@.key);
            &&& unused is Some <==> known
            &&& !known ==> after == before + seq![
                CoordinatorView {
                    leases: made@.leases + 1,
                    triggers: made@.triggers.push(Trigger::Startup),
                    ..made@
                },
            ]
            &&& known ==> after.len() == before.len() && after[i] == if before[i].key == made@.key {
                CoordinatorView { leases: before[i].leases + 1, ..before[i] }
            } else {
                before[i]
            }
        }),
{
    let before = old(registry)@.coordinators;
    let after = final(registry)@.coordinators;
    law_a_coordinator_is_found_by_its_key(old(registry)@, made@.key, i);
    lemma_key_index_bounds(before, made@.key);
    if has_key(before, made@.key) {
        let k = key_index(before, made@.key) as int;
        if before[i].key == made@.key {
            lemma_first_with_key(before, made@.key, i);
            if k < i {
                assert(before[k].key != before[i].key);
            }
        }
    } else {
        assert(after =~= before + seq![
            CoordinatorView {
                leases: made@.leases + 1,
                triggers: made@.triggers.push(Trigger::Startup),
                ..made@
            },
        ]);
    }
}

/// A first index that serves is given again; otherwise the checkout gets a new one,
/// and a first run is due.
pub proof fn law_a_first_index_is_renewed_where_it_failed(
    registry: &mut CheckoutRegistry,
    key: &CheckoutKey,
    gate: Option<usize>,
    i: int,
)
    requires
        call_ensures(CheckoutRegistry::first_index_gate, (registry, key), gate),
        old(registry)@.wf(),
        0 <= i < old(registry)@.coordinators.len(),
        old(registry)@.coordinators[i].key == key@,
        old(registry)@.coordinators[i].triggers.len() < 64,
    ensures
        ({
            let before = old(registry)@.coordinators[i];
            let after = final(registry)@.coordinators[i];
            let serves = before.gates.len() > 0 && !(before.gates.last().result matches Some(
                Err(_),
            ));
            &&& gate is Some
            &&& serves ==> after == before && gate->0 == before.gates.len() - 1
            &&& !serves ==> {
                &&& after.gates.len() == before.gates.len() + 1
                &&& after.gates.last().result is None && after.gates.last().codebase_id is None
                &&& after.triggers == before.triggers.push(Trigger::Startup)
                &&& after.leases == before.leases
                &&& gate->0 == before.gates.len()
            }
        }),
{
    let before = old(registry)@.coordinators;
    law_a_coordinator_is_found_by_its_key(old(registry)@, key@, i);
    lemma_key_index_bounds(before, key@);
    lemma_first_with_key(before, key@, i);
    let k = key_index(before, key@) as int;
    if k < i {
        assert(before[k].key != before[i].key);
    }
    let after = final(registry)@.coordinators;
    assert(after[i].key == key@);
    lemma_first_with_key(after, key@, i);
    lemma_key_index_bounds(after, key@);
    let m = key_index(after, key@) as int;
    if m < i {
        assert(after[m] == before[m]);
        assert(before[m].key != before[i].key);
    }
}

/// A sweep hands out the checkouts that are idle, and keeps the others.
pub proof fn law_sweeping_releases_idle_checkouts(
    registry: &mut CheckoutRegistry,
    now: u64,
    released: Vec<Coordinator>,
    key: &CheckoutKey,
    attaching: &mut CheckoutRegistry,
    reused: bool,
)
    requires
        call_ensures(CheckoutRegistry::sweep_idle, (registry, now), released),
        call_ensures(CheckoutRegistry::attach, (attaching, key), reused),
    ensures
        ({
            let all = old(registry)@.coordinators;
            let grace = old(registry)@.idle_grace;
            let gone = Seq::new(released@.len(), |i: int| released@[i]@);
            &&& final(registry)@.coordinators == all.filter(
                |c: CoordinatorView| !c.idle(now, grace),
            )
            &&& gone == all.filter(|c: CoordinatorView| c.idle(now, grace)).map_values(
                |c: CoordinatorView|
                    CoordinatorView { watcher: Some("coordinator cancelled"@), ..c },
            )
            &&& final(registry)@.idle_grace == grace
        }),
        reused <==> has_key(old(attaching)@.coordinators, key@),
        !reused ==> final(attaching)@.coordinators == old(attaching)@.coordinators,
        reused ==> final(attaching)@.coordinators == attached(
            old(attaching)@.coordinators,
            key@,
        ),
{
    let grace = old(registry)@.idle_grace;
    assert(is_kept(now, grace) =~= (|c: CoordinatorView| !c.idle(now, grace)));
    assert(is_idle(now, grace) =~= (|c: CoordinatorView| c.idle(now, grace)));
    assert(cancelled() =~= (|c: CoordinatorView|
        CoordinatorView { watcher: Some("coordinator cancelled"@), ..c }));
    assert(coordinator_views(released@) =~= Seq::new(released@.len(), |i: int| released@[i]@));
}

} // verus!
