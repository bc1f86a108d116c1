//! The checkouts that a session keeps in sync.

use vstd::prelude::*;

use crate::engine::coordinator::{Coordinator, CoordinatorStatus, CoordinatorView, Trigger};
use crate::engine::registry::{
    has_key, key_index, lemma_key_index_bounds, of_key, CheckoutKey, CheckoutRegistry, KeyView,
};
use crate::mcp::readiness::{
    failure_message, gate_views, gates_answer, initial_index_failed, wait_for_gates, GateView,
    InitialIndexGate, Membership, Readiness, Waiting,
};
use crate::text::{copy_text, optional, same, texts};

verus! {

/// What a tool call is about: a codebase, and the local checkout it is read
/// from.
pub struct Target {
    pub codebase: Option<String>,
    pub root: Option<String>,
}

impl Target {
    /// The same codebase as the project publishes it, whatever is in the local
    /// checkout.
    pub fn for_canonical(self) -> (target: Target)
        ensures
            target.codebase == self.codebase,
            target.root is None,
    {
        Target { codebase: self.codebase, root: None }
    }

    pub fn copy(&self) -> (target: Target)
        ensures
            optional(target.codebase) == optional(self.codebase),
            optional(target.root) == optional(self.root),
    {
        Target {
            codebase: crate::text::copy_optional(&self.codebase),
            root: crate::text::copy_optional(&self.root),
        }
    }
}

/// The first checkout of a list whose coordinator passes a test.
pub open spec fn first_held(
    keys: Seq<KeyView>,
    coordinators: Seq<CoordinatorView>,
    test: spec_fn(CoordinatorView) -> bool,
) -> Option<CoordinatorView>
    decreases keys.len(),
{
    if keys.len() == 0 {
        None
    } else if has_key(coordinators, keys[0]) && test(of_key(coordinators, keys[0])) {
        Some(of_key(coordinators, keys[0]))
    } else {
        first_held(keys.drop_first(), coordinators, test)
    }
}

pub open spec fn is_at(root: Seq<char>) -> spec_fn(CoordinatorView) -> bool {
    |c: CoordinatorView| c.key.root == root
}

pub open spec fn is_of(codebase: Seq<char>) -> spec_fn(CoordinatorView) -> bool {
    |c: CoordinatorView| c.codebase_id == Some(codebase)
}

/// The newest first index of each checkout that has one, in order.
pub open spec fn held_gates(keys: Seq<KeyView>, coordinators: Seq<CoordinatorView>) -> Seq<GateView>
    decreases keys.len(),
{
    if keys.len() == 0 {
        seq![]
    } else {
        let before = held_gates(keys.drop_last(), coordinators);
        if has_key(coordinators, keys.last()) && of_key(coordinators, keys.last()).gates.len() > 0 {
            before.push(of_key(coordinators, keys.last()).gates.last())
        } else {
            before
        }
    }
}

/// What the first index of the checkout at a root answers; a checkout that is
/// not held, or that has no first index, has nothing to wait for.
pub open spec fn path_answer(
    keys: Seq<KeyView>,
    coordinators: Seq<CoordinatorView>,
    root: Seq<char>,
) -> Option<Result<(), Seq<char>>> {
    match first_held(keys, coordinators, is_at(root)) {
        Some(c) if c.gates.len() > 0 => match c.gates.last().result {
            None => None,
            Some(Ok(_)) => Some(Ok(())),
            Some(Err(reason)) => Some(Err(failure_message(reason))),
        },
        _ => Some(Ok(())),
    }
}

/// What the first indexes of every held checkout answer for one codebase.
pub open spec fn codebase_answer(
    keys: Seq<KeyView>,
    coordinators: Seq<CoordinatorView>,
    codebase: Seq<char>,
) -> Option<Result<(), Seq<char>>> {
    match gates_answer(held_gates(keys, coordinators), seq![codebase]) {
        Ok(None) => Some(Ok(())),
        Ok(Some(_)) => None,
        Err(message) => Some(Err(message)),
    }
}

/// What a tool call about a target waits for. Different checkouts can share a
/// codebase: a local checkout waits for its own first index, and a call without
/// one for that of every checkout of the codebase.
pub open spec fn target_answer(
    keys: Seq<KeyView>,
    coordinators: Seq<CoordinatorView>,
    target: Target,
) -> Option<Result<(), Seq<char>>> {
    match (target.root, target.codebase) {
        (Some(root), _) => path_answer(keys, coordinators, root@),
        (None, Some(id)) => codebase_answer(keys, coordinators, id@),
        (None, None) => Some(Ok(())),
    }
}

/// The checkout that answers for a target: the one at its root where it is held,
/// and otherwise any of its codebase.
pub open spec fn status_holder(
    keys: Seq<KeyView>,
    coordinators: Seq<CoordinatorView>,
    target: Target,
) -> Option<CoordinatorView> {
    let at_root = match target.root {
        Some(root) => first_held(keys, coordinators, is_at(root@)),
        None => None,
    };
    match at_root {
        Some(c) => Some(c),
        None => match target.codebase {
            Some(id) => first_held(keys, coordinators, is_of(id@)),
            None => None,
        },
    }
}

/// Whether first indexes let a call go on.
pub enum FirstIndex {
    /// Wait until a first index changes, then ask again.
    Pending,
    Failed(String),
    Ready,
}

impl FirstIndex {
    pub open spec fn answers(self, answer: Option<Result<(), Seq<char>>>) -> bool {
        match self {
            FirstIndex::Pending => answer is None,
            FirstIndex::Failed(message) => answer == Some(Err::<(), Seq<char>>(message@)),
            FirstIndex::Ready => answer == Some(Ok::<(), Seq<char>>(())),
        }
    }
}

/// The leases of one session, each checkout once.
pub struct Leases {
    keys: Vec<CheckoutKey>,
}

pub open spec fn key_views(keys: Seq<CheckoutKey>) -> Seq<KeyView> {
    keys.map_values(|k: CheckoutKey| k@)
}

impl View for Leases {
    type V = Seq<KeyView>;

    closed spec fn view(&self) -> Seq<KeyView> {
        key_views(self.keys@)
    }
}

proof fn lemma_first_held_skips(
    keys: Seq<KeyView>,
    coordinators: Seq<CoordinatorView>,
    test: spec_fn(CoordinatorView) -> bool,
    n: int,
)
    requires
        0 <= n <= keys.len(),
        forall|i: int|
            0 <= i < n ==> !(has_key(coordinators, #[trigger] keys[i]) && test(
                of_key(coordinators, keys[i]),
            )),
    ensures
        first_held(keys, coordinators, test) == first_held(keys.skip(n), coordinators, test),
    decreases n,
{
    if n > 0 {
        let rest = keys.drop_first();
        assert(!(has_key(coordinators, keys[0]) && test(of_key(coordinators, keys[0]))));
        assert forall|i: int| 0 <= i < n - 1 implies !(has_key(coordinators, #[trigger] rest[i])
            && test(of_key(coordinators, rest[i]))) by {
            assert(rest[i] == keys[i + 1]);
        }
        lemma_first_held_skips(rest, coordinators, test, n - 1);
        assert(rest.skip(n - 1) =~= keys.skip(n));
    } else {
        assert(keys.skip(0) =~= keys);
    }
}

impl Leases {
    pub fn new() -> (leases: Leases)
        ensures
            leases@ == Seq::<KeyView>::empty(),
    {
        let leases = Leases { keys: Vec::new() };
        assert(leases@ =~= Seq::<KeyView>::empty());
        leases
    }

    /// How many checkouts the session holds.
    pub fn len(&self) -> (count: usize)
        ensures
            count == self@.len(),
    {
        self.keys.len()
    }

    /// Keeps a lease on a checkout. One session holds one lease for each: where
    /// it already holds one, the new lease is to be released again.
    pub fn hold(&mut self, key: CheckoutKey) -> (kept: bool)
        ensures
            kept == !old(self)@.contains(key@),
            final(self)@ == if kept {
                old(self)@.push(key@)
            } else {
                old(self)@
            },
            old(self)@.no_duplicates() ==> final(self)@.no_duplicates(),
    {
        let ghost before = self@;
        let mut i: usize = 0;
        while i < self.keys.len()
            invariant
                i <= self.keys@.len(),
                self@ == before,
                forall|k: int| 0 <= k < i ==> #[trigger] before[k] != key@,
            decreases self.keys@.len() - i,
        {
            assert(before[i as int] == self.keys@[i as int]@);
            if self.keys[i].same(&key) {
                return false;
            }
            i = i + 1;
        }
        let ghost added = key@;
        self.keys.push(key);
        assert(self@ =~= before.push(added));
        true
    }

    /// The held checkout at a root.
    pub fn at_root<'a>(&self, registry: &'a CheckoutRegistry, root: &str) -> (found: Option<
        &'a Coordinator,
    >)
        ensures
            match found {
                Some(c) => first_held(self@, registry@.coordinators, is_at(root@)) == Some(c@),
                None => first_held(self@, registry@.coordinators, is_at(root@)) is None,
            },
    {
        let mut i: usize = 0;
        while i < self.keys.len()
            invariant
                i <= self.keys@.len(),
                forall|k: int|
                    0 <= k < i ==> !(has_key(registry@.coordinators, #[trigger] self@[k]) && is_at(root@)(
                        of_key(registry@.coordinators, self@[k]),
                    )),
            decreases self.keys@.len() - i,
        {
            assert(self@[i as int] == self.keys@[i as int]@);
            match registry.coordinator(&self.keys[i]) {
                Some(c) => {
                    if same(c.root(), root) {
                        proof {
                            lemma_first_held_skips(
                                self@,
                                registry@.coordinators,
                                is_at(root@),
                                i as int,
                            );
                            assert(self@.skip(i as int)[0] == self@[i as int]);
                        }
                        return Some(c);
                    }
                },
                None => {},
            }
            i = i + 1;
        }
        proof {
            lemma_first_held_skips(self@, registry@.coordinators, is_at(root@), i as int);
            assert(self@.skip(i as int).len() == 0);
        }
        None
    }

    /// The first held checkout of a codebase.
    pub fn of_codebase<'a>(&self, registry: &'a CheckoutRegistry, codebase: &str) -> (found: Option<
        &'a Coordinator,
    >)
        ensures
            match found {
                Some(c) => first_held(self@, registry@.coordinators, is_of(codebase@)) == Some(c@),
                None => first_held(self@, registry@.coordinators, is_of(codebase@)) is None,
            },
    {
        let mut i: usize = 0;
        while i < self.keys.len()
            invariant
                i <= self.keys@.len(),
                forall|k: int|
                    0 <= k < i ==> !(has_key(registry@.coordinators, #[trigger] self@[k]) && is_of(
                        codebase@,
                    )(of_key(registry@.coordinators, self@[k]))),
            decreases self.keys@.len() - i,
        {
            assert(self@[i as int] == self.keys@[i as int]@);
            match registry.coordinator(&self.keys[i]) {
                Some(c) => {
                    let matches = match c.codebase_id() {
                        Some(id) => same(id.as_str(), codebase),
                        None => false,
                    };
                    if matches {
                        proof {
                            lemma_first_held_skips(
                                self@,
                                registry@.coordinators,
                                is_of(codebase@),
                                i as int,
                            );
                            assert(self@.skip(i as int)[0] == self@[i as int]);
                        }
                        return Some(c);
                    }
                },
                None => {},
            }
            i = i + 1;
        }
        proof {
            lemma_first_held_skips(self@, registry@.coordinators, is_of(codebase@), i as int);
            assert(self@.skip(i as int).len() == 0);
        }
        None
    }

    /// The newest first index of each held checkout, as it is now.
    pub fn gates(&self, registry: &CheckoutRegistry) -> (gates: Vec<InitialIndexGate>)
        ensures
            gate_views(gates@) == held_gates(self@, registry@.coordinators),
    {
        let mut gates: Vec<InitialIndexGate> = Vec::new();
        let mut i: usize = 0;
        assert(gate_views(gates@) =~= held_gates(self@.take(0), registry@.coordinators));
        while i < self.keys.len()
            invariant
                i <= self.keys@.len(),
                gate_views(gates@) == held_gates(self@.take(i as int), registry@.coordinators),
            decreases self.keys@.len() - i,
        {
            proof {
                assert(self@.take(i + 1).drop_last() =~= self@.take(i as int));
                assert(self@.take(i + 1).last() == self.keys@[i as int]@);
            }
            match registry.coordinator(&self.keys[i]) {
                Some(c) => match c.gate() {
                    Some(gate) => {
                        let ghost before = gate_views(gates@);
                        let found = c.gate_at(gate).snapshot();
                        let ghost view = found@;
                        gates.push(found);
                        assert(gate_views(gates@) =~= before.push(view));
                    },
                    None => {},
                },
                None => {},
            }
            i = i + 1;
        }
        assert(self@.take(i as int) =~= self@);
        gates
    }

    /// What a readiness check covers now.
    pub fn membership(&self, registry: &CheckoutRegistry) -> (membership: Membership)
        ensures
            membership.checkouts == self@.len(),
            membership.gates == held_gates(self@, registry@.coordinators).len(),
    {
        let gates = self.gates(registry);
        Membership { checkouts: self.keys.len(), gates: gates.len() }
    }

    /// Waits for the first index of the checkout at a root.
    pub fn await_initial_path(&self, registry: &CheckoutRegistry, root: &str) -> (ready: FirstIndex)
        ensures
            ready.answers(path_answer(self@, registry@.coordinators, root@)),
    {
        match self.at_root(registry, root) {
            Some(c) => match c.gate() {
                Some(gate) => match c.gate_at(gate).wait() {
                    Waiting::Pending => FirstIndex::Pending,
                    Waiting::Ready(result) => match result {
                        Ok(()) => FirstIndex::Ready,
                        Err(reason) => FirstIndex::Failed(initial_index_failed(reason.as_str())),
                    },
                },
                None => FirstIndex::Ready,
            },
            None => FirstIndex::Ready,
        }
    }

    /// Waits for the first indexes that a search of one codebase can include.
    pub fn await_initial_codebase(&self, registry: &CheckoutRegistry, codebase: &str) -> (ready:
        FirstIndex)
        ensures
            ready.answers(codebase_answer(self@, registry@.coordinators, codebase@)),
    {
        let gates = self.gates(registry);
        let mut ids: Vec<String> = Vec::new();
        ids.push(copy_text(codebase));
        assert(texts(ids@) =~= seq![codebase@]);
        match wait_for_gates(&gates, &ids) {
            Readiness::Waiting(_) => FirstIndex::Pending,
            Readiness::Failed(message) => FirstIndex::Failed(message),
            Readiness::Ready => FirstIndex::Ready,
        }
    }

    /// Waits for what a tool call about a target has to wait for.
    pub fn await_initial_client(&self, registry: &CheckoutRegistry, target: &Target) -> (ready:
        FirstIndex)
        ensures
            ready.answers(target_answer(self@, registry@.coordinators, *target)),
    {
        match (&target.root, &target.codebase) {
            (Some(root), _) => self.await_initial_path(registry, root.as_str()),
            (None, Some(id)) => self.await_initial_codebase(registry, id.as_str()),
            (None, None) => FirstIndex::Ready,
        }
    }

    /// The status of the checkout that answers for a target.
    pub fn checkout_status(&self, registry: &CheckoutRegistry, target: &Target) -> (status: Option<
        CoordinatorStatus,
    >)
        ensures
            match status {
                Some(s) => status_holder(self@, registry@.coordinators, *target) matches Some(c)
                    && s@ == c.status(),
                None => status_holder(self@, registry@.coordinators, *target) is None,
            },
    {
        match &target.root {
            Some(root) => match self.at_root(registry, root.as_str()) {
                Some(c) => return Some(c.status()),
                None => {},
            },
            None => {},
        }
        match &target.codebase {
            Some(id) => match self.of_codebase(registry, id.as_str()) {
                Some(c) => Some(c.status()),
                None => None,
            },
            None => None,
        }
    }

    /// Whether the session keeps a checkout of a codebase in sync.
    pub fn watcher_active(&self, registry: &CheckoutRegistry, codebase: Option<&str>) -> (active: bool)
        ensures
            active == match codebase {
                Some(id) => first_held(self@, registry@.coordinators, is_of(id@)) is Some,
                None => false,
            },
    {
        match codebase {
            Some(id) => self.of_codebase(registry, id).is_some(),
            None => false,
        }
    }
}

/// Whether a coordinator is asked to sync: the session holds its checkout, and
/// it is of the codebase.
pub open spec fn is_asked(keys: Seq<KeyView>, codebase: Seq<char>, c: CoordinatorView) -> bool {
    keys.contains(c.key) && c.codebase_id == Some(codebase)
}

/// The coordinators once those of a codebase were asked to sync.
pub open spec fn asked(
    coordinators: Seq<CoordinatorView>,
    keys: Seq<KeyView>,
    codebase: Seq<char>,
) -> Seq<CoordinatorView> {
    coordinators.map_values(
        |c: CoordinatorView|
            if is_asked(keys, codebase, c) {
                c.triggered(Trigger::Explicit)
            } else {
                c
            },
    )
}

proof fn lemma_asked_next(
    coordinators: Seq<CoordinatorView>,
    keys: Seq<KeyView>,
    codebase: Seq<char>,
    n: int,
)
    requires
        0 <= n < keys.len(),
        keys.no_duplicates(),
        forall|i: int, j: int|
            0 <= i < j < coordinators.len() ==> (#[trigger] coordinators[i]).key != (
            #[trigger] coordinators[j]).key,
    ensures
        ({
            let before = asked(coordinators, keys.take(n), codebase);
            let after = asked(coordinators, keys.take(n + 1), codebase);
            let at = key_index(before, keys[n]) as int;
            if has_key(before, keys[n]) {
                after == before.update(
                    at,
                    if before[at].codebase_id == Some(codebase) {
                        before[at].triggered(Trigger::Explicit)
                    } else {
                        before[at]
                    },
                )
            } else {
                after == before
            }
        }),
{
    let before = asked(coordinators, keys.take(n), codebase);
    let after = asked(coordinators, keys.take(n + 1), codebase);
    let key = keys[n];
    let at = key_index(before, key) as int;
    lemma_key_index_bounds(before, key);
    assert forall|i: int| 0 <= i < coordinators.len() implies before[i].key == (
    #[trigger] coordinators[i]).key && before[i].codebase_id == coordinators[i].codebase_id by {}
    assert forall|i: int| 0 <= i < coordinators.len() implies keys.take(n + 1).contains(
        (#[trigger] coordinators[i]).key,
    ) == (keys.take(n).contains(coordinators[i].key) || coordinators[i].key == key) by {
        let k = coordinators[i].key;
        if keys.take(n).contains(k) {
            let j = keys.take(n).index_of(k);
            assert(keys.take(n + 1)[j] == k);
        }
        assert(keys.take(n + 1)[n] == key);
        if keys.take(n + 1).contains(k) {
            let j = keys.take(n + 1).index_of(k);
            if j < n {
                assert(keys.take(n)[j] == k);
            }
        }
    }
    assert(!keys.take(n).contains(key)) by {
        if keys.take(n).contains(key) {
            let j = keys.take(n).index_of(key);
            assert(keys[j] == keys[n]);
        }
    }
    if has_key(before, key) {
        assert(coordinators[at].key == key);
        assert forall|i: int| 0 <= i < coordinators.len() && i != at implies (
        #[trigger] coordinators[i]).key != key by {
            if i < at {
                assert(coordinators[i].key != coordinators[at].key);
            } else {
                assert(coordinators[at].key != coordinators[i].key);
            }
        }
        let changed = if before[at].codebase_id == Some(codebase) {
            before[at].triggered(Trigger::Explicit)
        } else {
            before[at]
        };
        assert forall|i: int| 0 <= i < coordinators.len() implies #[trigger] after[i]
            == before.update(at, changed)[i] by {
            assert(coordinators[i].key == coordinators[i].key);
        }
        assert(after =~= before.update(at, changed));
    } else {
        assert forall|i: int| 0 <= i < coordinators.len() implies #[trigger] after[i] == before[i] by {
            assert(before[i].key != key);
            assert(coordinators[i].key != key);
        }
        assert(after =~= before);
    }
}

impl Leases {
    /// Asks every held checkout of a codebase to reconcile now.
    pub fn trigger_sync(&self, registry: &mut CheckoutRegistry, codebase: Option<&str>)
        requires
            old(registry)@.wf(),
            self@.no_duplicates(),
        ensures
            final(registry)@.idle_grace == old(registry)@.idle_grace,
            final(registry)@.coordinators == match codebase {
                Some(id) => asked(old(registry)@.coordinators, self@, id@),
                None => old(registry)@.coordinators,
            },
    {
        let id = match codebase {
            Some(id) => id,
            None => return,
        };
        let ghost start = registry@;
        let mut i: usize = 0;
        assert(asked(start.coordinators, self@.take(0), id@) =~= start.coordinators);
        while i < self.keys.len()
            invariant
                i <= self.keys@.len(),
                start.wf(),
                self@.no_duplicates(),
                registry@.idle_grace == start.idle_grace,
                registry@.coordinators == asked(start.coordinators, self@.take(i as int), id@),
            decreases self.keys@.len() - i,
        {
            proof {
                lemma_asked_next(start.coordinators, self@, id@, i as int);
                assert(self@[i as int] == self.keys@[i as int]@);
                lemma_key_index_bounds(registry@.coordinators, self@[i as int]);
            }
            match registry.coordinator_mut(&self.keys[i]) {
                Some(c) => {
                    let matches = match c.codebase_id() {
                        Some(found) => same(found.as_str(), id),
                        None => false,
                    };
                    if matches {
                        c.trigger(Trigger::Explicit);
                    }
                },
                None => {},
            }
            i = i + 1;
        }
        assert(self@.take(i as int) =~= self@);
    }
}

/// A failed first index of another checkout never answers for a checkout, even
/// where both are of one codebase.
pub proof fn law_a_checkout_waits_for_its_own_first_index(
    keys: Seq<KeyView>,
    coordinators: Seq<CoordinatorView>,
    target: Target,
    root: Seq<char>,
)
    requires
        optional(target.root) == Some(root),
    ensures
        target_answer(keys, coordinators, target) == path_answer(keys, coordinators, root),
        path_answer(keys, coordinators, root) is None ==> (first_held(keys, coordinators, is_at(root)) matches Some(
            c,
        ) && c.gates.len() > 0 && c.gates.last().result is None),
{
}

/// A session waits for the checkouts that it holds and for no others: what it
/// waits for does not depend on a checkout that it does not hold.
pub proof fn law_other_sessions_are_not_waited_for(
    keys: Seq<KeyView>,
    coordinators: Seq<CoordinatorView>,
    other: CoordinatorView,
)
    requires
        !keys.contains(other.key),
    ensures
        held_gates(keys, coordinators.push(other)) == held_gates(keys, coordinators),
    decreases keys.len(),
{
    if keys.len() > 0 {
        let rest = keys.drop_last();
        assert(!rest.contains(other.key)) by {
            if rest.contains(other.key) {
                let i = rest.index_of(other.key);
                assert(keys[i] == other.key);
            }
        }
        law_other_sessions_are_not_waited_for(rest, coordinators, other);
        let key = keys.last();
        assert(keys[keys.len() - 1] == key);
        lemma_key_of_pushed(coordinators, other, key);
    }
}

proof fn lemma_key_of_pushed(coordinators: Seq<CoordinatorView>, other: CoordinatorView, key: KeyView)
    requires
        other.key != key,
    ensures
        has_key(coordinators.push(other), key) == has_key(coordinators, key),
        has_key(coordinators, key) ==> of_key(coordinators.push(other), key) == of_key(
            coordinators,
            key,
        ),
        key_index(coordinators.push(other), key) == if has_key(coordinators, key) {
            key_index(coordinators, key)
        } else {
            coordinators.len() + 1
        },
    decreases coordinators.len(),
{
    lemma_key_index_bounds(coordinators, key);
    lemma_key_index_bounds(coordinators.push(other), key);
    if coordinators.len() > 0 {
        assert(coordinators.push(other)[0] == coordinators[0]);
        assert(coordinators.push(other).drop_first() =~= coordinators.drop_first().push(other));
        lemma_key_of_pushed(coordinators.drop_first(), other, key);
    } else {
        reveal_with_fuel(key_index, 3);
        assert(coordinators.push(other).drop_first() =~= Seq::<CoordinatorView>::empty());
    }
}

/// Of the checkouts that a session holds, in the order in which it took them, the
/// first one that fits is found, and none only where none fits.
pub proof fn law_the_first_fitting_checkout_is_found(
    keys: Seq<KeyView>,
    coordinators: Seq<CoordinatorView>,
    test: spec_fn(CoordinatorView) -> bool,
    at: int,
)
    requires
        0 <= at <= keys.len(),
        forall|k: int|
            0 <= k < at ==> !(has_key(coordinators, #[trigger] keys[k]) && test(
                of_key(coordinators, keys[k]),
            )),
        at < keys.len() ==> has_key(coordinators, keys[at]) && test(of_key(coordinators, keys[at])),
    ensures
        at == keys.len() ==> first_held(keys, coordinators, test) is None,
        at < keys.len() ==> first_held(keys, coordinators, test) == Some(
            of_key(coordinators, keys[at]),
        ),
    decreases at,
{
    if at > 0 {
        let rest = keys.drop_first();
        assert(forall|k: int| 0 <= k < rest.len() ==> #[trigger] rest[k] == keys[k + 1]);
        assert(!(has_key(coordinators, keys[0]) && test(of_key(coordinators, keys[0]))));
        law_the_first_fitting_checkout_is_found(rest, coordinators, test, at - 1);
    }
}

/// What is waited for at a root: the current first index of the checkout there. Where
/// there is no such checkout, or it has no first index, nothing is waited for.
pub proof fn law_what_is_waited_for_at_a_root(
    keys: Seq<KeyView>,
    coordinators: Seq<CoordinatorView>,
    root: Seq<char>,
)
    ensures
        ({
            let held = first_held(keys, coordinators, |c: CoordinatorView| c.key.root == root);
            let answer = path_answer(keys, coordinators, root);
            &&& held is None || held->0.gates.len() == 0 ==> answer == Some(Ok::<(), Seq<char>>(()))
            &&& held is Some && held->0.gates.len() > 0 ==> match held->0.gates.last().result {
                None => answer is None,
                Some(Ok(_)) => answer == Some(Ok::<(), Seq<char>>(())),
                Some(Err(reason)) => answer == Some(
                    Err::<(), Seq<char>>(
                        "initial index failed — "@ + reason
                            + "; call `index_codebase` for this path to retry"@,
                    ),
                ),
            }
        }),
{
    assert(is_at(root) =~= (|c: CoordinatorView| c.key.root == root));
}

/// What is waited for of a codebase: every current first index of the held checkouts
/// that may be of that codebase.
pub proof fn law_what_is_waited_for_of_a_codebase(
    keys: Seq<KeyView>,
    coordinators: Seq<CoordinatorView>,
    codebase: Seq<char>,
    target: Target,
)
    ensures
        ({
            let answer = codebase_answer(keys, coordinators, codebase);
            match gates_answer(held_gates(keys, coordinators), seq![codebase]) {
                Ok(None) => answer == Some(Ok::<(), Seq<char>>(())),
                Ok(Some(_)) => answer is None,
                Err(message) => answer == Some(Err::<(), Seq<char>>(message)),
            }
        }),
        target.root is None && target.codebase is Some ==> target_answer(keys, coordinators, target)
            == codebase_answer(keys, coordinators, target.codebase->0@),
        target.root is None && target.codebase is None ==> target_answer(keys, coordinators, target)
            == Some(Ok::<(), Seq<char>>(())),
{
}

/// The first indexes of a session are the current ones of the checkouts that it
/// holds, one more for each that has one.
pub proof fn law_every_held_checkout_has_its_first_index(
    keys: Seq<KeyView>,
    coordinators: Seq<CoordinatorView>,
    key: KeyView,
)
    ensures
        held_gates(seq![], coordinators).len() == 0,
        has_key(coordinators, key) && of_key(coordinators, key).gates.len() > 0 ==> held_gates(
            keys.push(key),
            coordinators,
        ) == held_gates(keys, coordinators) + seq![
            of_key(coordinators, key).gates[of_key(coordinators, key).gates.len() - 1],
        ],
        !has_key(coordinators, key) || of_key(coordinators, key).gates.len() == 0 ==> held_gates(
            keys.push(key),
            coordinators,
        ) == held_gates(keys, coordinators),
{
    assert(keys.push(key).drop_last() =~= keys);
    assert(keys.push(key).last() == key);
}

/// The status that is shown is that of the checkout at the root, or else of a checkout
/// of the codebase.
pub proof fn law_whose_status_is_shown(
    keys: Seq<KeyView>,
    coordinators: Seq<CoordinatorView>,
    target: Target,
)
    ensures
        ({
            let shown = status_holder(keys, coordinators, target);
            let at_root = first_held(
                keys,
                coordinators,
                |c: CoordinatorView| c.key.root == target.root->0@,
            );
            let of_codebase = first_held(
                keys,
                coordinators,
                |c: CoordinatorView| c.codebase_id == Some(target.codebase->0@),
            );
            &&& target.root is Some && at_root is Some ==> shown == at_root
            &&& (target.root is None || at_root is None) && target.codebase is Some ==> shown
                == of_codebase
            &&& (target.root is None || at_root is None) && target.codebase is None ==> shown is None
        }),
{
    if target.root is Some {
        let root = target.root->0@;
        assert(is_at(root) =~= (|c: CoordinatorView| c.key.root == root));
    }
    if target.codebase is Some {
        let id = target.codebase->0@;
        assert(is_of(id) =~= (|c: CoordinatorView| c.codebase_id == Some(id)));
    }
}

/// A sync that is asked for is queued at every held checkout of the codebase, and
/// nowhere else.
pub proof fn law_a_sync_is_asked_of_its_checkouts(
    coordinators: Seq<CoordinatorView>,
    keys: Seq<KeyView>,
    codebase: Seq<char>,
    i: int,
)
    requires
        0 <= i < coordinators.len(),
    ensures
        ({
            let after = asked(coordinators, keys, codebase)[i];
            let c = coordinators[i];
            let held = keys.contains(c.key) && c.codebase_id == Some(codebase);
            &&& asked(coordinators, keys, codebase).len() == coordinators.len()
            &&& !held ==> after == c
            &&& held && c.triggers.len() < 64 ==> after == (CoordinatorView {
                triggers: c.triggers.push(Trigger::Explicit),
                ..c
            })
            &&& held && c.triggers.len() >= 64 ==> after.sink.overflow && after.triggers
                == c.triggers
        }),
{
}

/// A checkout is held once, behind those that are held; a sync is asked of the held
/// checkouts of its codebase, and of none without one.
pub proof fn law_checkouts_are_held_once(
    leases: &mut Leases,
    key: CheckoutKey,
    kept: bool,
    holder: &Leases,
    registry: &mut CheckoutRegistry,
    codebase: Option<&str>,
)
    requires
        call_ensures(Leases::hold, (leases, key), kept),
        call_ensures(Leases::trigger_sync, (holder, registry, codebase), ()),
    ensures
        kept <==> !old(leases)@.contains(key@),
        kept ==> final(leases)@ == old(leases)@ + seq![key@],
        !kept ==> final(leases)@ == old(leases)@,
        codebase is None ==> final(registry)@.coordinators == old(registry)@.coordinators,
        codebase matches Some(id) ==> final(registry)@.coordinators == asked(
            old(registry)@.coordinators,
            holder@,
            id@,
        ),
{
}

/// The status of a checkout is that of its holder, and what is waited for is what the
/// model says.
pub proof fn law_what_a_session_is_told(
    leases: &Leases,
    registry: &CheckoutRegistry,
    target: &Target,
    status: Option<CoordinatorStatus>,
    ready: FirstIndex,
    codebase: Option<&str>,
    active: bool,
)
    requires
        call_ensures(Leases::checkout_status, (leases, registry, target), status),
        call_ensures(Leases::await_initial_client, (leases, registry, target), ready),
        call_ensures(Leases::watcher_active, (leases, registry, codebase), active),
    ensures
        ({
            let holder = status_holder(leases@, registry@.coordinators, *target);
            &&& status is Some <==> holder is Some
            &&& status matches Some(s) ==> {
                &&& s.root@ == holder->0.key.root
                &&& optional(s.codebase_id) == holder->0.codebase_id
                &&& optional(s.last_job_id) == holder->0.last_job
                &&& s.running == holder->0.running
                &&& optional(s.last_outcome) == holder->0.last_outcome
                &&& optional(s.last_error) == holder->0.last_error
                &&& s.leases == holder->0.leases
                &&& s.pending_triggers == holder->0.triggers.len()
            }
        }),
        match target_answer(leases@, registry@.coordinators, *target) {
            None => ready is Pending,
            Some(Ok(_)) => ready is Ready,
            Some(Err(reason)) => ready matches FirstIndex::Failed(message) && message@ == reason,
        },
        codebase is None ==> !active,
        codebase matches Some(id) ==> active == (first_held(
            leases@,
            registry@.coordinators,
            |c: CoordinatorView| c.codebase_id == Some(id@),
        ) is Some),
{
    if codebase is Some {
        let id = codebase->0@;
        assert(is_of(id) =~= (|c: CoordinatorView| c.codebase_id == Some(id)));
    }
}

} // verus!
