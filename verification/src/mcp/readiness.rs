//! First-index readiness for checkout and cross-codebase retrieval.
//!
//! A first index is owned by the checkout's coordinator, not by a session. A
//! session waits for the first indexes of the checkouts it holds and for no
//! others.

use vstd::prelude::*;

use crate::text::{copy_optional, copy_text, lists, optional, texts};

verus! {

/// How a first index ended.
pub type IndexResult = Result<(), String>;

pub open spec fn result_view(result: IndexResult) -> Result<(), Seq<char>> {
    match result {
        Ok(()) => Ok(()),
        Err(reason) => Err(reason@),
    }
}

pub fn copy_result(result: &IndexResult) -> (copy: IndexResult)
    ensures
        result_view(copy) == result_view(*result),
{
    match result {
        Ok(()) => Ok(()),
        Err(reason) => Err(copy_text(reason.as_str())),
    }
}

/// The state of one first index.
pub struct InitialIndexGate {
    /// Whether a caller has taken responsibility for registering the codebase.
    registering: bool,
    /// Whether a reconcile has taken responsibility for polling the embedding
    /// job.
    polling: bool,
    codebase_id: Option<String>,
    result: Option<IndexResult>,
}

pub struct GateView {
    pub registering: bool,
    pub polling: bool,
    pub codebase_id: Option<Seq<char>>,
    pub result: Option<Result<(), Seq<char>>>,
}

/// What a waiter learns from a gate.
pub enum Waiting<T> {
    /// Nothing yet: wait until this gate changes.
    Pending,
    Ready(T),
}

impl View for InitialIndexGate {
    type V = GateView;

    closed spec fn view(&self) -> GateView {
        GateView {
            registering: self.registering,
            polling: self.polling,
            codebase_id: optional(self.codebase_id),
            result: match self.result {
                Some(result) => Some(result_view(result)),
                None => None,
            },
        }
    }
}

impl GateView {
    /// A first index that nobody has touched.
    pub open spec fn fresh() -> GateView {
        GateView { registering: false, polling: false, codebase_id: None, result: None }
    }

    /// Whether the first index ended in a failure.
    pub open spec fn failed(self) -> bool {
        self.result matches Some(Err(_))
    }

    /// A gate once a result is reported: the first report stands.
    pub open spec fn finished(self, result: Result<(), Seq<char>>) -> GateView {
        if self.result is Some {
            self
        } else {
            GateView { result: Some(result), ..self }
        }
    }

    /// What a query over the codebases `ids` learns: a gate of another codebase
    /// does not concern it, and no ids mean that every gate does.
    pub open spec fn answer(self, ids: Seq<Seq<char>>) -> Option<Result<(), Seq<char>>> {
        if ids.len() > 0 && (self.codebase_id matches Some(id) && !ids.contains(id)) {
            Some(Ok(()))
        } else {
            self.result
        }
    }
}

impl InitialIndexGate {
    pub fn pending() -> (gate: InitialIndexGate)
        ensures
            gate@ == GateView::fresh(),
    {
        InitialIndexGate { registering: false, polling: false, codebase_id: None, result: None }
    }

    /// Names the codebase of this first index.
    pub fn register_codebase(&mut self, id: String)
        ensures
            final(self)@ == (GateView { codebase_id: Some(id@), ..old(self)@ }),
    {
        self.codebase_id = Some(id);
    }

    /// Takes responsibility for registering the codebase: exactly one caller is
    /// answered `true`.
    pub fn claim_registration(&mut self) -> (claimed: bool)
        ensures
            claimed == !old(self)@.registering,
            final(self)@ == (GateView { registering: true, ..old(self)@ }),
    {
        if self.registering {
            return false;
        }
        self.registering = true;
        true
    }

    /// Takes responsibility for polling the embedding job: exactly one
    /// reconcile is answered `true`.
    pub fn claim_poll(&mut self) -> (claimed: bool)
        ensures
            claimed == !old(self)@.polling,
            final(self)@ == (GateView { polling: true, ..old(self)@ }),
    {
        if self.polling {
            return false;
        }
        self.polling = true;
        true
    }

    /// The final result, or `None` while the first index is still running.
    pub fn outcome(&self) -> (outcome: Option<IndexResult>)
        ensures
            match outcome {
                None => self@.result is None,
                Some(result) => self@.result == Some(result_view(result)),
            },
    {
        match &self.result {
            Some(result) => Some(copy_result(result)),
            None => None,
        }
    }

    /// The codebase of this first index, once it has one or has ended without
    /// one.
    pub fn registered_codebase(&self) -> (answer: Waiting<Option<String>>)
        ensures
            match answer {
                Waiting::Pending => self@.codebase_id is None && self@.result is None,
                Waiting::Ready(id) => (self@.codebase_id is Some || self@.result is Some)
                    && optional(id) == self@.codebase_id,
            },
    {
        if self.codebase_id.is_some() || self.result.is_some() {
            Waiting::Ready(copy_optional(&self.codebase_id))
        } else {
            Waiting::Pending
        }
    }

    /// What a query over the codebases `ids` waits for.
    pub fn wait_for_codebases(&self, ids: &Vec<String>) -> (answer: Waiting<IndexResult>)
        ensures
            match answer {
                Waiting::Pending => self@.answer(texts(ids@)) is None,
                Waiting::Ready(result) => self@.answer(texts(ids@)) == Some(result_view(result)),
            },
    {
        if ids.len() > 0 {
            match &self.codebase_id {
                Some(id) => {
                    if !lists(ids, id.as_str()) {
                        return Waiting::Ready(Ok(()));
                    }
                },
                None => {},
            }
        }
        match &self.result {
            Some(result) => Waiting::Ready(copy_result(result)),
            None => Waiting::Pending,
        }
    }

    /// Waits for this first index whatever its codebase.
    pub fn wait(&self) -> (answer: Waiting<IndexResult>)
        ensures
            match answer {
                Waiting::Pending => self@.result is None,
                Waiting::Ready(result) => self@.result == Some(result_view(result)),
            },
    {
        let everything: Vec<String> = Vec::new();
        assert(texts(everything@) =~= Seq::<Seq<char>>::empty());
        self.wait_for_codebases(&everything)
    }

    /// What this gate is now.
    pub fn snapshot(&self) -> (gate: InitialIndexGate)
        ensures
            gate@ == self@,
    {
        let result = match &self.result {
            Some(result) => Some(copy_result(result)),
            None => None,
        };
        InitialIndexGate {
            registering: self.registering,
            polling: self.polling,
            codebase_id: copy_optional(&self.codebase_id),
            result,
        }
    }

    /// Records the outcome, first writer wins.
    pub fn finish(&mut self, result: IndexResult)
        ensures
            final(self)@ == old(self)@.finished(result_view(result)),
    {
        if self.result.is_some() {
            return;
        }
        self.result = Some(result);
    }
}

/// What a retrieval call reports for a failed first index: the reason, and how
/// to recover from it.
pub open spec fn failure_message(reason: Seq<char>) -> Seq<char> {
    "initial index failed — "@ + reason + "; call `index_codebase` for this path to retry"@
}

pub fn initial_index_failed(reason: &str) -> (message: String)
    ensures
        message@ == failure_message(reason@),
{
    let mut message = copy_text("initial index failed — ");
    message.push_str(reason);
    message.push_str("; call `index_codebase` for this path to retry");
    message
}

/// Whether a query may run.
pub enum Readiness {
    /// Wait for what is at this index, then ask again.
    Waiting(usize),
    Failed(String),
    Ready,
}

/// What `gates` answer a query over the codebases `ids`, in order: the first
/// gate that is not ready or that failed decides.
pub open spec fn gates_answer(gates: Seq<GateView>, ids: Seq<Seq<char>>) -> Result<
    Option<int>,
    Seq<char>,
>
    decreases gates.len(),
{
    if gates.len() == 0 {
        Ok(None)
    } else {
        match gates_answer(gates.drop_last(), ids) {
            Ok(None) => match gates.last().answer(ids) {
                None => Ok(Some(gates.len() - 1)),
                Some(Ok(_)) => Ok(None),
                Some(Err(reason)) => Err(failure_message(reason)),
            },
            decided => decided,
        }
    }
}

/// The views of a list of gates.
pub open spec fn gate_views(gates: Seq<InitialIndexGate>) -> Seq<GateView> {
    gates.map_values(|g: InitialIndexGate| g@)
}

/// Waits for every gate that the query's scope can include.
pub fn wait_for_gates(gates: &Vec<InitialIndexGate>, ids: &Vec<String>) -> (readiness: Readiness)
    ensures
        match readiness {
            Readiness::Ready => gates_answer(gate_views(gates@), texts(ids@)) == Ok::<
                Option<int>,
                Seq<char>,
            >(None),
            Readiness::Waiting(i) => gates_answer(gate_views(gates@), texts(ids@)) == Ok::<
                Option<int>,
                Seq<char>,
            >(Some(i as int)),
            Readiness::Failed(message) => gates_answer(gate_views(gates@), texts(ids@)) == Err::<
                Option<int>,
                Seq<char>,
            >(message@),
        },
{
    let ghost views = gate_views(gates@);
    let ghost wanted = texts(ids@);
    let mut i: usize = 0;
    while i < gates.len()
        invariant
            i <= gates@.len(),
            views == gate_views(gates@),
            wanted == texts(ids@),
            gates_answer(views.take(i as int), wanted) == Ok::<Option<int>, Seq<char>>(None),
        decreases gates@.len() - i,
    {
        proof {
            assert(views.take(i + 1).drop_last() =~= views.take(i as int));
            assert(views.take(i + 1).last() == gates@[i as int]@);
        }
        match gates[i].wait_for_codebases(ids) {
            Waiting::Pending => {
                proof {
                    lemma_decided(views, wanted, i + 1);
                }
                return Readiness::Waiting(i);
            },
            Waiting::Ready(result) => match result {
                Ok(()) => {},
                Err(reason) => {
                    proof {
                        lemma_decided(views, wanted, i + 1);
                    }
                    return Readiness::Failed(initial_index_failed(reason.as_str()));
                },
            },
        }
        i = i + 1;
    }
    assert(views.take(i as int) =~= views);
    Readiness::Ready
}

/// Once the first gates decide, the later ones do not matter.
proof fn lemma_decided(gates: Seq<GateView>, ids: Seq<Seq<char>>, n: int)
    requires
        0 <= n <= gates.len(),
        gates_answer(gates.take(n), ids) != Ok::<Option<int>, Seq<char>>(None),
    ensures
        gates_answer(gates, ids) == gates_answer(gates.take(n), ids),
    decreases gates.len() - n,
{
    if n == gates.len() {
        assert(gates.take(n) =~= gates);
    } else {
        assert(gates.take(n + 1).drop_last() =~= gates.take(n));
        lemma_decided(gates, ids, n + 1);
    }
}

/// What a readiness check covered: how many checkouts the session held, and how
/// many of them had a first index to wait for.
#[derive(Clone, Copy, Debug, PartialEq, Eq, Structural)]
pub struct Membership {
    pub checkouts: usize,
    pub gates: usize,
}

impl Membership {
    /// Whether a query may use a check made earlier: a new checkout, or a new
    /// first index on a checkout the session already held, changes what the
    /// query would include.
    pub fn still_covers(&self, current: &Membership) -> (covers: bool)
        ensures
            covers == (*self == *current),
    {
        self.checkouts == current.checkouts && self.gates == current.gates
    }
}

/// A gate is reported once: a later report never changes what an earlier one
/// said, so a succeeded index cannot turn into a failed one.
pub proof fn law_first_report_stands(
    gate: GateView,
    first: Result<(), Seq<char>>,
    later: Result<(), Seq<char>>,
)
    ensures
        gate.finished(first).finished(later) == gate.finished(first),
        gate.finished(first).result is Some,
        gate.result is None ==> gate.finished(first).result == Some(first),
{
}

/// A named scope neither waits for nor fails on a first index of a codebase
/// that it cannot include.
pub proof fn law_unrelated_indexes_are_ignored(gate: GateView, ids: Seq<Seq<char>>, id: Seq<char>)
    requires
        gate.codebase_id == Some(id),
        ids.len() > 0,
        !ids.contains(id),
    ensures
        gate.answer(ids) == Some(Ok::<(), Seq<char>>(())),
{
}

/// A scope that the server defines waits for every first index and fails on
/// every failed one.
pub proof fn law_an_open_scope_waits_for_every_gate(gates: Seq<GateView>, i: int)
    requires
        0 <= i < gates.len(),
        gates_answer(gates, seq![]) == Ok::<Option<int>, Seq<char>>(None),
    ensures
        gates[i].result == Some(Ok::<(), Seq<char>>(())),
    decreases gates.len(),
{
    if i < gates.len() - 1 {
        law_an_open_scope_waits_for_every_gate(gates.drop_last(), i);
    } else {
        match gates[i].answer(seq![]) {
            Some(Ok(done)) => {
                assert(done == ());
            },
            _ => {},
        }
    }
}

/// First indexes are waited for in their order: the first one of those that matter
/// and is not done decides, by being waited for or by its failure. Where every one is
/// done or does not matter, there is nothing to wait for.
pub proof fn law_the_first_unfinished_index_decides(
    gates: Seq<GateView>,
    ids: Seq<Seq<char>>,
    at: int,
)
    requires
        0 <= at <= gates.len(),
        forall|k: int|
            0 <= k < at ==> {
                ||| (#[trigger] gates[k]).result == Some(Ok::<(), Seq<char>>(()))
                ||| ids.len() > 0 && (gates[k].codebase_id matches Some(id) && !ids.contains(id))
            },
        at < gates.len() ==> gates[at].result != Some(Ok::<(), Seq<char>>(())) && (ids.len() == 0
            || gates[at].codebase_id is None || ids.contains(gates[at].codebase_id->0)),
    ensures
        at == gates.len() ==> gates_answer(gates, ids) == Ok::<Option<int>, Seq<char>>(None),
        at < gates.len() && gates[at].result is None ==> gates_answer(gates, ids) == Ok::<
            Option<int>,
            Seq<char>,
        >(Some(at)),
        at < gates.len() && gates[at].result is Some ==> gates_answer(gates, ids) == Err::<
            Option<int>,
            Seq<char>,
        >(
            "initial index failed — "@ + gates[at].result->0->Err_0
                + "; call `index_codebase` for this path to retry"@,
        ),
    decreases gates.len(),
{
    if gates.len() > 0 {
        let fewer = gates.drop_last();
        let last = gates.len() - 1;
        assert(forall|k: int| 0 <= k < fewer.len() ==> #[trigger] fewer[k] == gates[k]);
        law_the_first_unfinished_index_decides(
            fewer,
            ids,
            if at <= fewer.len() {
                at
            } else {
                fewer.len() as int
            },
        );
        assert(gates.last() == gates[last]);
        if at == last && gates[at].result is Some {
            assert(gates[at].result->0 is Err) by {
                if gates[at].result->0 is Ok {
                    assert(gates[at].result->0->Ok_0 == ());
                }
            }
            assert(gates[at].answer(ids) == gates[at].result);
        }
        if at > last {
            assert(gates[last].answer(ids) == Some(Ok::<(), Seq<char>>(())));
        }
    }
}

/// The registration and the polling of a first index are each claimed by the first who
/// asks; its codebase is the one that was registered last.
pub proof fn law_a_claim_is_given_once(
    gate: &mut InitialIndexGate,
    claimed: bool,
    polled: &mut InitialIndexGate,
    polls: bool,
    named: &mut InitialIndexGate,
    id: String,
)
    requires
        call_ensures(InitialIndexGate::claim_registration, (gate,), claimed),
        call_ensures(InitialIndexGate::claim_poll, (polled,), polls),
        call_ensures(InitialIndexGate::register_codebase, (named, id), ()),
    ensures
        claimed <==> !old(gate)@.registering,
        final(gate)@.registering,
        final(gate)@.result == old(gate)@.result && final(gate)@.codebase_id == old(gate)@.codebase_id,
        polls <==> !old(polled)@.polling,
        final(polled)@.polling,
        final(polled)@.result == old(polled)@.result,
        final(named)@.codebase_id == Some(id@),
        final(named)@.result == old(named)@.result,
{
}

/// What is waited for among first indexes is what decides there: the place of the one
/// that goes on, the failure of one that failed, or nothing.
pub proof fn law_waiting_tells_what_decides(
    gates: &Vec<InitialIndexGate>,
    ids: &Vec<String>,
    readiness: Readiness,
)
    requires
        call_ensures(wait_for_gates, (gates, ids), readiness),
    ensures
        match gates_answer(
            Seq::new(gates@.len(), |i: int| gates@[i]@),
            Seq::new(ids@.len(), |i: int| ids@[i]@),
        ) {
            Ok(None) => readiness is Ready,
            Ok(Some(at)) => readiness matches Readiness::Waiting(place) && place == at,
            Err(reason) => readiness matches Readiness::Failed(message) && message@ == reason,
        },
{
    assert(gate_views(gates@) =~= Seq::new(gates@.len(), |i: int| gates@[i]@));
    assert(texts(ids@) =~= Seq::new(ids@.len(), |i: int| ids@[i]@));
}

} // verus!
