//! The first index of a checkout, from the request to its answer.
//!
//! The outside work is done by the caller: it takes the step that a request
//! asks for and reports what it learned.

use vstd::prelude::*;

use crate::mcp::readiness::{result_view, GateView, IndexResult, InitialIndexGate};
use crate::mcp::selection::{
    canonical_directory, directory_fault, Binding, BindingView, Resolved,
};
use crate::mcp::tools::{unavailable, unavailable_text};
use crate::query::render::slice_text;
use crate::session::{session_path, session_place};
use crate::text::{copy_text, optional};

verus! {

/// What an index request does next.
pub enum IndexStep {
    /// Resolve this path. It is the place that the request names in the session,
    /// never one below the directory of the process.
    Canonicalize(String),
    /// Find the working copy that holds this directory: the whole of it is
    /// indexed.
    WorkingCopy(String),
    /// Look for a first index of this directory.
    Locate(String),
    /// Wait for the first index of this directory, which another request started.
    Join(String),
    /// Ask whether exactly this directory is indexed. An umbrella above it may
    /// serve reads, but indexing the directory asks for a codebase of its own.
    ResolveExact(String),
    /// Keep this codebase in sync in this directory.
    Attach { codebase: String, dir: String },
    /// Publish a first index of this directory and claim its registration. It is
    /// published before the codebase is registered, so that a retrieval call that
    /// comes in between has something to wait for.
    Claim(String),
    /// Register a codebase for this directory.
    Register(String),
    /// Give the first index this codebase, and start its first sync.
    Start { codebase: String, dir: String },
    /// Wait for the first index that was started.
    Await,
    /// Report to the first index that it failed, and answer.
    Abandon { reason: String, answer: String },
    Answer(String),
}

/// A step by what it carries.
pub enum IndexStepView {
    Canonicalize(Seq<char>),
    WorkingCopy(Seq<char>),
    Locate(Seq<char>),
    Join(Seq<char>),
    ResolveExact(Seq<char>),
    Attach { codebase: Seq<char>, dir: Seq<char> },
    Claim(Seq<char>),
    Register(Seq<char>),
    Start { codebase: Seq<char>, dir: Seq<char> },
    Await,
    Abandon { reason: Seq<char>, answer: Seq<char> },
    Answer(Seq<char>),
}

impl View for IndexStep {
    type V = IndexStepView;

    open spec fn view(&self) -> IndexStepView {
        match *self {
            IndexStep::Canonicalize(path) => IndexStepView::Canonicalize(path@),
            IndexStep::WorkingCopy(dir) => IndexStepView::WorkingCopy(dir@),
            IndexStep::Locate(dir) => IndexStepView::Locate(dir@),
            IndexStep::Join(dir) => IndexStepView::Join(dir@),
            IndexStep::ResolveExact(dir) => IndexStepView::ResolveExact(dir@),
            IndexStep::Attach { codebase, dir } => IndexStepView::Attach {
                codebase: codebase@,
                dir: dir@,
            },
            IndexStep::Claim(dir) => IndexStepView::Claim(dir@),
            IndexStep::Register(dir) => IndexStepView::Register(dir@),
            IndexStep::Start { codebase, dir } => IndexStepView::Start {
                codebase: codebase@,
                dir: dir@,
            },
            IndexStep::Await => IndexStepView::Await,
            IndexStep::Abandon { reason, answer } => IndexStepView::Abandon {
                reason: reason@,
                answer: answer@,
            },
            IndexStep::Answer(answer) => IndexStepView::Answer(answer@),
        }
    }
}

/// Whether a first index serves a new request for it: one that runs is shared,
/// one that succeeded is complete, and one that failed has to be tried again.
pub open spec fn gate_serves(gate: Option<GateView>) -> bool {
    gate matches Some(g) && !g.failed()
}

pub fn serves(gate: Option<&InitialIndexGate>) -> (serves: bool)
    ensures
        serves == gate_serves(
            match gate {
                Some(g) => Some(g@),
                None => None,
            },
        ),
{
    match gate {
        Some(g) => match g.outcome() {
            Some(Err(_)) => false,
            _ => true,
        },
        None => false,
    }
}

/// What a request that joined a first index is answered.
pub open spec fn joined_text(dir: Seq<char>, result: Result<(), Seq<char>>) -> Seq<char> {
    match result {
        Ok(_) => "initial indexing complete\npath "@ + dir
            + "\nretrieval tools are now available"@,
        Err(e) => "initial indexing failed for "@ + dir + ": "@ + e,
    }
}

fn joined_answer(dir: &str, result: &IndexResult) -> (answer: String)
    ensures
        answer@ == joined_text(dir@, result_view(*result)),
{
    match result {
        Ok(()) => {
            let mut text = copy_text("initial indexing complete\npath ");
            text.push_str(dir);
            text.push_str("\nretrieval tools are now available");
            text
        },
        Err(e) => {
            let mut text = copy_text("initial indexing failed for ");
            text.push_str(dir);
            text.push_str(": ");
            text.push_str(e.as_str());
            text
        },
    }
}

/// What is answered where an index could not be started.
pub open spec fn not_started_text(dir: Seq<char>, reason: Seq<char>) -> Seq<char> {
    "index_codebase failed for "@ + dir + ": "@ + reason
}

fn not_started(dir: &str, reason: &str) -> (text: String)
    ensures
        text@ == not_started_text(dir@, reason@),
{
    let mut text = copy_text("index_codebase failed for ");
    text.push_str(dir);
    text.push_str(": ");
    text.push_str(reason);
    text
}

/// What is answered where the directory was indexed before.
pub open spec fn attached_text(codebase: Seq<char>, dir: Seq<char>) -> Seq<char> {
    "codebase "@ + codebase
        + " was already indexed; background sync and watching started\npath "@ + dir
}

fn attached_answer(codebase: &str, dir: &str) -> (answer: String)
    ensures
        answer@ == attached_text(codebase@, dir@),
{
    let mut answer = copy_text("codebase ");
    answer.push_str(codebase);
    answer.push_str(" was already indexed; background sync and watching started\npath ");
    answer.push_str(dir);
    answer
}

/// What the caller that started a first index is answered.
pub open spec fn finished_text(
    dir: Seq<char>,
    codebase: Seq<char>,
    result: Result<(), Seq<char>>,
) -> Seq<char> {
    match result {
        Ok(_) => "initial indexing complete\ncodebase "@ + codebase + "\npath "@ + dir
            + "\nretrieval tools are now available"@,
        Err(e) => "initial indexing failed\ncodebase "@ + codebase + "\npath "@ + dir
            + "\nerror: "@ + e,
    }
}

fn finished_answer(dir: &str, codebase: &str, result: &IndexResult) -> (answer: String)
    ensures
        answer@ == finished_text(dir@, codebase@, result_view(*result)),
{
    match result {
        Ok(()) => {
            let mut text = copy_text("initial indexing complete\ncodebase ");
            text.push_str(codebase);
            text.push_str("\npath ");
            text.push_str(dir);
            text.push_str("\nretrieval tools are now available");
            text
        },
        Err(e) => {
            let mut text = copy_text("initial indexing failed\ncodebase ");
            text.push_str(codebase);
            text.push_str("\npath ");
            text.push_str(dir);
            text.push_str("\nerror: ");
            text.push_str(e.as_str());
            text
        },
    }
}

/// What is answered where there is nothing to index.
pub open spec fn no_directory() -> Seq<char> {
    "index_codebase unavailable — no path was provided and the launch directory is unknown"@
}

/// What an index request waits for.
#[derive(Clone, Copy, Debug, PartialEq, Eq, Structural)]
pub enum IndexStage {
    Resolving,
    Lifting,
    Locating,
    Joining,
    LookingUp,
    Attaching,
    Claiming,
    Registering,
    Starting,
    Finishing,
    Over,
}

/// What an index request learned.
pub enum IndexEvent {
    Canonical(Result<Resolved, String>),
    /// The working copy that holds the directory.
    Lifted(String),
    /// Whether there is a first index that serves the request.
    Located(bool),
    /// The codebase of exactly this directory, where it has one.
    LookedUp(Result<Option<String>, String>),
    /// The codebase is kept in sync.
    Attached,
    /// Whether this request claimed the registration.
    Claimed(bool),
    /// The codebase that was registered.
    Registered(Result<String, String>),
    /// Whether the first sync was started.
    Started(Result<(), String>),
    /// How the first index ended.
    Ended(IndexResult),
}

/// One index request.
pub struct IndexRequest {
    stage: IndexStage,
    launch: Option<String>,
    /// The path that was named, then the directory that is indexed.
    dir: String,
    codebase: String,
}

pub struct RequestView {
    pub stage: IndexStage,
    pub launch: Option<Seq<char>>,
    pub dir: Seq<char>,
    pub codebase: Seq<char>,
}

impl View for IndexRequest {
    type V = RequestView;

    closed spec fn view(&self) -> RequestView {
        RequestView {
            stage: self.stage,
            launch: optional(self.launch),
            dir: self.dir@,
            codebase: self.codebase@,
        }
    }
}

/// How a request begins: with the path it names, or with the launch directory.
pub open spec fn first_index_step(
    path: Option<Seq<char>>,
    cwd: Seq<char>,
    launch: Option<Seq<char>>,
) -> (RequestView, IndexStepView) {
    let request = RequestView { stage: IndexStage::Over, launch, dir: seq![], codebase: seq![] };
    match (path, launch) {
        (Some(named), _) => (
            RequestView { stage: IndexStage::Resolving, dir: named, ..request },
            IndexStepView::Canonicalize(session_place(cwd, named)),
        ),
        (None, Some(dir)) => (
            RequestView { stage: IndexStage::Resolving, dir, ..request },
            IndexStepView::Canonicalize(session_place(cwd, dir)),
        ),
        (None, None) => (request, IndexStepView::Answer(no_directory())),
    }
}

/// What a session is bound to once a directory was indexed: its codebase, where
/// it is the launch directory and nothing else was set up front.
pub open spec fn bound_to(
    binding: BindingView,
    launch: Option<Seq<char>>,
    dir: Seq<char>,
    codebase: Seq<char>,
) -> BindingView {
    if binding.pinned is None && launch == Some(dir) {
        BindingView { bound: Some((Some(codebase), Some(dir))), ..binding }
    } else {
        binding
    }
}

/// What follows an event: the request and the session's binding afterwards, and
/// the step that is asked for.
pub open spec fn index_step(request: RequestView, binding: BindingView, event: IndexEvent) -> (
    RequestView,
    BindingView,
    IndexStepView,
) {
    let over = RequestView { stage: IndexStage::Over, ..request };
    let dir = request.dir;
    match (request.stage, event) {
        (IndexStage::Resolving, IndexEvent::Canonical(resolved)) => match directory_fault(
            dir,
            resolved,
        ) {
            Some(message) => (
                over,
                binding,
                IndexStepView::Answer(unavailable_text("index_codebase"@, message)),
            ),
            None => (
                RequestView {
                    stage: IndexStage::Lifting,
                    dir: resolved->Ok_0.path@,
                    ..request
                },
                binding,
                IndexStepView::WorkingCopy(resolved->Ok_0.path@),
            ),
        },
        (IndexStage::Lifting, IndexEvent::Lifted(root)) => (
            RequestView { stage: IndexStage::Locating, dir: root@, ..request },
            binding,
            IndexStepView::Locate(root@),
        ),
        (IndexStage::Locating, IndexEvent::Located(serves)) => if serves {
            (
                RequestView { stage: IndexStage::Joining, ..request },
                binding,
                IndexStepView::Join(dir),
            )
        } else {
            (
                RequestView { stage: IndexStage::LookingUp, ..request },
                binding,
                IndexStepView::ResolveExact(dir),
            )
        },
        (IndexStage::Joining, IndexEvent::Ended(result)) => (
            over,
            binding,
            IndexStepView::Answer(joined_text(dir, result_view(result))),
        ),
        (IndexStage::LookingUp, IndexEvent::LookedUp(reply)) => match reply {
            Ok(Some(id)) => (
                RequestView { stage: IndexStage::Attaching, codebase: id@, ..request },
                bound_to(binding, request.launch, dir, id@),
                IndexStepView::Attach { codebase: id@, dir },
            ),
            Ok(None) => (
                RequestView { stage: IndexStage::Claiming, ..request },
                binding,
                IndexStepView::Claim(dir),
            ),
            Err(e) => (over, binding, IndexStepView::Answer(not_started_text(dir, e@))),
        },
        (IndexStage::Attaching, IndexEvent::Attached) => (
            over,
            binding,
            IndexStepView::Answer(attached_text(request.codebase, dir)),
        ),
        (IndexStage::Claiming, IndexEvent::Claimed(claimed)) => if claimed {
            (
                RequestView { stage: IndexStage::Registering, ..request },
                binding,
                IndexStepView::Register(dir),
            )
        } else {
            (
                RequestView { stage: IndexStage::Joining, ..request },
                binding,
                IndexStepView::Join(dir),
            )
        },
        (IndexStage::Registering, IndexEvent::Registered(reply)) => match reply {
            Ok(id) => (
                RequestView { stage: IndexStage::Starting, codebase: id@, ..request },
                bound_to(binding, request.launch, dir, id@),
                IndexStepView::Start { codebase: id@, dir },
            ),
            Err(e) => (
                over,
                binding,
                IndexStepView::Abandon { reason: e@, answer: not_started_text(dir, e@) },
            ),
        },
        (IndexStage::Starting, IndexEvent::Started(result)) => match result {
            Ok(_) => (
                RequestView { stage: IndexStage::Finishing, ..request },
                binding,
                IndexStepView::Await,
            ),
            Err(e) => (
                over,
                binding,
                IndexStepView::Abandon { reason: e@, answer: not_started_text(dir, e@) },
            ),
        },
        (IndexStage::Finishing, IndexEvent::Ended(result)) => (
            over,
            binding,
            IndexStepView::Answer(finished_text(dir, request.codebase, result_view(result))),
        ),
        _ => (over, binding, IndexStepView::Answer("the index request is out of order"@)),
    }
}

impl IndexRequest {
    /// A request for the path it names, or for the launch directory, in a session
    /// with the working directory `cwd`.
    pub fn new(path: Option<&str>, cwd: &str, launch: Option<&str>) -> (begun: (
        IndexRequest,
        IndexStep,
    ))
        ensures
            (begun.0@, begun.1@) == first_index_step(slice_text(path), cwd@, slice_text(launch)),
    {
        let kept = match launch {
            Some(dir) => Some(copy_text(dir)),
            None => None,
        };
        let mut request = IndexRequest {
            stage: IndexStage::Over,
            launch: kept,
            dir: String::new(),
            codebase: String::new(),
        };
        assert(request@.dir =~= seq![] && request@.codebase =~= seq![]);
        let named = match (path, launch) {
            (Some(path), _) => path,
            (None, Some(dir)) => dir,
            (None, None) => {
                let answer = copy_text(
                    "index_codebase unavailable — no path was provided and the launch directory is unknown",
                );
                return (request, IndexStep::Answer(answer));
            },
        };
        request.stage = IndexStage::Resolving;
        request.dir = copy_text(named);
        (request, IndexStep::Canonicalize(session_path(cwd, named)))
    }

    /// Notes the codebase that the directory has.
    fn found(&mut self, binding: &mut Binding, stage: IndexStage, id: &str)
        ensures
            final(self)@ == (RequestView { stage, codebase: id@, ..old(self)@ }),
            final(binding)@ == bound_to(old(binding)@, old(self)@.launch, old(self)@.dir, id@),
    {
        self.stage = stage;
        self.codebase = copy_text(id);
        let launch = match &self.launch {
            Some(dir) => Some(dir.as_str()),
            None => None,
        };
        binding.bind_indexed(launch, self.dir.as_str(), id);
    }

    /// Takes what the last step learned and gives the next one.
    pub fn step(&mut self, binding: &mut Binding, event: IndexEvent) -> (step: IndexStep)
        ensures
            index_step(old(self)@, old(binding)@, event) == (final(self)@, final(binding)@, step@),
    {
        let stage = self.stage;
        self.stage = IndexStage::Over;
        match (stage, event) {
            (IndexStage::Resolving, IndexEvent::Canonical(resolved)) => match canonical_directory(
                self.dir.as_str(),
                &resolved,
            ) {
                Ok(dir) => {
                    self.stage = IndexStage::Lifting;
                    self.dir = copy_text(dir.as_str());
                    IndexStep::WorkingCopy(dir)
                },
                Err(message) => IndexStep::Answer(
                    unavailable("index_codebase", message.as_str()),
                ),
            },
            (IndexStage::Lifting, IndexEvent::Lifted(root)) => {
                self.stage = IndexStage::Locating;
                self.dir = copy_text(root.as_str());
                IndexStep::Locate(root)
            },
            (IndexStage::Locating, IndexEvent::Located(serves)) => {
                let dir = copy_text(self.dir.as_str());
                if serves {
                    self.stage = IndexStage::Joining;
                    IndexStep::Join(dir)
                } else {
                    self.stage = IndexStage::LookingUp;
                    IndexStep::ResolveExact(dir)
                }
            },
            (IndexStage::Joining, IndexEvent::Ended(result)) => IndexStep::Answer(
                joined_answer(self.dir.as_str(), &result),
            ),
            (IndexStage::LookingUp, IndexEvent::LookedUp(reply)) => match reply {
                Ok(Some(id)) => {
                    self.found(binding, IndexStage::Attaching, id.as_str());
                    IndexStep::Attach { codebase: id, dir: copy_text(self.dir.as_str()) }
                },
                Ok(None) => {
                    self.stage = IndexStage::Claiming;
                    IndexStep::Claim(copy_text(self.dir.as_str()))
                },
                Err(e) => IndexStep::Answer(not_started(self.dir.as_str(), e.as_str())),
            },
            (IndexStage::Attaching, IndexEvent::Attached) => IndexStep::Answer(
                attached_answer(self.codebase.as_str(), self.dir.as_str()),
            ),
            (IndexStage::Claiming, IndexEvent::Claimed(claimed)) => {
                let dir = copy_text(self.dir.as_str());
                if claimed {
                    self.stage = IndexStage::Registering;
                    IndexStep::Register(dir)
                } else {
                    self.stage = IndexStage::Joining;
                    IndexStep::Join(dir)
                }
            },
            (IndexStage::Registering, IndexEvent::Registered(reply)) => match reply {
                Ok(id) => {
                    self.found(binding, IndexStage::Starting, id.as_str());
                    IndexStep::Start { codebase: id, dir: copy_text(self.dir.as_str()) }
                },
                Err(e) => {
                    let answer = not_started(self.dir.as_str(), e.as_str());
                    IndexStep::Abandon { reason: e, answer }
                },
            },
            (IndexStage::Starting, IndexEvent::Started(result)) => match result {
                Ok(()) => {
                    self.stage = IndexStage::Finishing;
                    IndexStep::Await
                },
                Err(e) => {
                    let answer = not_started(self.dir.as_str(), e.as_str());
                    IndexStep::Abandon { reason: e, answer }
                },
            },
            (IndexStage::Finishing, IndexEvent::Ended(result)) => IndexStep::Answer(
                finished_answer(self.dir.as_str(), self.codebase.as_str(), &result),
            ),
            _ => IndexStep::Answer(copy_text("the index request is out of order")),
        }
    }
}

/// A codebase is registered only where exactly this directory has none, and by
/// the one request that claimed it.
pub proof fn law_only_a_claimed_miss_is_registered(
    request: RequestView,
    binding: BindingView,
    event: IndexEvent,
)
    ensures
        index_step(request, binding, event).2 is Register ==> request.stage == IndexStage::Claiming
            && event == IndexEvent::Claimed(true),
        index_step(request, binding, event).0.stage == IndexStage::Claiming ==> request.stage
            == IndexStage::LookingUp && (event matches IndexEvent::LookedUp(Ok(None))),
        index_step(request, binding, event).2 is Start ==> request.stage == IndexStage::Registering,
{
}

/// How far an index request is from its end, at most.
pub open spec fn index_steps_left(stage: IndexStage) -> nat {
    match stage {
        IndexStage::Resolving => 9,
        IndexStage::Lifting => 8,
        IndexStage::Locating => 7,
        IndexStage::LookingUp => 6,
        IndexStage::Claiming => 5,
        IndexStage::Registering => 4,
        IndexStage::Starting => 3,
        IndexStage::Finishing => 2,
        IndexStage::Attaching => 1,
        IndexStage::Joining => 1,
        IndexStage::Over => 0,
    }
}

/// Every index request ends, and it ends with an answer.
pub proof fn law_an_index_request_ends(
    request: RequestView,
    binding: BindingView,
    event: IndexEvent,
)
    requires
        request.stage != IndexStage::Over,
    ensures
        index_steps_left(index_step(request, binding, event).0.stage) < index_steps_left(
            request.stage,
        ),
        index_step(request, binding, event).0.stage == IndexStage::Over <==> (index_step(
            request,
            binding,
            event,
        ).2 is Answer || index_step(request, binding, event).2 is Abandon),
{
}

/// A request whose registration or first sync failed reports the same reason to
/// those that wait for the first index and to its caller.
pub proof fn law_a_failed_start_is_reported(
    request: RequestView,
    binding: BindingView,
    reason: String,
)
    requires
        request.stage == IndexStage::Registering || request.stage == IndexStage::Starting,
    ensures
        ({
            let event = if request.stage == IndexStage::Registering {
                IndexEvent::Registered(Err(reason))
            } else {
                IndexEvent::Started(Err(reason))
            };
            index_step(request, binding, event).2 == (IndexStepView::Abandon {
                reason: reason@,
                answer: not_started_text(request.dir, reason@),
            })
        }),
{
}

/// How the first sync of a checkout ended.
pub enum FirstSync {
    /// It queued this job, which is waited for.
    Queued(String),
    Failed(String),
    /// It ended without saying.
    Lost,
}

/// What the end of the first sync says of the first index: the job that is to be
/// waited for, or why there is none.
pub fn first_sync_result(sync: &FirstSync) -> (job: Result<String, String>)
    ensures
        match sync {
            FirstSync::Queued(id) => job matches Ok(queued) && queued@ == id@,
            FirstSync::Failed(reason) => job matches Err(e) && e@
                == "initial scan/upload failed: "@ + reason@,
            FirstSync::Lost => job matches Err(e) && e@
                == "initial indexing task ended before reporting its result"@,
        },
{
    match sync {
        FirstSync::Queued(id) => Ok(copy_text(id.as_str())),
        FirstSync::Failed(reason) => {
            let mut text = copy_text("initial scan/upload failed: ");
            text.push_str(reason.as_str());
            Err(text)
        },
        FirstSync::Lost => Err(
            copy_text("initial indexing task ended before reporting its result"),
        ),
    }
}

/// An index request for a directory that nobody has indexed resolves it, takes its
/// working copy, registers a codebase for that, starts its first index and waits for
/// its end. The session is bound to it where it is its launch directory and nothing
/// is pinned.
pub proof fn law_a_new_directory_is_indexed(
    path: Option<Seq<char>>,
    cwd: Seq<char>,
    launch: Option<Seq<char>>,
    binding: BindingView,
    found: Resolved,
    root: String,
    id: String,
    reason: String,
)
    requires
        path is Some || launch is Some,
        found.is_directory,
    ensures
        ({
            let named = if path is Some { path->0 } else { launch->0 };
            let begun = first_index_step(path, cwd, launch);
            let canonical = index_step(begun.0, binding, IndexEvent::Canonical(Ok(found)));
            let lifted = index_step(canonical.0, binding, IndexEvent::Lifted(root));
            let located = index_step(lifted.0, binding, IndexEvent::Located(false));
            let unknown = index_step(located.0, binding, IndexEvent::LookedUp(Ok(None)));
            let claimed = index_step(unknown.0, binding, IndexEvent::Claimed(true));
            let registered = index_step(claimed.0, binding, IndexEvent::Registered(Ok(id)));
            let now = registered.1;
            let started = index_step(registered.0, now, IndexEvent::Started(Ok(())));
            let own = binding.pinned is None && launch == Some(root@);
            &&& begun.1 == IndexStepView::Canonicalize(
                if named.len() > 0 && named[0] == '/' {
                    named
                } else {
                    crate::paths::joined(cwd, named)
                },
            )
            &&& canonical.2 == IndexStepView::WorkingCopy(found.path@)
            &&& lifted.2 == IndexStepView::Locate(root@)
            &&& located.2 == IndexStepView::ResolveExact(root@)
            &&& unknown.2 == IndexStepView::Claim(root@)
            &&& claimed.2 == IndexStepView::Register(root@)
            &&& registered.2 == (IndexStepView::Start { codebase: id@, dir: root@ })
            &&& started.2 == IndexStepView::Await
            &&& index_step(started.0, now, IndexEvent::Ended(Ok(()))).2 == IndexStepView::Answer(
                "initial indexing complete\ncodebase "@ + id@ + "\npath "@ + root@
                    + "\nretrieval tools are now available"@,
            )
            &&& index_step(started.0, now, IndexEvent::Ended(Err(reason))).2
                == IndexStepView::Answer(
                "initial indexing failed\ncodebase "@ + id@ + "\npath "@ + root@ + "\nerror: "@
                    + reason@,
            )
            &&& own ==> now == (BindingView {
                pinned: None,
                bound: Some((Some(id@), Some(root@))),
            })
            &&& !own ==> now == binding
            &&& started.1 == now
        }),
{
}

/// An index request for a directory that is indexed keeps it in sync and says so; one
/// for a directory whose first index runs waits for that.
pub proof fn law_a_known_directory_is_not_indexed_again(
    request: RequestView,
    binding: BindingView,
    id: String,
    reason: String,
)
    ensures
        request.stage == IndexStage::LookingUp ==> {
            let known = index_step(request, binding, IndexEvent::LookedUp(Ok(Some(id))));
            let own = binding.pinned is None && request.launch == Some(request.dir);
            &&& known.2 == (IndexStepView::Attach { codebase: id@, dir: request.dir })
            &&& own ==> known.1 == (BindingView {
                pinned: None,
                bound: Some((Some(id@), Some(request.dir))),
            })
            &&& !own ==> known.1 == binding
            &&& index_step(known.0, known.1, IndexEvent::Attached).2 == IndexStepView::Answer(
                "codebase "@ + id@
                    + " was already indexed; background sync and watching started\npath "@
                    + request.dir,
            )
            &&& index_step(request, binding, IndexEvent::LookedUp(Err(reason))).2
                == IndexStepView::Answer(
                "index_codebase failed for "@ + request.dir + ": "@ + reason@,
            )
        },
        request.stage == IndexStage::Locating ==> {
            let joined = index_step(request, binding, IndexEvent::Located(true));
            &&& joined.2 == IndexStepView::Join(request.dir)
            &&& joined.1 == binding
            &&& index_step(joined.0, binding, IndexEvent::Ended(Ok(()))).2 == IndexStepView::Answer(
                "initial indexing complete\npath "@ + request.dir
                    + "\nretrieval tools are now available"@,
            )
            &&& index_step(joined.0, binding, IndexEvent::Ended(Err(reason))).2
                == IndexStepView::Answer(
                "initial indexing failed for "@ + request.dir + ": "@ + reason@,
            )
        },
        request.stage == IndexStage::Claiming ==> index_step(
            request,
            binding,
            IndexEvent::Claimed(false),
        ).2 == IndexStepView::Join(request.dir),
{
}

/// An index request without a directory is answered at once, and one for a path that
/// is no directory says so.
pub proof fn law_an_index_request_needs_a_directory(
    cwd: Seq<char>,
    request: RequestView,
    binding: BindingView,
    found: Resolved,
    reason: String,
)
    ensures
        first_index_step(None, cwd, None).1 == IndexStepView::Answer(
            "index_codebase unavailable — no path was provided and the launch directory is unknown"@,
        ),
        request.stage == IndexStage::Resolving ==> {
            &&& index_step(request, binding, IndexEvent::Canonical(Err(reason))).2
                == IndexStepView::Answer(
                "index_codebase"@ + " unavailable — "@ + ("can't resolve directory "@ + request.dir
                    + ": "@ + reason@),
            )
            &&& !found.is_directory ==> index_step(
                request,
                binding,
                IndexEvent::Canonical(Ok(found)),
            ).2 == IndexStepView::Answer(
                "index_codebase"@ + " unavailable — "@ + (found.path@ + " is not a directory"@),
            )
        },
        not_started_text(request.dir, reason@) == "index_codebase failed for "@ + request.dir
            + ": "@ + reason@,
{
}

/// Every step of an index request is the one of its model, for the request and the
/// binding of its session.
pub proof fn law_an_index_request_goes_by_its_steps(
    request: &mut IndexRequest,
    binding: &mut Binding,
    event: IndexEvent,
    step: IndexStep,
)
    requires
        call_ensures(IndexRequest::step, (request, binding, event), step),
    ensures
        final(request)@ == index_step(old(request)@, old(binding)@, event).0,
        final(binding)@ == index_step(old(request)@, old(binding)@, event).1,
        step@ == index_step(old(request)@, old(binding)@, event).2,
        step matches IndexStep::Answer(answer) ==> step@ == IndexStepView::Answer(answer@),
        step matches IndexStep::Start { codebase, dir } ==> step@ == (IndexStepView::Start {
            codebase: codebase@,
            dir: dir@,
        }),
{
}

/// The first sync of an index hands on its job, or why there is none.
pub proof fn law_how_a_first_sync_is_told(sync: &FirstSync, job: Result<String, String>)
    requires
        call_ensures(first_sync_result, (sync,), job),
    ensures
        sync matches FirstSync::Queued(id) ==> (job matches Ok(queued) && queued@ == id@),
        sync matches FirstSync::Failed(reason) ==> (job matches Err(e) && e@
            == "initial scan/upload failed: "@ + reason@),
        sync is Lost ==> (job matches Err(e) && e@
            == "initial indexing task ended before reporting its result"@),
{
}

} // verus!
