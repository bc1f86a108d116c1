//! Which codebase and which checkout a tool call is about.
//!
//! The outside work is done by the caller: it takes the step that a call asks
//! for and reports what it learned.

use vstd::prelude::*;

use crate::mcp::leases::Target;
use crate::query::render::slice_text;
use crate::session::{session_path, session_place};
use crate::text::{
    ascii_lowercase, contains_char, copy_optional, copy_text, lower_ascii, optional, same, trim,
    trimmed,
};

verus! {

/// Whether a selector names a directory rather than a codebase: it looks like a
/// path, or there is a directory of that name below the session's working
/// directory.
pub open spec fn is_path_like(raw: Seq<char>, is_directory: bool) -> bool {
    ||| raw == "."@
    ||| raw == ".."@
    ||| raw.contains('/')
    ||| raw.contains('\\')
    ||| is_directory
}

/// Whether a selector names a directory. `is_directory` says whether there is one
/// at the place that the selector names in the session, which `session_path`
/// gives.
pub fn selector_is_path_like(raw: &str, is_directory: bool) -> (path_like: bool)
    ensures
        path_like == is_path_like(raw@, is_directory),
{
    same(raw, ".") || same(raw, "..") || contains_char(raw, '/') || contains_char(raw, '\\')
        || is_directory
}

/// What a selector means.
pub enum Selection {
    /// The codebase of the session.
    Current,
    /// The codebase that holds a directory.
    Directory(String),
    /// A codebase by its id.
    Codebase(String),
}

impl Selection {
    pub open spec fn means(self, selector: Option<Seq<char>>, is_directory: bool) -> bool {
        match selector {
            Some(raw) if trimmed(raw).len() > 0 => if is_path_like(trimmed(raw), is_directory) {
                self matches Selection::Directory(path) && path@ == trimmed(raw)
            } else {
                self matches Selection::Codebase(id) && id@ == trimmed(raw)
            },
            _ => self is Current,
        }
    }
}

/// What a selector means. `is_directory` says whether the session's working
/// directory holds a directory of its name.
pub fn select(selector: Option<&str>, is_directory: bool) -> (selection: Selection)
    ensures
        selection.means(slice_text(selector), is_directory),
{
    match selector {
        Some(given) => {
            let raw = trim(given);
            if raw.is_empty() {
                Selection::Current
            } else if selector_is_path_like(raw, is_directory) {
                Selection::Directory(copy_text(raw))
            } else {
                Selection::Codebase(copy_text(raw))
            }
        },
        None => Selection::Current,
    }
}

/// Whether a call asks for the copy that the project publishes. Anything else
/// asks for the checkout that the caller looks at.
pub fn wants_canonical(copy: Option<&str>) -> (canonical: bool)
    ensures
        canonical == match slice_text(copy) {
            Some(value) => lower_ascii(trimmed(value)) == "canonical"@,
            None => false,
        },
{
    match copy {
        Some(value) => same(ascii_lowercase(trim(value)).as_str(), "canonical"),
        None => false,
    }
}

/// What a resolved path is.
pub struct Resolved {
    pub path: String,
    pub is_directory: bool,
}

/// Why a path names no directory.
pub open spec fn directory_fault(path: Seq<char>, resolved: Result<Resolved, String>) -> Option<
    Seq<char>,
> {
    match resolved {
        Err(e) => Some("can't resolve directory "@ + path + ": "@ + e@),
        Ok(found) => if found.is_directory {
            None
        } else {
            Some(found.path@ + " is not a directory"@)
        },
    }
}

/// The directory that a path names, once the path was resolved.
pub fn canonical_directory(path: &str, resolved: &Result<Resolved, String>) -> (directory: Result<
    String,
    String,
>)
    ensures
        match directory {
            Ok(dir) => directory_fault(path@, *resolved) is None && (resolved matches Ok(found)
                && dir@ == found.path@),
            Err(message) => directory_fault(path@, *resolved) == Some(message@),
        },
{
    match resolved {
        Err(e) => {
            let mut text = copy_text("can't resolve directory ");
            text.push_str(path);
            text.push_str(": ");
            text.push_str(e.as_str());
            Err(text)
        },
        Ok(found) => {
            if found.is_directory {
                Ok(copy_text(found.path.as_str()))
            } else {
                let mut text = copy_text(found.path.as_str());
                text.push_str(" is not a directory");
                Err(text)
            }
        },
    }
}

/// What a call does next.
pub enum Step {
    /// Wait for the first index at this root, where one runs.
    AwaitPath(String),
    /// Find out whether a login is stored.
    CheckLogin,
    /// Ask for the codebase of the launch directory.
    ResolveLaunch(String),
    /// Resolve this path. It is the place that the selector names in the session,
    /// never one below the directory of the process.
    Canonicalize(String),
    /// Find the working copy that holds this directory.
    WorkingCopy(String),
    /// Ask for the codebase of this directory.
    Resolve(String),
    /// Look for the recorded checkout of a codebase that holds this directory.
    CachedRoot { codebase: String, inside: String },
    /// Ask whether there is such a codebase.
    LookUp(String),
    /// Look for the recorded checkout of this codebase.
    FindRoot(String),
    /// Keep this checkout in sync, where there is one.
    Attach(Target),
    /// Wait for the first index of this, where one runs.
    AwaitTarget(Target),
    /// Use this.
    Use(Target),
    /// Give up.
    Fail(String),
}

/// A codebase and a checkout, as texts.
pub type TargetView = (Option<Seq<char>>, Option<Seq<char>>);

pub open spec fn target_view(target: Target) -> TargetView {
    (optional(target.codebase), optional(target.root))
}

/// A step by what it carries.
pub enum StepView {
    AwaitPath(Seq<char>),
    CheckLogin,
    ResolveLaunch(Seq<char>),
    Canonicalize(Seq<char>),
    WorkingCopy(Seq<char>),
    Resolve(Seq<char>),
    CachedRoot { codebase: Seq<char>, inside: Seq<char> },
    LookUp(Seq<char>),
    FindRoot(Seq<char>),
    Attach(TargetView),
    AwaitTarget(TargetView),
    Use(TargetView),
    Fail(Seq<char>),
}

impl View for Step {
    type V = StepView;

    open spec fn view(&self) -> StepView {
        match *self {
            Step::AwaitPath(path) => StepView::AwaitPath(path@),
            Step::CheckLogin => StepView::CheckLogin,
            Step::ResolveLaunch(path) => StepView::ResolveLaunch(path@),
            Step::Canonicalize(path) => StepView::Canonicalize(path@),
            Step::WorkingCopy(path) => StepView::WorkingCopy(path@),
            Step::Resolve(path) => StepView::Resolve(path@),
            Step::CachedRoot { codebase, inside } => StepView::CachedRoot {
                codebase: codebase@,
                inside: inside@,
            },
            Step::LookUp(id) => StepView::LookUp(id@),
            Step::FindRoot(id) => StepView::FindRoot(id@),
            Step::Attach(target) => StepView::Attach(target_view(target)),
            Step::AwaitTarget(target) => StepView::AwaitTarget(target_view(target)),
            Step::Use(target) => StepView::Use(target_view(target)),
            Step::Fail(reason) => StepView::Fail(reason@),
        }
    }
}

/// What a session is bound to.
pub struct Binding {
    pinned: Option<String>,
    bound: Option<Target>,
}

/// What a session is bound to: a codebase that was set up front, and what was
/// resolved so far.
pub struct BindingView {
    pub pinned: Option<Seq<char>>,
    pub bound: Option<TargetView>,
}

impl View for Binding {
    type V = BindingView;

    closed spec fn view(&self) -> BindingView {
        BindingView {
            pinned: optional(self.pinned),
            bound: match self.bound {
                Some(target) => Some(target_view(target)),
                None => None,
            },
        }
    }
}

impl Binding {
    pub fn new(pinned: Option<String>) -> (binding: Binding)
        ensures
            binding@ == (BindingView { pinned: optional(pinned), bound: None }),
    {
        Binding { pinned, bound: None }
    }

    pub fn is_pinned(&self) -> (pinned: bool)
        ensures
            pinned == self@.pinned is Some,
    {
        self.pinned.is_some()
    }

    /// What the session is bound to, where it is.
    pub fn bound(&self) -> (target: Option<Target>)
        ensures
            match target {
                Some(t) => self@.bound == Some(target_view(t)),
                None => self@.bound is None,
            },
    {
        match &self.bound {
            Some(target) => Some(target.copy()),
            None => None,
        }
    }

    /// Binds the session to a codebase with its recorded checkout.
    pub fn bind(&mut self, codebase: String, root: Option<String>) -> (target: Target)
        ensures
            target_view(target) == (Some(codebase@), optional(root)),
            final(self)@ == (BindingView { bound: Some(target_view(target)), ..old(self)@ }),
    {
        let target = Target { codebase: Some(codebase), root };
        self.bound = Some(target.copy());
        target
    }

    /// Binds the session to a codebase that was just indexed, where it is that
    /// of the launch directory and nothing else was set up front.
    pub fn bind_indexed(&mut self, launch: Option<&str>, dir: &str, codebase: &str) -> (bound: bool)
        ensures
            bound == (old(self)@.pinned is None && slice_text(launch) == Some(dir@)),
            final(self)@ == if bound {
                BindingView { bound: Some((Some(codebase@), Some(dir@))), ..old(self)@ }
            } else {
                old(self)@
            },
    {
        if self.pinned.is_some() {
            return false;
        }
        match launch {
            Some(launch) => {
                if !same(launch, dir) {
                    return false;
                }
            },
            None => return false,
        }
        self.bound = Some(
            Target { codebase: Some(copy_text(codebase)), root: Some(copy_text(dir)) },
        );
        true
    }
}

/// What is said where no login is stored. That has nothing to do with the
/// codebase, so it is said as it is.
pub open spec fn not_logged_in() -> Seq<char> {
    "not logged in — run `semctl auth login`, then just retry (no reconnect needed)"@
}

/// What is said of a launch directory that is not indexed: it is reported and
/// never registered.
pub open spec fn launch_not_indexed(launch: Seq<char>) -> Seq<char> {
    "this folder isn't indexed as a semctl codebase. Do not index it automatically: ask the user to opt in, then call `index_codebase` (path `"@
        + launch
        + "`). You can also pass an already-indexed directory path or codebase ID in any codebase-scoped tool's `codebase` argument"@
}

fn say_launch_not_indexed(launch: &str) -> (text: String)
    ensures
        text@ == launch_not_indexed(launch@),
{
    let mut text = copy_text(
        "this folder isn't indexed as a semctl codebase. Do not index it automatically: ask the user to opt in, then call `index_codebase` (path `",
    );
    text.push_str(launch);
    text.push_str(
        "`). You can also pass an already-indexed directory path or codebase ID in any codebase-scoped tool's `codebase` argument",
    );
    text
}

/// What is said of a directory that is not indexed.
pub open spec fn not_indexed(dir: Seq<char>) -> Seq<char> {
    dir
        + " isn't indexed. Do not index it automatically: ask the user to opt in, then call `index_codebase` with that path"@
}

fn say_not_indexed(dir: &str) -> (text: String)
    ensures
        text@ == not_indexed(dir@),
{
    let mut text = copy_text(dir);
    text.push_str(
        " isn't indexed. Do not index it automatically: ask the user to opt in, then call `index_codebase` with that path",
    );
    text
}

/// What is said of a failed question about a place.
fn unresolved(about: &str, place: &str, before: &str, reason: &str) -> (text: String)
    ensures
        text@ == about@ + place@ + before@ + reason@,
{
    let mut text = copy_text(about);
    text.push_str(place);
    text.push_str(before);
    text.push_str(reason);
    text
}

/// What a call waits for.
#[derive(Clone, Copy, Debug, PartialEq, Eq, Structural)]
pub enum CallStage {
    AwaitingLaunch,
    CheckingLogin,
    ResolvingLaunch,
    /// For the recorded checkout of the session's own codebase.
    FindingOwnRoot,
    Canonicalizing,
    Lifting,
    AwaitingDirectory,
    ResolvingDirectory,
    FindingDirectoryRoot,
    LookingUp,
    /// For the recorded checkout of a codebase that was named by its id.
    FindingRoot,
    Attaching,
    AwaitingTarget,
    Over,
}

/// What a call learned.
pub enum CallEvent {
    /// A first index ended, or there was none.
    Waited(Result<(), String>),
    /// Whether a login is stored.
    Login(Result<bool, String>),
    Canonical(Result<Resolved, String>),
    /// The working copy that holds the directory.
    Lifted(String),
    /// The codebase of a directory, where it has one.
    Resolved(Result<Option<String>, String>),
    /// Whether there is a codebase of that id.
    LookedUp(Result<bool, String>),
    /// The recorded checkout, where there is one.
    Root(Option<String>),
    /// The checkout is kept in sync.
    Attached,
}

/// One call on its way to a codebase and a checkout.
pub struct Call {
    stage: CallStage,
    /// First indexes are waited for. Only status calls do not.
    waits: bool,
    launch: String,
    /// The selector, or the directory that it names.
    place: String,
    codebase: String,
    target: Target,
}

pub struct CallView {
    pub stage: CallStage,
    pub waits: bool,
    pub launch: Seq<char>,
    pub place: Seq<char>,
    pub codebase: Seq<char>,
    pub target: TargetView,
}

impl View for Call {
    type V = CallView;

    closed spec fn view(&self) -> CallView {
        CallView {
            stage: self.stage,
            waits: self.waits,
            launch: self.launch@,
            place: self.place@,
            codebase: self.codebase@,
            target: target_view(self.target),
        }
    }
}

/// How a call goes on with the session's own codebase: what is bound is used, a
/// codebase that was set up front needs no answer from the server, and otherwise
/// a login is needed first.
pub open spec fn own_step(call: CallView, binding: BindingView) -> (CallView, StepView) {
    match (binding.bound, binding.pinned) {
        (Some(bound), _) => use_step(call, bound),
        (None, Some(id)) => (
            CallView { stage: CallStage::FindingOwnRoot, codebase: id, ..call },
            StepView::FindRoot(id),
        ),
        (None, None) => (
            CallView { stage: CallStage::CheckingLogin, ..call },
            StepView::CheckLogin,
        ),
    }
}

/// How a call goes on once it has a target that is kept in sync.
pub open spec fn use_step(call: CallView, target: TargetView) -> (CallView, StepView) {
    if call.waits {
        (
            CallView { stage: CallStage::AwaitingTarget, target, ..call },
            StepView::AwaitTarget(target),
        )
    } else {
        (CallView { stage: CallStage::Over, target, ..call }, StepView::Use(target))
    }
}

/// How a call begins.
pub open spec fn first_step(
    selection: Selection,
    waits: bool,
    cwd: Seq<char>,
    launch: Seq<char>,
    binding: BindingView,
) -> (CallView, StepView) {
    let call = CallView {
        stage: CallStage::Over,
        waits,
        launch,
        place: seq![],
        codebase: seq![],
        target: (None, None),
    };
    match selection {
        Selection::Current => if waits {
            (
                CallView { stage: CallStage::AwaitingLaunch, ..call },
                StepView::AwaitPath(launch),
            )
        } else {
            own_step(call, binding)
        },
        Selection::Directory(path) => (
            CallView { stage: CallStage::Canonicalizing, place: path@, ..call },
            StepView::Canonicalize(session_place(cwd, path@)),
        ),
        Selection::Codebase(id) => (
            CallView { stage: CallStage::LookingUp, place: id@, ..call },
            StepView::LookUp(id@),
        ),
    }
}

/// The checkout that is watched for a directory: the recorded one that holds it,
/// which can be an umbrella above it, and the directory itself where none is
/// recorded.
pub open spec fn directory_root(dir: Seq<char>, recorded: Option<Seq<char>>) -> Seq<char> {
    match recorded {
        Some(root) => root,
        None => dir,
    }
}

/// What follows an event: the call and the binding afterwards, and the step that
/// is asked for.
pub open spec fn call_step(call: CallView, binding: BindingView, event: CallEvent) -> (
    CallView,
    BindingView,
    StepView,
) {
    let over = CallView { stage: CallStage::Over, ..call };
    match (call.stage, event) {
        (CallStage::AwaitingLaunch, CallEvent::Waited(result)) => match result {
            Ok(_) => {
                let (next, step) = own_step(call, binding);
                (next, binding, step)
            },
            Err(e) => (over, binding, StepView::Fail(e@)),
        },
        (CallStage::CheckingLogin, CallEvent::Login(stored)) => match stored {
            Ok(true) => (
                CallView { stage: CallStage::ResolvingLaunch, ..call },
                binding,
                StepView::ResolveLaunch(call.launch),
            ),
            Ok(false) => (over, binding, StepView::Fail(not_logged_in())),
            Err(e) => (
                over,
                binding,
                StepView::Fail("can't read stored credentials: "@ + e@),
            ),
        },
        (CallStage::ResolvingLaunch, CallEvent::Resolved(reply)) => match reply {
            Ok(Some(id)) => (
                CallView { stage: CallStage::FindingOwnRoot, codebase: id@, ..call },
                binding,
                StepView::FindRoot(id@),
            ),
            Ok(None) => (over, binding, StepView::Fail(launch_not_indexed(call.launch))),
            Err(e) => (
                over,
                binding,
                StepView::Fail(
                    "can't reach the semctx server, or it rejected the request: "@ + e@,
                ),
            ),
        },
        (CallStage::FindingOwnRoot, CallEvent::Root(root)) => {
            let target = (Some(call.codebase), optional(root));
            (
                CallView { stage: CallStage::Attaching, target, ..call },
                BindingView { bound: Some(target), ..binding },
                StepView::Attach(target),
            )
        },
        (CallStage::Canonicalizing, CallEvent::Canonical(resolved)) => match directory_fault(
            call.place,
            resolved,
        ) {
            Some(message) => (over, binding, StepView::Fail(message)),
            None => {
                let dir = resolved->Ok_0.path@;
                if call.waits {
                    (
                        CallView { stage: CallStage::Lifting, place: dir, ..call },
                        binding,
                        StepView::WorkingCopy(dir),
                    )
                } else {
                    (
                        CallView { stage: CallStage::ResolvingDirectory, place: dir, ..call },
                        binding,
                        StepView::Resolve(dir),
                    )
                }
            },
        },
        (CallStage::Lifting, CallEvent::Lifted(root)) => (
            CallView { stage: CallStage::AwaitingDirectory, place: root@, ..call },
            binding,
            StepView::AwaitPath(root@),
        ),
        (CallStage::AwaitingDirectory, CallEvent::Waited(result)) => match result {
            Ok(_) => (
                CallView { stage: CallStage::ResolvingDirectory, ..call },
                binding,
                StepView::Resolve(call.place),
            ),
            Err(e) => (over, binding, StepView::Fail(e@)),
        },
        (CallStage::ResolvingDirectory, CallEvent::Resolved(reply)) => match reply {
            Ok(Some(id)) => (
                CallView { stage: CallStage::FindingDirectoryRoot, codebase: id@, ..call },
                binding,
                StepView::CachedRoot { codebase: id@, inside: call.place },
            ),
            Ok(None) => (over, binding, StepView::Fail(not_indexed(call.place))),
            Err(e) => (
                over,
                binding,
                StepView::Fail("can't resolve codebase for "@ + call.place + ": "@ + e@),
            ),
        },
        (CallStage::FindingDirectoryRoot, CallEvent::Root(root)) => {
            let target = (
                Some(call.codebase),
                Some(directory_root(call.place, optional(root))),
            );
            (
                CallView { stage: CallStage::Attaching, target, ..call },
                binding,
                StepView::Attach(target),
            )
        },
        (CallStage::LookingUp, CallEvent::LookedUp(reply)) => match reply {
            Ok(true) => (
                CallView { stage: CallStage::FindingRoot, codebase: call.place, ..call },
                binding,
                StepView::FindRoot(call.place),
            ),
            Ok(false) => (
                over,
                binding,
                StepView::Fail(
                    "codebase id `"@ + call.place + "` was not found or is not accessible"@,
                ),
            ),
            Err(e) => (
                over,
                binding,
                StepView::Fail("can't resolve codebase id `"@ + call.place + "`: "@ + e@),
            ),
        },
        (CallStage::FindingRoot, CallEvent::Root(root)) => {
            let target = (Some(call.codebase), optional(root));
            (
                CallView { stage: CallStage::Attaching, target, ..call },
                binding,
                StepView::Attach(target),
            )
        },
        (CallStage::Attaching, CallEvent::Attached) => {
            let (next, step) = use_step(call, call.target);
            (next, binding, step)
        },
        (CallStage::AwaitingTarget, CallEvent::Waited(result)) => match result {
            Ok(_) => (over, binding, StepView::Use(call.target)),
            Err(e) => (over, binding, StepView::Fail(e@)),
        },
        _ => (over, binding, StepView::Fail("the call is out of order"@)),
    }
}

impl Call {
    /// A call about what a selector means in a session with the working directory
    /// `cwd`. Where it waits, it waits for the first index of its checkout before
    /// it uses it.
    pub fn new(
        selection: &Selection,
        waits: bool,
        cwd: &str,
        launch: &str,
        binding: &Binding,
    ) -> (begun: (Call, Step))
        ensures
            (begun.0@, begun.1@) == first_step(*selection, waits, cwd@, launch@, binding@),
    {
        let mut call = Call {
            stage: CallStage::Over,
            waits,
            launch: copy_text(launch),
            place: String::new(),
            codebase: String::new(),
            target: Target { codebase: None, root: None },
        };
        assert(call@.place =~= seq![] && call@.codebase =~= seq![]);
        match selection {
            Selection::Current => {
                if waits {
                    call.stage = CallStage::AwaitingLaunch;
                    return (call, Step::AwaitPath(copy_text(launch)));
                }
                let step = call.own(binding);
                (call, step)
            },
            Selection::Directory(path) => {
                call.stage = CallStage::Canonicalizing;
                call.place = copy_text(path.as_str());
                (call, Step::Canonicalize(session_path(cwd, path.as_str())))
            },
            Selection::Codebase(id) => {
                call.stage = CallStage::LookingUp;
                call.place = copy_text(id.as_str());
                (call, Step::LookUp(copy_text(id.as_str())))
            },
        }
    }

    fn own(&mut self, binding: &Binding) -> (step: Step)
        ensures
            own_step(old(self)@, binding@) == (final(self)@, step@),
    {
        match (&binding.bound, &binding.pinned) {
            (Some(bound), _) => self.settle(bound.copy()),
            (None, Some(id)) => {
                self.stage = CallStage::FindingOwnRoot;
                self.codebase = copy_text(id.as_str());
                Step::FindRoot(copy_text(id.as_str()))
            },
            (None, None) => {
                self.stage = CallStage::CheckingLogin;
                Step::CheckLogin
            },
        }
    }

    fn settle(&mut self, target: Target) -> (step: Step)
        ensures
            use_step(old(self)@, target_view(target)) == (final(self)@, step@),
    {
        self.target = target.copy();
        if self.waits {
            self.stage = CallStage::AwaitingTarget;
            Step::AwaitTarget(target)
        } else {
            self.stage = CallStage::Over;
            Step::Use(target)
        }
    }

    fn attach(&mut self, root: Option<String>) -> (step: Step)
        ensures
            final(self)@ == (CallView {
                stage: CallStage::Attaching,
                target: (Some(old(self)@.codebase), optional(root)),
                ..old(self)@
            }),
            step@ == StepView::Attach((Some(old(self)@.codebase), optional(root))),
    {
        self.stage = CallStage::Attaching;
        let target = Target { codebase: Some(copy_text(self.codebase.as_str())), root };
        self.target = target.copy();
        Step::Attach(target)
    }

    /// Takes what the last step learned and gives the next one.
    pub fn step(&mut self, binding: &mut Binding, event: CallEvent) -> (step: Step)
        ensures
            call_step(old(self)@, old(binding)@, event) == (final(self)@, final(binding)@, step@),
    {
        let stage = self.stage;
        self.stage = CallStage::Over;
        match (stage, event) {
            (CallStage::AwaitingLaunch, CallEvent::Waited(result)) => match result {
                Ok(()) => self.own(binding),
                Err(e) => Step::Fail(e),
            },
            (CallStage::CheckingLogin, CallEvent::Login(stored)) => match stored {
                Ok(true) => {
                    self.stage = CallStage::ResolvingLaunch;
                    Step::ResolveLaunch(copy_text(self.launch.as_str()))
                },
                Ok(false) => Step::Fail(
                    copy_text(
                        "not logged in — run `semctl auth login`, then just retry (no reconnect needed)",
                    ),
                ),
                Err(e) => {
                    let mut text = copy_text("can't read stored credentials: ");
                    text.push_str(e.as_str());
                    Step::Fail(text)
                },
            },
            (CallStage::ResolvingLaunch, CallEvent::Resolved(reply)) => match reply {
                Ok(Some(id)) => {
                    self.stage = CallStage::FindingOwnRoot;
                    self.codebase = copy_text(id.as_str());
                    Step::FindRoot(id)
                },
                Ok(None) => Step::Fail(say_launch_not_indexed(self.launch.as_str())),
                Err(e) => {
                    let mut text = copy_text(
                        "can't reach the semctx server, or it rejected the request: ",
                    );
                    text.push_str(e.as_str());
                    Step::Fail(text)
                },
            },
            (CallStage::FindingOwnRoot, CallEvent::Root(root)) => {
                let kept = copy_optional(&root);
                binding.bind(copy_text(self.codebase.as_str()), kept);
                self.attach(root)
            },
            (CallStage::Canonicalizing, CallEvent::Canonical(resolved)) => match canonical_directory(
                self.place.as_str(),
                &resolved,
            ) {
                Ok(dir) => {
                    self.place = copy_text(dir.as_str());
                    if self.waits {
                        self.stage = CallStage::Lifting;
                        Step::WorkingCopy(dir)
                    } else {
                        self.stage = CallStage::ResolvingDirectory;
                        Step::Resolve(dir)
                    }
                },
                Err(message) => Step::Fail(message),
            },
            (CallStage::Lifting, CallEvent::Lifted(root)) => {
                self.stage = CallStage::AwaitingDirectory;
                self.place = copy_text(root.as_str());
                Step::AwaitPath(root)
            },
            (CallStage::AwaitingDirectory, CallEvent::Waited(result)) => match result {
                Ok(()) => {
                    self.stage = CallStage::ResolvingDirectory;
                    Step::Resolve(copy_text(self.place.as_str()))
                },
                Err(e) => Step::Fail(e),
            },
            (CallStage::ResolvingDirectory, CallEvent::Resolved(reply)) => match reply {
                Ok(Some(id)) => {
                    self.stage = CallStage::FindingDirectoryRoot;
                    self.codebase = copy_text(id.as_str());
                    Step::CachedRoot { codebase: id, inside: copy_text(self.place.as_str()) }
                },
                Ok(None) => Step::Fail(say_not_indexed(self.place.as_str())),
                Err(e) => Step::Fail(
                    unresolved(
                        "can't resolve codebase for ",
                        self.place.as_str(),
                        ": ",
                        e.as_str(),
                    ),
                ),
            },
            (CallStage::FindingDirectoryRoot, CallEvent::Root(root)) => {
                let root = match root {
                    Some(recorded) => recorded,
                    None => copy_text(self.place.as_str()),
                };
                self.attach(Some(root))
            },
            (CallStage::LookingUp, CallEvent::LookedUp(reply)) => match reply {
                Ok(true) => {
                    self.stage = CallStage::FindingRoot;
                    self.codebase = copy_text(self.place.as_str());
                    Step::FindRoot(copy_text(self.place.as_str()))
                },
                Ok(false) => {
                    let mut text = copy_text("codebase id `");
                    text.push_str(self.place.as_str());
                    text.push_str("` was not found or is not accessible");
                    Step::Fail(text)
                },
                Err(e) => Step::Fail(
                    unresolved(
                        "can't resolve codebase id `",
                        self.place.as_str(),
                        "`: ",
                        e.as_str(),
                    ),
                ),
            },
            (CallStage::FindingRoot, CallEvent::Root(root)) => self.attach(root),
            (CallStage::Attaching, CallEvent::Attached) => {
                let target = self.target.copy();
                self.settle(target)
            },
            (CallStage::AwaitingTarget, CallEvent::Waited(result)) => match result {
                Ok(()) => Step::Use(self.target.copy()),
                Err(e) => Step::Fail(e),
            },
            _ => Step::Fail(copy_text("the call is out of order")),
        }
    }
}

/// The checkout that is kept in sync for a target: its own root, once it has a
/// codebase.
pub fn watched_root(target: &Target) -> (root: Option<String>)
    ensures
        optional(root) == if target.codebase is Some {
            optional(target.root)
        } else {
            None
        },
{
    if target.codebase.is_some() {
        copy_optional(&target.root)
    } else {
        None
    }
}

/// A codebase that was set up front is never taken for that of the launch
/// directory: a call about the session's own codebase does not ask for the
/// launch directory's, whether or not it waits first.
pub proof fn law_a_pinned_session_ignores_its_launch_directory(
    call: CallView,
    binding: BindingView,
    event: CallEvent,
)
    requires
        binding.pinned is Some,
        call.stage == CallStage::AwaitingLaunch,
    ensures
        !(own_step(call, binding).1 is CheckLogin),
        !(call_step(call, binding, event).2 is CheckLogin),
        !(call_step(call, binding, event).2 is ResolveLaunch),
{
}

/// A call that waits uses nothing before the first index of what it uses has
/// ended well, and one whose first index failed reports that.
pub proof fn law_a_waiting_call_uses_nothing_unfinished(
    call: CallView,
    binding: BindingView,
    event: CallEvent,
)
    requires
        call.waits,
    ensures
        call_step(call, binding, event).2 is Use ==> call.stage == CallStage::AwaitingTarget
            && (event matches CallEvent::Waited(Ok(_))),
        call.stage == CallStage::AwaitingTarget ==> (event matches CallEvent::Waited(Err(e))
            ==> call_step(call, binding, event).2 == StepView::Fail(e@)),
        call_step(call, binding, event).0.waits,
{
}

/// How far a call is from its end, at most.
pub open spec fn steps_left(stage: CallStage) -> nat {
    match stage {
        CallStage::Canonicalizing => 8,
        CallStage::Lifting => 7,
        CallStage::AwaitingDirectory => 6,
        CallStage::AwaitingLaunch => 6,
        CallStage::CheckingLogin => 5,
        CallStage::ResolvingDirectory => 4,
        CallStage::ResolvingLaunch => 4,
        CallStage::LookingUp => 4,
        CallStage::FindingDirectoryRoot => 3,
        CallStage::FindingOwnRoot => 3,
        CallStage::FindingRoot => 3,
        CallStage::Attaching => 2,
        CallStage::AwaitingTarget => 1,
        CallStage::Over => 0,
    }
}

/// Every call ends: each step brings it closer to its end, and it ends with a
/// target or with a reason.
pub proof fn law_a_call_ends(call: CallView, binding: BindingView, event: CallEvent)
    requires
        call.stage != CallStage::Over,
    ensures
        steps_left(call_step(call, binding, event).0.stage) < steps_left(call.stage),
        call_step(call, binding, event).0.stage == CallStage::Over <==> (call_step(
            call,
            binding,
            event,
        ).2 is Use || call_step(call, binding, event).2 is Fail),
{
}

/// What a selector stands for: nothing or white space for the codebase of the
/// session; what looks like a path or is a directory for that directory; and
/// anything else for the codebase of that id. White space around it is dropped.
pub proof fn law_what_a_selector_stands_for(
    selection: Selection,
    raw: Seq<char>,
    is_directory: bool,
)
    ensures
        selection.means(None, is_directory) ==> selection is Current,
        selection.means(Some(raw), is_directory) ==> {
            let name = trimmed(raw);
            let place = name == "."@ || name == ".."@ || name.contains('/') || name.contains('\\')
                || is_directory;
            &&& name.len() == 0 ==> selection is Current
            &&& name.len() > 0 && place ==> (selection matches Selection::Directory(path) && path@
                == name)
            &&& name.len() > 0 && !place ==> (selection matches Selection::Codebase(id) && id@
                == name)
        },
{
}

/// A directory that is indexed is used with the codebase that it belongs to, and with
/// its recorded checkout or else the directory itself. A call that waits goes by the
/// working copy, and waits for its first index, before and after. The session stays
/// bound as it is.
pub proof fn law_a_named_directory_is_used(
    path: String,
    cwd: Seq<char>,
    launch: Seq<char>,
    binding: BindingView,
    found: Resolved,
    lifted: String,
    id: String,
    recorded: Option<String>,
    waits: bool,
)
    requires
        found.is_directory,
    ensures
        ({
            let begun = first_step(Selection::Directory(path), waits, cwd, launch, binding);
            let canonical = call_step(begun.0, binding, CallEvent::Canonical(Ok(found)));
            let up = call_step(canonical.0, binding, CallEvent::Lifted(lifted));
            let waited = call_step(up.0, binding, CallEvent::Waited(Ok(())));
            let asked = if waits { waited } else { canonical };
            let dir = if waits { lifted@ } else { found.path@ };
            let resolved = call_step(asked.0, binding, CallEvent::Resolved(Ok(Some(id))));
            let rooted = call_step(resolved.0, binding, CallEvent::Root(recorded));
            let target = (
                Some(id@),
                Some(match recorded {
                    Some(root) => root@,
                    None => dir,
                }),
            );
            let attached = call_step(rooted.0, binding, CallEvent::Attached);
            let last = call_step(attached.0, binding, CallEvent::Waited(Ok(())));
            &&& begun.1 == StepView::Canonicalize(
                if path@.len() > 0 && path@[0] == '/' {
                    path@
                } else {
                    crate::paths::joined(cwd, path@)
                },
            )
            &&& waits ==> canonical.2 == StepView::WorkingCopy(found.path@)
            &&& waits ==> up.2 == StepView::AwaitPath(lifted@)
            &&& asked.2 == StepView::Resolve(dir)
            &&& resolved.2 == (StepView::CachedRoot { codebase: id@, inside: dir })
            &&& rooted.2 == StepView::Attach(target)
            &&& waits ==> attached.2 == StepView::AwaitTarget(target)
            &&& waits ==> last.2 == StepView::Use(target)
            &&& !waits ==> attached.2 == StepView::Use(target)
            &&& attached.1 == binding && rooted.1 == binding
        }),
{
}

/// A codebase that is named by its id is looked up, and used with its recorded
/// checkout where there is one. The session stays bound as it is.
pub proof fn law_a_named_codebase_is_used(
    id: String,
    cwd: Seq<char>,
    launch: Seq<char>,
    binding: BindingView,
    recorded: Option<String>,
    waits: bool,
)
    ensures
        ({
            let begun = first_step(Selection::Codebase(id), waits, cwd, launch, binding);
            let found = call_step(begun.0, binding, CallEvent::LookedUp(Ok(true)));
            let rooted = call_step(found.0, binding, CallEvent::Root(recorded));
            let target = (
                Some(id@),
                match recorded {
                    Some(root) => Some(root@),
                    None => None,
                },
            );
            let attached = call_step(rooted.0, binding, CallEvent::Attached);
            let last = call_step(attached.0, binding, CallEvent::Waited(Ok(())));
            &&& begun.1 == StepView::LookUp(id@)
            &&& found.2 == StepView::FindRoot(id@)
            &&& rooted.2 == StepView::Attach(target)
            &&& waits ==> attached.2 == StepView::AwaitTarget(target)
            &&& waits ==> last.2 == StepView::Use(target)
            &&& !waits ==> attached.2 == StepView::Use(target)
            &&& attached.1 == binding && rooted.1 == binding
            &&& call_step(begun.0, binding, CallEvent::LookedUp(Ok(false))).2 == StepView::Fail(
                "codebase id `"@ + id@ + "` was not found or is not accessible"@,
            )
        }),
{
}

/// The codebase of the session: the one it is bound to; or the pinned one; or that of
/// the launch directory, for a user who is logged in. The last two are bound with
/// their recorded checkout, so that the next call uses them at once.
pub proof fn law_the_codebase_of_the_session_is_used(
    cwd: Seq<char>,
    launch: Seq<char>,
    binding: BindingView,
    id: String,
    recorded: Option<String>,
    waits: bool,
)
    ensures
        ({
            let begun = first_step(Selection::Current, waits, cwd, launch, binding);
            let own = call_step(begun.0, binding, CallEvent::Waited(Ok(())));
            let (call, step) = if waits { (own.0, own.2) } else { begun };
            let root = match recorded {
                Some(root) => Some(root@),
                None => None,
            };
            &&& waits ==> begun.1 == StepView::AwaitPath(launch)
            &&& binding.bound matches Some(bound) ==> step == if waits {
                StepView::AwaitTarget(bound)
            } else {
                StepView::Use(bound)
            }
            &&& binding.bound is None && binding.pinned is Some ==> {
                let target = (Some(binding.pinned->0), root);
                let rooted = call_step(call, binding, CallEvent::Root(recorded));
                &&& step == StepView::FindRoot(binding.pinned->0)
                &&& rooted.2 == StepView::Attach(target)
                &&& rooted.1 == (BindingView { pinned: binding.pinned, bound: Some(target) })
            }
            &&& binding.bound is None && binding.pinned is None ==> {
                let target = (Some(id@), root);
                let known = call_step(call, binding, CallEvent::Login(Ok(true)));
                let named = call_step(known.0, binding, CallEvent::Resolved(Ok(Some(id))));
                let rooted = call_step(named.0, binding, CallEvent::Root(recorded));
                &&& step == StepView::CheckLogin
                &&& known.2 == StepView::ResolveLaunch(launch)
                &&& named.2 == StepView::FindRoot(id@)
                &&& rooted.2 == StepView::Attach(target)
                &&& rooted.1 == (BindingView { pinned: None, bound: Some(target) })
                &&& call_step(call, binding, CallEvent::Login(Ok(false))).2 == StepView::Fail(
                    "not logged in — run `semctl auth login`, then just retry (no reconnect needed)"@,
                )
                &&& call_step(known.0, binding, CallEvent::Resolved(Ok(None))).2 == StepView::Fail(
                    "this folder isn't indexed as a semctl codebase. Do not index it automatically: ask the user to opt in, then call `index_codebase` (path `"@
                        + launch
                        + "`). You can also pass an already-indexed directory path or codebase ID in any codebase-scoped tool's `codebase` argument"@,
                )
            }
        }),
{
}

/// A call fails with a reason that names the place: a directory that cannot be
/// resolved, is none or is not indexed, and a server that does not answer.
pub proof fn law_a_failed_call_says_why(
    call: CallView,
    binding: BindingView,
    found: Resolved,
    reason: String,
)
    ensures
        call.stage == CallStage::Canonicalizing ==> {
            &&& call_step(call, binding, CallEvent::Canonical(Err(reason))).2 == StepView::Fail(
                "can't resolve directory "@ + call.place + ": "@ + reason@,
            )
            &&& !found.is_directory ==> call_step(call, binding, CallEvent::Canonical(Ok(found))).2
                == StepView::Fail(found.path@ + " is not a directory"@)
        },
        call.stage == CallStage::ResolvingDirectory ==> {
            &&& call_step(call, binding, CallEvent::Resolved(Ok(None))).2 == StepView::Fail(
                call.place
                    + " isn't indexed. Do not index it automatically: ask the user to opt in, then call `index_codebase` with that path"@,
            )
            &&& call_step(call, binding, CallEvent::Resolved(Err(reason))).2 == StepView::Fail(
                "can't resolve codebase for "@ + call.place + ": "@ + reason@,
            )
        },
        call.stage == CallStage::LookingUp ==> call_step(
            call,
            binding,
            CallEvent::LookedUp(Err(reason)),
        ).2 == StepView::Fail("can't resolve codebase id `"@ + call.place + "`: "@ + reason@),
        call.stage == CallStage::CheckingLogin ==> call_step(
            call,
            binding,
            CallEvent::Login(Err(reason)),
        ).2 == StepView::Fail("can't read stored credentials: "@ + reason@),
        call.stage == CallStage::ResolvingLaunch ==> call_step(
            call,
            binding,
            CallEvent::Resolved(Err(reason)),
        ).2 == StepView::Fail(
            "can't reach the semctx server, or it rejected the request: "@ + reason@,
        ),
        call.stage == CallStage::AwaitingLaunch || call.stage == CallStage::AwaitingDirectory
            || call.stage == CallStage::AwaitingTarget ==> call_step(
            call,
            binding,
            CallEvent::Waited(Err(reason)),
        ).2 == StepView::Fail(reason@),
{
}

/// Every step of a call is the one of its model, for the call and the binding of its
/// session.
pub proof fn law_a_call_goes_by_its_steps(
    call: &mut Call,
    binding: &mut Binding,
    event: CallEvent,
    step: Step,
    selector: Option<&str>,
    is_directory: bool,
    selection: Selection,
)
    requires
        call_ensures(Call::step, (call, binding, event), step),
        call_ensures(select, (selector, is_directory), selection),
    ensures
        final(call)@ == call_step(old(call)@, old(binding)@, event).0,
        final(binding)@ == call_step(old(call)@, old(binding)@, event).1,
        step@ == call_step(old(call)@, old(binding)@, event).2,
        selection.means(slice_text(selector), is_directory),
        step matches Step::Use(target) ==> step@ == StepView::Use(
            (optional(target.codebase), optional(target.root)),
        ),
        step matches Step::Fail(reason) ==> step@ == StepView::Fail(reason@),
{
}

} // verus!
