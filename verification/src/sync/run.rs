//! The course of one sync, from a directory to a queued index job.
//!
//! The outside work is done by the caller: it performs the action that a run
//! asks for and reports how it went.

use vstd::prelude::*;

use crate::sync::{SyncOutcome, SyncProgress};
use crate::text::{copy_text, optional, same, texts};

verus! {

/// What the server answers to a manifest.
pub struct SyncPlan {
    /// Where the checkout belongs, where the server says so.
    pub codebase_id: Option<String>,
    pub job_id: String,
    /// Paths whose content the server needs.
    pub need_content: Vec<String>,
    pub to_delete: usize,
}

/// What a run asks for.
pub enum SyncAction {
    /// Find the root of the working copy that holds the directory. A manifest is
    /// complete desired state, so it always covers the whole working copy.
    LiftRoot,
    /// Find or register the codebase of this root.
    EnsureCodebase { root: String },
    /// Identify the local checkout.
    IdentifySource { root: String },
    /// Scan the checkout.
    Scan { root: String, source_id: String },
    /// Verify that the rules are still those the scan used. The manifest has so
    /// many files, of which so many were known before.
    VerifyPolicy { files: usize, cached_files: usize },
    /// Send the manifest to this endpoint.
    SendManifest { url: String },
    /// Upload what the server needs; where the checkout moved to another
    /// codebase, record that first.
    Upload {
        url: String,
        codebase_id: String,
        moved: bool,
        source_id: String,
        need_content: Vec<String>,
    },
    Done(SyncOutcome),
    Fail(String),
}

/// How the last action went.
pub enum SyncEvent {
    Lifted { root: String },
    Ensured(Result<String, String>),
    Identified(Result<String, String>),
    Scanned(Result<(usize, usize), String>),
    Verified(Result<(), String>),
    Planned(Result<SyncPlan, String>),
    Uploaded(Result<usize, String>),
}

/// What a run waits for.
#[derive(Clone, Copy, Debug, PartialEq, Eq, Structural)]
pub enum Stage {
    Lifting,
    Ensuring,
    Identifying,
    Scanning,
    Verifying,
    Planning,
    Uploading,
    Over,
}

/// One sync in progress.
pub struct SyncRun {
    stage: Stage,
    root: String,
    codebase_id: Option<String>,
    source_id: String,
    job_id: String,
    to_delete: usize,
}

pub struct RunView {
    pub stage: Stage,
    pub root: Seq<char>,
    pub codebase_id: Option<Seq<char>>,
    pub source_id: Seq<char>,
    pub job_id: Seq<char>,
    pub to_delete: nat,
}

impl View for SyncRun {
    type V = RunView;

    closed spec fn view(&self) -> RunView {
        RunView {
            stage: self.stage,
            root: self.root@,
            codebase_id: optional(self.codebase_id),
            source_id: self.source_id@,
            job_id: self.job_id@,
            to_delete: self.to_delete as nat,
        }
    }
}

/// An action by what it carries.
pub enum ActionView {
    LiftRoot,
    EnsureCodebase(Seq<char>),
    IdentifySource(Seq<char>),
    Scan(Seq<char>, Seq<char>),
    VerifyPolicy { files: nat, cached_files: nat },
    SendManifest(Seq<char>),
    Upload {
        url: Seq<char>,
        codebase_id: Seq<char>,
        moved: bool,
        source_id: Seq<char>,
        need_content: Seq<Seq<char>>,
    },
    Done { codebase_id: Seq<char>, job_id: Seq<char>, uploaded: nat, to_delete: nat },
    Fail(Seq<char>),
}

impl View for SyncAction {
    type V = ActionView;

    open spec fn view(&self) -> ActionView {
        match *self {
            SyncAction::LiftRoot => ActionView::LiftRoot,
            SyncAction::EnsureCodebase { root } => ActionView::EnsureCodebase(root@),
            SyncAction::IdentifySource { root } => ActionView::IdentifySource(root@),
            SyncAction::Scan { root, source_id } => ActionView::Scan(root@, source_id@),
            SyncAction::VerifyPolicy { files, cached_files } => ActionView::VerifyPolicy {
                files: files as nat,
                cached_files: cached_files as nat,
            },
            SyncAction::SendManifest { url } => ActionView::SendManifest(url@),
            SyncAction::Upload { url, codebase_id, moved, source_id, need_content } =>
            ActionView::Upload {
                url: url@,
                codebase_id: codebase_id@,
                moved,
                source_id: source_id@,
                need_content: texts(need_content@),
            },
            SyncAction::Done(outcome) => ActionView::Done {
                codebase_id: outcome.codebase_id@,
                job_id: outcome.job_id@,
                uploaded: outcome.uploaded as nat,
                to_delete: outcome.to_delete as nat,
            },
            SyncAction::Fail(reason) => ActionView::Fail(reason@),
        }
    }
}

/// The endpoint that takes a codebase's manifest.
pub open spec fn manifest_url(codebase_id: Seq<char>) -> Seq<char> {
    "/v1/codebases/"@ + codebase_id + "/sync"@
}

/// The endpoint that takes the content of a job.
pub open spec fn upload_url(codebase_id: Seq<char>, job_id: Seq<char>) -> Seq<char> {
    "/v1/codebases/"@ + codebase_id + "/sync/"@ + job_id
}

fn upload_endpoint(codebase_id: &str, job_id: &str) -> (url: String)
    ensures
        url@ == upload_url(codebase_id@, job_id@),
{
    let mut url = copy_text("/v1/codebases/");
    url.push_str(codebase_id);
    url.push_str("/sync/");
    url.push_str(job_id);
    url
}

/// Where the checkout belongs once the server has answered: the server can move
/// a checkout, and everything after that is about where it is now.
pub open spec fn settled_codebase(current: Seq<char>, planned: Option<Seq<char>>) -> Seq<char> {
    match planned {
        Some(moved) => moved,
        None => current,
    }
}

/// What follows an event: the run afterwards, and the action it asks for.
pub open spec fn run_step(run: RunView, event: SyncEvent) -> (RunView, ActionView) {
    let over = RunView { stage: Stage::Over, ..run };
    match (run.stage, event) {
        (Stage::Lifting, SyncEvent::Lifted { root }) => match run.codebase_id {
            Some(_) => (
                RunView { stage: Stage::Identifying, root: root@, ..run },
                ActionView::IdentifySource(root@),
            ),
            None => (
                RunView { stage: Stage::Ensuring, root: root@, ..run },
                ActionView::EnsureCodebase(root@),
            ),
        },
        (Stage::Ensuring, SyncEvent::Ensured(result)) => match result {
            Ok(id) => (
                RunView { stage: Stage::Identifying, codebase_id: Some(id@), ..run },
                ActionView::IdentifySource(run.root),
            ),
            Err(reason) => (over, ActionView::Fail("register codebase: "@ + reason@)),
        },
        (Stage::Identifying, SyncEvent::Identified(result)) => match result {
            Ok(id) => (
                RunView { stage: Stage::Scanning, source_id: id@, ..run },
                ActionView::Scan(run.root, id@),
            ),
            Err(reason) => (over, ActionView::Fail("identify local checkout: "@ + reason@)),
        },
        (Stage::Scanning, SyncEvent::Scanned(result)) => match result {
            Ok((files, cached_files)) => (
                RunView { stage: Stage::Verifying, ..run },
                ActionView::VerifyPolicy {
                    files: files as nat,
                    cached_files: cached_files as nat,
                },
            ),
            Err(reason) => (over, ActionView::Fail("scan checkout: "@ + reason@)),
        },
        (Stage::Verifying, SyncEvent::Verified(result)) => match (result, run.codebase_id) {
            (Ok(_), Some(id)) => (
                RunView { stage: Stage::Planning, ..run },
                ActionView::SendManifest(manifest_url(id)),
            ),
            (Ok(_), None) => (over, ActionView::Fail("the sync has no codebase"@)),
            (Err(reason), _) => (
                over,
                ActionView::Fail("validate source policy before sync: "@ + reason@),
            ),
        },
        (Stage::Planning, SyncEvent::Planned(result)) => match (result, run.codebase_id) {
            (Ok(plan), Some(id)) => {
                let now = settled_codebase(id, optional(plan.codebase_id));
                (
                    RunView {
                        stage: Stage::Uploading,
                        codebase_id: Some(now),
                        job_id: plan.job_id@,
                        to_delete: plan.to_delete as nat,
                        ..run
                    },
                    ActionView::Upload {
                        url: upload_url(now, plan.job_id@),
                        codebase_id: now,
                        moved: now != id,
                        source_id: run.source_id,
                        need_content: texts(plan.need_content@),
                    },
                )
            },
            (Ok(_), None) => (over, ActionView::Fail("the sync has no codebase"@)),
            (Err(reason), _) => (over, ActionView::Fail("sync plan: "@ + reason@)),
        },
        (Stage::Uploading, SyncEvent::Uploaded(result)) => match (result, run.codebase_id) {
            (Ok(count), Some(id)) => (
                over,
                ActionView::Done {
                    codebase_id: id,
                    job_id: run.job_id,
                    uploaded: count as nat,
                    to_delete: run.to_delete,
                },
            ),
            (Ok(_), None) => (over, ActionView::Fail("the sync has no codebase"@)),
            (Err(reason), _) => (over, ActionView::Fail(reason@)),
        },
        _ => (over, ActionView::Fail("the sync is out of order"@)),
    }
}

/// Fails with a reason behind what was being done.
fn failed(context: &str, reason: &str) -> (action: SyncAction)
    ensures
        action@ == ActionView::Fail(context@ + reason@),
{
    let mut text = copy_text(context);
    text.push_str(reason);
    SyncAction::Fail(text)
}

impl SyncRun {
    /// A run that indexes into `codebase_id`, where one was named up front. It
    /// first asks for [`SyncAction::LiftRoot`].
    pub fn new(codebase_id: Option<String>) -> (run: SyncRun)
        ensures
            run@ == (RunView {
                stage: Stage::Lifting,
                root: seq![],
                codebase_id: optional(codebase_id),
                source_id: seq![],
                job_id: seq![],
                to_delete: 0,
            }),
    {
        let run = SyncRun {
            stage: Stage::Lifting,
            root: String::new(),
            codebase_id,
            source_id: String::new(),
            job_id: String::new(),
            to_delete: 0,
        };
        assert(run@.root =~= seq![] && run@.source_id =~= seq![] && run@.job_id =~= seq![]);
        run
    }

    /// Takes the result of the last action and gives the next one.
    pub fn step(&mut self, event: SyncEvent) -> (action: SyncAction)
        ensures
            run_step(old(self)@, event) == (final(self)@, action@),
    {
        let stage = self.stage;
        self.stage = Stage::Over;
        match (stage, event) {
            (Stage::Lifting, SyncEvent::Lifted { root }) => {
                self.root = copy_text(root.as_str());
                if self.codebase_id.is_some() {
                    self.stage = Stage::Identifying;
                    SyncAction::IdentifySource { root }
                } else {
                    self.stage = Stage::Ensuring;
                    SyncAction::EnsureCodebase { root }
                }
            },
            (Stage::Ensuring, SyncEvent::Ensured(result)) => match result {
                Ok(id) => {
                    self.codebase_id = Some(id);
                    self.stage = Stage::Identifying;
                    SyncAction::IdentifySource { root: copy_text(self.root.as_str()) }
                },
                Err(reason) => failed("register codebase: ", reason.as_str()),
            },
            (Stage::Identifying, SyncEvent::Identified(result)) => match result {
                Ok(id) => {
                    self.source_id = copy_text(id.as_str());
                    self.stage = Stage::Scanning;
                    SyncAction::Scan { root: copy_text(self.root.as_str()), source_id: id }
                },
                Err(reason) => failed("identify local checkout: ", reason.as_str()),
            },
            (Stage::Scanning, SyncEvent::Scanned(result)) => match result {
                Ok((files, cached_files)) => {
                    self.stage = Stage::Verifying;
                    SyncAction::VerifyPolicy { files, cached_files }
                },
                Err(reason) => failed("scan checkout: ", reason.as_str()),
            },
            (Stage::Verifying, SyncEvent::Verified(result)) => match (result, &self.codebase_id) {
                (Ok(()), Some(id)) => {
                    let mut url = copy_text("/v1/codebases/");
                    url.push_str(id.as_str());
                    url.push_str("/sync");
                    self.stage = Stage::Planning;
                    SyncAction::SendManifest { url }
                },
                (Ok(()), None) => SyncAction::Fail(copy_text("the sync has no codebase")),
                (Err(reason), _) => failed(
                    "validate source policy before sync: ",
                    reason.as_str(),
                ),
            },
            (Stage::Planning, SyncEvent::Planned(result)) => match (result, &self.codebase_id) {
                (Ok(plan), Some(id)) => {
                    let now = match &plan.codebase_id {
                        Some(moved) => copy_text(moved.as_str()),
                        None => copy_text(id.as_str()),
                    };
                    let moved = !same(now.as_str(), id.as_str());
                    self.codebase_id = Some(copy_text(now.as_str()));
                    self.job_id = copy_text(plan.job_id.as_str());
                    self.to_delete = plan.to_delete;
                    self.stage = Stage::Uploading;
                    SyncAction::Upload {
                        url: upload_endpoint(now.as_str(), plan.job_id.as_str()),
                        codebase_id: now,
                        moved,
                        source_id: copy_text(self.source_id.as_str()),
                        need_content: plan.need_content,
                    }
                },
                (Ok(_), None) => SyncAction::Fail(copy_text("the sync has no codebase")),
                (Err(reason), _) => failed("sync plan: ", reason.as_str()),
            },
            (Stage::Uploading, SyncEvent::Uploaded(result)) => match (result, &self.codebase_id) {
                (Ok(count), Some(id)) => SyncAction::Done(
                    SyncOutcome {
                        codebase_id: copy_text(id.as_str()),
                        job_id: copy_text(self.job_id.as_str()),
                        uploaded: count,
                        to_delete: self.to_delete,
                    },
                ),
                (Ok(_), None) => SyncAction::Fail(copy_text("the sync has no codebase")),
                (Err(reason), _) => SyncAction::Fail(reason),
            },
            _ => SyncAction::Fail(copy_text("the sync is out of order")),
        }
    }
}

/// The milestone that an action begins, where it begins one.
pub fn milestone(action: &SyncAction) -> (progress: Option<SyncProgress>)
    ensures
        match action {
            SyncAction::LiftRoot => progress == Some(SyncProgress::Preparing),
            SyncAction::Scan { root, source_id: _ } => progress matches Some(
                SyncProgress::Scanning { root: shown },
            ) && shown@ == root@,
            SyncAction::VerifyPolicy { files, cached_files } => progress == Some(
                SyncProgress::Planning { files: *files, cached_files: *cached_files },
            ),
            _ => progress is None,
        },
{
    match action {
        SyncAction::LiftRoot => Some(SyncProgress::Preparing),
        SyncAction::Scan { root, source_id: _ } => Some(
            SyncProgress::Scanning { root: copy_text(root.as_str()) },
        ),
        SyncAction::VerifyPolicy { files, cached_files } => Some(
            SyncProgress::Planning { files: *files, cached_files: *cached_files },
        ),
        _ => None,
    }
}

/// Whether a run has a codebase wherever it needs one.
pub open spec fn run_is_valid(run: RunView) -> bool {
    match run.stage {
        Stage::Identifying => run.codebase_id is Some,
        Stage::Scanning => run.codebase_id is Some,
        Stage::Verifying => run.codebase_id is Some,
        Stage::Planning => run.codebase_id is Some,
        Stage::Uploading => run.codebase_id is Some,
        _ => true,
    }
}

/// A run never lacks its codebase, and nothing is uploaded before the policy was
/// verified and the server has answered.
pub proof fn law_runs_keep_their_codebase(run: RunView, event: SyncEvent)
    requires
        run_is_valid(run),
    ensures
        run_is_valid(run_step(run, event).0),
        run_step(run, event).1 is Upload ==> run.stage == Stage::Planning,
        run_step(run, event).1 is SendManifest ==> run.stage == Stage::Verifying && (
        event matches SyncEvent::Verified(Ok(_))),
        run_step(run, event).1 is Done ==> run.stage == Stage::Uploading,
{
}

/// How far a run is from its end, at most.
pub open spec fn run_steps_left(stage: Stage) -> nat {
    match stage {
        Stage::Lifting => 7,
        Stage::Ensuring => 6,
        Stage::Identifying => 5,
        Stage::Scanning => 4,
        Stage::Verifying => 3,
        Stage::Planning => 2,
        Stage::Uploading => 1,
        Stage::Over => 0,
    }
}

/// Every sync ends, with an outcome or with a reason.
pub proof fn law_a_sync_ends(run: RunView, event: SyncEvent)
    requires
        run.stage != Stage::Over,
    ensures
        run_steps_left(run_step(run, event).0.stage) < run_steps_left(run.stage),
        run_step(run, event).0.stage == Stage::Over <==> (run_step(run, event).1 is Done
            || run_step(run, event).1 is Fail),
{
}

/// What a sync reports is about where the checkout is now: the codebase of its
/// uploads is the one that the server settled on.
pub proof fn law_a_moved_checkout_uploads_to_its_new_codebase(
    run: RunView,
    plan: SyncPlan,
    moved: String,
)
    requires
        run.stage == Stage::Planning,
        run.codebase_id is Some,
        plan.codebase_id == Some(moved),
    ensures
        run_step(run, SyncEvent::Planned(Ok(plan))).1 == (ActionView::Upload {
            url: upload_url(moved@, plan.job_id@),
            codebase_id: moved@,
            moved: moved@ != run.codebase_id->0,
            source_id: run.source_id,
            need_content: texts(plan.need_content@),
        }),
        run_step(run, SyncEvent::Planned(Ok(plan))).0.codebase_id == Some(moved@),
{
}

/// A sync whose steps all succeed lifts its root, registers the checkout where its
/// codebase is not known, and then identifies, scans, verifies, sends the manifest
/// and uploads, each for that root and codebase. It ends with the codebase and the
/// job of the plan and with what was uploaded and is to be deleted.
pub proof fn law_a_sync_takes_its_steps_in_order(
    known: Option<Seq<char>>,
    root: String,
    registered: String,
    source_id: String,
    files: usize,
    cached_files: usize,
    plan: SyncPlan,
    count: usize,
)
    ensures
        ({
            let start = RunView {
                stage: Stage::Lifting,
                root: seq![],
                codebase_id: known,
                source_id: seq![],
                job_id: seq![],
                to_delete: 0,
            };
            let lifted = run_step(start, SyncEvent::Lifted { root });
            let ensured = if known is Some {
                lifted
            } else {
                run_step(lifted.0, SyncEvent::Ensured(Ok(registered)))
            };
            let identified = run_step(ensured.0, SyncEvent::Identified(Ok(source_id)));
            let scanned = run_step(identified.0, SyncEvent::Scanned(Ok((files, cached_files))));
            let verified = run_step(scanned.0, SyncEvent::Verified(Ok(())));
            let planned = run_step(verified.0, SyncEvent::Planned(Ok(plan)));
            let uploaded = run_step(planned.0, SyncEvent::Uploaded(Ok(count)));
            let first = if known is Some { known->0 } else { registered@ };
            let settled = match plan.codebase_id {
                Some(moved) => moved@,
                None => first,
            };
            &&& known is None ==> lifted.1 == ActionView::EnsureCodebase(root@)
            &&& ensured.1 == ActionView::IdentifySource(root@)
            &&& identified.1 == ActionView::Scan(root@, source_id@)
            &&& scanned.1 == (ActionView::VerifyPolicy {
                files: files as nat,
                cached_files: cached_files as nat,
            })
            &&& verified.1 == ActionView::SendManifest("/v1/codebases/"@ + first + "/sync"@)
            &&& planned.1 == (ActionView::Upload {
                url: "/v1/codebases/"@ + settled + "/sync/"@ + plan.job_id@,
                codebase_id: settled,
                moved: settled != first,
                source_id: source_id@,
                need_content: Seq::new(
                    plan.need_content@.len(),
                    |i: int| plan.need_content@[i]@,
                ),
            })
            &&& uploaded.1 == (ActionView::Done {
                codebase_id: settled,
                job_id: plan.job_id@,
                uploaded: count as nat,
                to_delete: plan.to_delete as nat,
            })
        }),
{
    assert(texts(plan.need_content@) =~= Seq::new(
        plan.need_content@.len(),
        |i: int| plan.need_content@[i]@,
    ));
}

/// A step that fails ends the sync, with a reason that says which step it was.
pub proof fn law_a_failed_step_ends_the_sync(run: RunView, reason: String)
    requires
        run_is_valid(run),
    ensures
        run.stage == Stage::Ensuring ==> run_step(run, SyncEvent::Ensured(Err(reason))).1
            == ActionView::Fail("register codebase: "@ + reason@),
        run.stage == Stage::Identifying ==> run_step(run, SyncEvent::Identified(Err(reason))).1
            == ActionView::Fail("identify local checkout: "@ + reason@),
        run.stage == Stage::Scanning ==> run_step(run, SyncEvent::Scanned(Err(reason))).1
            == ActionView::Fail("scan checkout: "@ + reason@),
        run.stage == Stage::Verifying ==> run_step(run, SyncEvent::Verified(Err(reason))).1
            == ActionView::Fail("validate source policy before sync: "@ + reason@),
        run.stage == Stage::Planning ==> run_step(run, SyncEvent::Planned(Err(reason))).1
            == ActionView::Fail("sync plan: "@ + reason@),
        run.stage == Stage::Uploading ==> run_step(run, SyncEvent::Uploaded(Err(reason))).1
            == ActionView::Fail(reason@),
{
}

/// Every step of a sync is the one of its model, and its end says the codebase, the
/// job and the numbers that the model says.
pub proof fn law_a_sync_goes_by_its_steps(run: &mut SyncRun, event: SyncEvent, action: SyncAction)
    requires
        call_ensures(SyncRun::step, (run, event), action),
    ensures
        final(run)@ == run_step(old(run)@, event).0,
        action@ == run_step(old(run)@, event).1,
        action matches SyncAction::Done(outcome) ==> action@ == (ActionView::Done {
            codebase_id: outcome.codebase_id@,
            job_id: outcome.job_id@,
            uploaded: outcome.uploaded as nat,
            to_delete: outcome.to_delete as nat,
        }),
        action matches SyncAction::SendManifest { url } ==> action@ == ActionView::SendManifest(
            url@,
        ),
        action matches SyncAction::Scan { root, source_id } ==> action@ == ActionView::Scan(
            root@,
            source_id@,
        ),
        action matches SyncAction::Fail(reason) ==> action@ == ActionView::Fail(reason@),
{
}

/// Progress is told when a sync begins, when it scans and when it plans.
pub proof fn law_when_progress_is_told(action: &SyncAction, progress: Option<SyncProgress>)
    requires
        call_ensures(milestone, (action,), progress),
    ensures
        action is LiftRoot ==> progress == Some(SyncProgress::Preparing),
        action matches SyncAction::Scan { root, source_id } ==> (progress matches Some(
            SyncProgress::Scanning { root: shown },
        ) && shown@ == root@),
        action matches SyncAction::VerifyPolicy { files, cached_files } ==> progress == Some(
            SyncProgress::Planning { files: *files, cached_files: *cached_files },
        ),
        !(action is LiftRoot) && !(action is Scan) && !(action is VerifyPolicy) ==> progress is None,
{
}

} // verus!
