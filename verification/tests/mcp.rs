use std::path::Path;

use semctl::api::{JobStatus, SymbolTargetRequest};
use semctl::engine::coordinator::{Coordinator, Trigger, Turn};
use semctl::engine::registry::{CheckoutKey, CheckoutRegistry};
use semctl::mcp::freshness::{Freshness, FreshnessStep};
use semctl::mcp::indexing::{
    first_sync_result, serves, FirstSync, IndexEvent, IndexRequest, IndexStep,
};
use semctl::mcp::leases::{FirstIndex, Leases, Target};
use semctl::mcp::readiness::{
    initial_index_failed, wait_for_gates, InitialIndexGate, Readiness, Waiting,
};
use semctl::mcp::selection::{
    select, selector_is_path_like, wants_canonical, watched_root, Binding, Call, CallEvent,
    Resolved, Selection, Step,
};
use semctl::mcp::steering::{backticked_idents, missing_from, phantom_tools, registered_tools};
use semctl::mcp::tool_types::{
    edit_action, pattern_needs_regex, AppliedFile, ApplyOutcome, GrepArgs, ReadSourceArgs,
    RenameSymbolArgs, SearchArgs,
};
use semctl::mcp::tools::{
    annotations, insert_tool, tool_doc, unavailable, with_notes, UpdateNote, DIRECT_EDIT_TOOLS,
};
use semctl::session::credentials::CredentialSource;
use semctl::session::session_path;
use semctl::sync::SyncOutcome;

fn key(root: &str) -> CheckoutKey {
    CheckoutKey {
        server_url: "https://example.invalid".to_string(),
        tenant: None,
        credential_scope: CredentialSource::Stored.scope(),
        root: root.to_string(),
    }
}

/// One session on an engine that several sessions can share.
struct Session {
    leases: Leases,
}

impl Session {
    fn new() -> Session {
        Session { leases: Leases::new() }
    }

    fn attach(&mut self, engine: &mut CheckoutRegistry, codebase: &str, root: &str) {
        let key = key(root);
        if !engine.attach(&key) {
            let made = Coordinator::new(
                key.copy(),
                Some(codebase.to_string()),
                Err("no such directory".to_string()),
                false,
                Some(0),
            );
            assert!(engine.publish(made).is_none());
        }
        if !self.leases.hold(key.copy()) {
            engine.release(&key, 0);
        }
    }

    fn first_index(&mut self, engine: &mut CheckoutRegistry, codebase: &str, root: &str) -> usize {
        self.attach(engine, codebase, root);
        engine.first_index_gate(&key(root)).expect("the checkout is attached")
    }

    fn ready(&self, engine: &CheckoutRegistry, ids: &[&str]) -> Readiness {
        let ids: Vec<String> = ids.iter().map(|id| id.to_string()).collect();
        wait_for_gates(&self.leases.gates(engine), &ids)
    }
}

fn register(engine: &mut CheckoutRegistry, root: &str, gate: usize, codebase: &str) {
    let held = engine.coordinator_mut(&key(root)).expect("attached");
    held.register_codebase(gate, codebase.to_string());
}

fn finish(engine: &mut CheckoutRegistry, root: &str, gate: usize, result: Result<(), String>) {
    let held = engine.coordinator_mut(&key(root)).expect("attached");
    held.finish(gate, result);
}

#[test]
fn first_index_gate_blocks_until_embedding_is_ready() {
    let mut gate = InitialIndexGate::pending();
    assert!(
        matches!(gate.wait(), Waiting::Pending),
        "a pending first index must block retrieval"
    );
    gate.finish(Ok(()));
    assert!(matches!(gate.wait(), Waiting::Ready(Ok(()))));
}

#[test]
fn one_run_claims_the_gate_poll_and_the_first_result_stands() {
    let mut gate = InitialIndexGate::pending();
    assert!(gate.claim_poll(), "the first run polls this gate");
    assert!(!gate.claim_poll(), "a second run must not start a second poll");
    gate.finish(Ok(()));
    gate.finish(Err("a later run failed".into()));
    assert!(matches!(gate.wait(), Waiting::Ready(Ok(()))));
}

#[test]
fn first_index_gate_propagates_failure() {
    let mut gate = InitialIndexGate::pending();
    gate.finish(Err("embedding failed".into()));
    assert!(matches!(gate.wait(), Waiting::Ready(Err(e)) if e == "embedding failed"));
}

#[test]
fn scoped_readiness_allows_registration_and_holds_new_indexes_out() {
    let mut engine = CheckoutRegistry::new(0);
    let mut session = Session::new();
    let gate = session.first_index(&mut engine, "codebase", "/checkout");
    let before = session.leases.membership(&engine);
    assert!(matches!(session.ready(&engine, &["A"]), Readiness::Waiting(_)));
    register(&mut engine, "/checkout", gate, "A");
    finish(&mut engine, "/checkout", gate, Ok(()));
    assert!(matches!(session.ready(&engine, &["A"]), Readiness::Ready));
    assert!(before.still_covers(&session.leases.membership(&engine)));
    session.attach(&mut engine, "B", "/other");
    assert!(!before.still_covers(&session.leases.membership(&engine)));
}

#[test]
fn a_second_sessions_startup_bind_does_not_wait_for_another_first_index() {
    let mut engine = CheckoutRegistry::new(0);
    let mut first = Session::new();
    first.first_index(&mut engine, "codebase", "/shared-checkout");
    let mut second = Session::new();
    second.attach(&mut engine, "codebase", "/shared-checkout");
    let mut binding = Binding::new(Some("codebase".to_string()));
    let (mut call, step) = Call::new(&Selection::Current, false, "/shared-checkout", "/shared-checkout", &binding);
    assert!(
        matches!(step, Step::FindRoot(id) if id == "codebase"),
        "the startup bind must not wait"
    );
    let root = Some("/shared-checkout".to_string());
    assert!(matches!(call.step(&mut binding, CallEvent::Root(root)), Step::Attach(_)));
    assert!(matches!(call.step(&mut binding, CallEvent::Attached), Step::Use(_)));
    let target = Target {
        codebase: Some("codebase".to_string()),
        root: Some("/shared-checkout".to_string()),
    };
    assert!(
        matches!(second.leases.await_initial_client(&engine, &target), FirstIndex::Pending),
        "a retrieval call still waits for the first index"
    );
}

#[test]
fn a_failed_first_index_reports_how_to_retry() {
    let message = initial_index_failed("embedding job 7 failed");
    assert!(message.contains("embedding job 7 failed"), "{message}");
    assert!(
        message.contains("call `index_codebase` for this path to retry"),
        "{message}"
    );
}

#[test]
fn a_relative_selector_is_a_path_under_the_session_directory() {
    let session_dir = tempfile::tempdir().expect("temporary session directory");
    let _checkout = tempfile::Builder::new()
        .prefix("sub")
        .rand_bytes(0)
        .tempdir_in(session_dir.path())
        .expect("create the checkout");
    let elsewhere = tempfile::tempdir().expect("another session directory");
    let path_like = |cwd: &Path, raw: &str| {
        let place = session_path(cwd.to_str().expect("a temporary path"), raw);
        selector_is_path_like(raw, Path::new(&place).is_dir())
    };

    assert!(path_like(session_dir.path(), "sub"));
    assert!(
        !path_like(elsewhere.path(), "sub"),
        "another session's directory holds no such checkout"
    );
    assert!(!path_like(session_dir.path(), "codebase-id"));
    for raw in [".", "..", "a/b", "/absolute"] {
        assert!(path_like(elsewhere.path(), raw), "{raw}");
    }
}

#[test]
fn a_relative_path_is_resolved_in_its_session() {
    assert_eq!(session_path("/work", "sub"), "/work/sub");
    assert_eq!(session_path("/", "sub"), "/sub");
    assert_eq!(session_path("/work", "../other"), "/work/../other");
    assert_eq!(session_path("/work", "/absolute"), "/absolute");
    let binding = Binding::new(None);
    let directory = select(Some("a/b"), false);
    let (mut call, step) = Call::new(&directory, false, "/work", "/launch", &binding);
    assert!(matches!(step, Step::Canonicalize(path) if path == "/work/a/b"));
    let mut binding = binding;
    let step = call.step(&mut binding, CallEvent::Canonical(Err("no such file".into())));
    assert!(matches!(step, Step::Fail(reason) if reason
        == "can't resolve directory a/b: no such file"));
    let (_, step) = IndexRequest::new(Some("sub"), "/work", Some("/launch"));
    assert!(matches!(step, IndexStep::Canonicalize(path) if path == "/work/sub"));
}

#[test]
fn explicit_ids_ignore_unrelated_pending_and_failed_indexes_after_registration() {
    let mut gate = InitialIndexGate::pending();
    let ids = |names: &[&str]| -> Vec<String> { names.iter().map(|n| n.to_string()).collect() };
    assert!(matches!(
        wait_for_gates(&vec![gate.snapshot()], &ids(&["B"])),
        Readiness::Waiting(0)
    ));
    gate.register_codebase("A".into());
    assert!(matches!(
        wait_for_gates(&vec![gate.snapshot()], &ids(&["B"])),
        Readiness::Ready
    ));
    gate.finish(Err("embedding failed".into()));
    let gates = vec![gate];
    assert!(matches!(wait_for_gates(&gates, &ids(&["B"])), Readiness::Ready));
    assert!(matches!(wait_for_gates(&gates, &ids(&["A"])), Readiness::Failed(_)));
    assert!(
        matches!(wait_for_gates(&gates, &ids(&[])), Readiness::Failed(_)),
        "a server-defined scope can include it, so its failure counts"
    );
}

#[test]
fn scoped_readiness_rechecks_indexes_registered_while_it_waits() {
    let mut engine = CheckoutRegistry::new(0);
    let mut session = Session::new();
    let first = session.first_index(&mut engine, "A", "/first");
    register(&mut engine, "/first", first, "A");
    let before = session.leases.membership(&engine);
    assert!(matches!(session.ready(&engine, &[]), Readiness::Waiting(_)));
    let second = session.first_index(&mut engine, "B", "/second");
    register(&mut engine, "/second", second, "B");
    finish(&mut engine, "/first", first, Ok(()));
    assert!(!before.still_covers(&session.leases.membership(&engine)));
    assert!(
        matches!(session.ready(&engine, &[]), Readiness::Waiting(_)),
        "the checkout attached while waiting must also be ready"
    );
    finish(&mut engine, "/second", second, Ok(()));
    assert!(matches!(session.ready(&engine, &[]), Readiness::Ready));
    assert_eq!(session.leases.len(), 2);
}

#[test]
fn an_empty_selector_waits_only_on_this_sessions_gates() {
    let mut engine = CheckoutRegistry::new(0);
    let mut mine = Session::new();
    let mut theirs = Session::new();
    theirs.first_index(&mut engine, "theirs", "/their-checkout");
    let my_gate = mine.first_index(&mut engine, "mine", "/my-checkout");
    finish(&mut engine, "/my-checkout", my_gate, Ok(()));
    assert!(
        matches!(mine.ready(&engine, &[]), Readiness::Ready),
        "a gate this session does not hold must not block it"
    );
    assert_eq!(mine.leases.len(), 1);
    assert!(matches!(theirs.ready(&engine, &[]), Readiness::Waiting(_)));
}

#[test]
fn a_plain_watch_joins_the_first_index_coordinator() {
    let mut engine = CheckoutRegistry::new(0);
    let mut session = Session::new();
    let gate = session.first_index(&mut engine, "codebase", "/first-checkout");
    session.attach(&mut engine, "codebase", "/first-checkout");
    assert_eq!(session.leases.len(), 1, "one checkout is one coordinator");
    let held = session.leases.at_root(&engine, "/first-checkout").expect("held");
    assert_eq!(
        held.gate(),
        Some(gate),
        "a plain watch must not replace what retrieval waits on"
    );
    session.attach(&mut engine, "other-codebase", "/other-checkout");
    assert_eq!(session.leases.len(), 2);
}

fn job(error: Option<&str>, completed: bool) -> JobStatus {
    JobStatus {
        files_to_embed: 1,
        files_to_delete: 0,
        files_embedded: 1,
        files_deleted: 0,
        files_failed: 0,
        chunk_count: None,
        error: error.map(str::to_string),
        started_at: Some("2026-07-14T00:00:00Z".to_string()),
        completed_at: if completed { Some("2026-07-14T00:00:01Z".to_string()) } else { None },
    }
}

#[test]
fn canonical_search_omits_cached_checkout_freshness() {
    let mut freshness = Freshness::new();
    let last = Some("job".to_string());
    assert!(matches!(freshness.ask(true, &last), FreshnessStep::Ask(id) if id == "job"));
    let footer = freshness
        .take("job".to_string(), &Ok(job(Some("disk full"), false)))
        .expect("a failed sync is worth a footer");
    assert!(
        matches!(freshness.ask(true, &last), FreshnessStep::Answer(Some(known)) if known == footer)
    );
    assert!(matches!(freshness.ask(false, &last), FreshnessStep::Answer(None)));
    let target = Target {
        codebase: Some("codebase".to_string()),
        root: Some("/checkout".to_string()),
    };
    assert!(target.for_canonical().root.is_none());
}

#[test]
fn a_running_job_is_asked_for_again() {
    let mut freshness = Freshness::new();
    let last = Some("job".to_string());
    assert!(freshness.take("job".to_string(), &Ok(job(None, false))).is_some());
    assert!(matches!(freshness.ask(true, &last), FreshnessStep::Ask(_)));
    assert!(freshness.take("job".to_string(), &Ok(job(None, true))).is_none());
    assert!(matches!(freshness.ask(true, &last), FreshnessStep::Answer(None)));
    assert!(matches!(freshness.ask(true, &None), FreshnessStep::Answer(None)));
    assert!(freshness.take("next".to_string(), &Err("offline".to_string())).is_none());
}

#[test]
fn checkout_readiness_does_not_use_another_checkouts_codebase_gate() {
    let mut engine = CheckoutRegistry::new(0);
    let mut session = Session::new();
    let first = session.first_index(&mut engine, "shared-codebase", "/first-checkout");
    let second = session.first_index(&mut engine, "shared-codebase", "/second-checkout");
    register(&mut engine, "/first-checkout", first, "shared-codebase");
    register(&mut engine, "/second-checkout", second, "shared-codebase");
    finish(
        &mut engine,
        "/second-checkout",
        second,
        Err("another checkout failed".into()),
    );
    let bound = Target {
        codebase: Some("shared-codebase".to_string()),
        root: Some("/first-checkout".to_string()),
    };
    assert!(
        matches!(session.leases.await_initial_client(&engine, &bound), FirstIndex::Pending),
        "another checkout's first index must not answer for this one"
    );
    finish(&mut engine, "/first-checkout", first, Ok(()));
    assert!(matches!(
        session.leases.await_initial_client(&engine, &bound),
        FirstIndex::Ready
    ));
    let rootless = Target { codebase: Some("shared-codebase".to_string()), root: None };
    match session.leases.await_initial_client(&engine, &rootless) {
        FirstIndex::Failed(reason) => {
            assert!(reason.contains("another checkout failed"), "{reason}")
        }
        _ => panic!("a request without a checkout waits for every one of them"),
    }
}

#[test]
fn automatic_watching_uses_the_bound_umbrella_root() {
    let mut binding = Binding::new(None);
    let target = binding.bind("codebase".to_string(), Some("/umbrella".to_string()));
    assert_eq!(watched_root(&target).as_deref(), Some("/umbrella"));
    let nested = Selection::Directory("/umbrella/child".to_string());
    let (mut call, _) = Call::new(&nested, false, "/launch", "/launch", &binding);
    let child = Resolved { path: "/umbrella/child".to_string(), is_directory: true };
    call.step(&mut binding, CallEvent::Canonical(Ok(child)));
    call.step(&mut binding, CallEvent::Resolved(Ok(Some("codebase".to_string()))));
    match call.step(&mut binding, CallEvent::Root(Some("/umbrella".to_string()))) {
        Step::Attach(target) => {
            assert_eq!(watched_root(&target).as_deref(), Some("/umbrella"))
        }
        _ => panic!("the checkout is watched"),
    }
}

#[test]
fn steering_tests_every_tool_has_a_doc() {
    for name in registered_tools() {
        assert!(tool_doc(&name).is_some(), "tool `{name}` has no doc");
    }
}

#[test]
fn tests_every_tool_has_a_doc() {
    for name in registered_tools() {
        assert_eq!(tool_doc(&name), Some(format!("docs/tools/{name}.md")));
    }
    assert!(tool_doc("made_up_tool").is_none());
}

fn check_annotations() {
    for name in registered_tools() {
        let annotations = annotations(&name);
        if name == "index_codebase" {
            assert!(!annotations.read_only);
            assert_eq!(annotations.destructive, Some(false));
            assert_eq!(annotations.idempotent, Some(true));
        } else if DIRECT_EDIT_TOOLS.contains(&name.as_str()) {
            assert!(!annotations.read_only);
            assert_eq!(annotations.destructive, Some(true));
            assert_eq!(annotations.idempotent, Some(name == "undo_edit"));
        } else {
            assert!(annotations.read_only, "{name}");
        }
    }
}

#[test]
fn steering_tests_every_tool_has_explicit_safety_annotations() {
    check_annotations();
}

#[test]
fn tests_every_tool_has_explicit_safety_annotations() {
    check_annotations();
}

fn check_direct_edits() {
    let tools = registered_tools();
    for name in DIRECT_EDIT_TOOLS {
        assert!(
            tools.iter().any(|tool| tool == name),
            "missing direct edit tool {name}"
        );
    }
    for removed in ["apply_edit_plan", "undo_edit_plan"] {
        assert!(
            !tools.iter().any(|tool| tool == removed),
            "raw plan transport tool {removed} must not be exposed over MCP"
        );
    }
}

#[test]
fn steering_tests_symbolic_edits_are_direct_actions_not_plan_transport() {
    check_direct_edits();
}

#[test]
fn tests_symbolic_edits_are_direct_actions_not_plan_transport() {
    check_direct_edits();
}

fn check_phantoms() {
    let tools = registered_tools();
    let phantoms = phantom_tools("call `made_up_tool` first, then `grep`.", &tools);
    assert_eq!(
        phantoms,
        vec!["made_up_tool".to_string()],
        "the phantom guard must flag unregistered tool names"
    );
}

#[test]
fn steering_tests_phantom_detection_actually_fires() {
    check_phantoms();
}

#[test]
fn tests_phantom_detection_actually_fires() {
    check_phantoms();
}

fn check_prefixes() {
    let tools = registered_tools();
    for name in [
        "mcp__semctx__grep",
        "mcp__plugin_semctx_semctx__grep",
        "mcp__semctx_semctx_grep",
    ] {
        assert_eq!(
            phantom_tools(&format!("use `{name}`"), &tools),
            Vec::<String>::new()
        );
    }
    assert_eq!(
        phantom_tools("use `mcp__semctx_semctx_made_up`", &tools),
        vec!["mcp__semctx_semctx_made_up".to_string()]
    );
}

#[test]
fn steering_tests_phantom_guard_understands_host_mcp_prefixes() {
    check_prefixes();
}

#[test]
fn tests_phantom_guard_understands_host_mcp_prefixes() {
    check_prefixes();
}

#[test]
fn prose_is_searched_for_whole_words() {
    assert_eq!(
        backticked_idents("a `grep` b `semctl index` c `--codebase` d `x_1` e `Upper`"),
        vec!["grep".to_string(), "x_1".to_string()]
    );
    assert_eq!(backticked_idents("an `open span"), vec![] as Vec<String>);
    assert_eq!(
        phantom_tools("`zz` `aa` `zz` `top_k`", &registered_tools()),
        vec!["aa".to_string(), "zz".to_string()]
    );
    let tools = vec!["grep".to_string(), "trace".to_string()];
    assert_eq!(missing_from("use grep", &tools), vec!["trace".to_string()]);
    assert_eq!(registered_tools().len(), 39);
}

#[test]
fn selectors_name_directories_or_codebases() {
    assert!(matches!(select(None, false), Selection::Current));
    assert!(matches!(select(Some("  "), false), Selection::Current));
    assert!(matches!(select(Some("./x"), false), Selection::Directory(d) if d == "./x"));
    assert!(matches!(select(Some("id"), false), Selection::Codebase(id) if id == "id"));
    assert!(wants_canonical(Some("canonical")));
    assert!(!wants_canonical(Some("checkout")));
    assert!(!wants_canonical(None));
}

fn resolved(path: &str) -> CallEvent {
    CallEvent::Canonical(Ok(Resolved { path: path.to_string(), is_directory: true }))
}

fn failure(step: Step) -> String {
    match step {
        Step::Fail(reason) => reason,
        _ => panic!("the call goes on"),
    }
}

#[test]
fn a_directory_is_bound_step_by_step() {
    let mut binding = Binding::new(None);
    let directory = Selection::Directory("/work/src".to_string());
    let (mut call, step) = Call::new(&directory, true, "/launch", "/launch", &binding);
    assert!(matches!(step, Step::Canonicalize(path) if path == "/work/src"));
    assert!(matches!(
        call.step(&mut binding, resolved("/work/src")),
        Step::WorkingCopy(dir) if dir == "/work/src"
    ));
    assert!(matches!(
        call.step(&mut binding, CallEvent::Lifted("/work".to_string())),
        Step::AwaitPath(dir) if dir == "/work"
    ));
    assert!(matches!(
        call.step(&mut binding, CallEvent::Waited(Ok(()))),
        Step::Resolve(dir) if dir == "/work"
    ));
    assert!(matches!(
        call.step(&mut binding, CallEvent::Resolved(Ok(Some("id".to_string())))),
        Step::CachedRoot { codebase, inside } if codebase == "id" && inside == "/work"
    ));
    assert!(matches!(
        call.step(&mut binding, CallEvent::Root(None)),
        Step::Attach(target) if target.root.as_deref() == Some("/work")
    ));
    assert!(matches!(call.step(&mut binding, CallEvent::Attached), Step::AwaitTarget(_)));
    assert!(matches!(
        call.step(&mut binding, CallEvent::Waited(Ok(()))),
        Step::Use(target) if target.codebase.as_deref() == Some("id")
    ));
    assert!(binding.bound().is_none(), "another directory does not bind the session");
}

#[test]
fn a_directory_that_cannot_be_used_says_why() {
    let mut binding = Binding::new(None);
    let directory = Selection::Directory("/work".to_string());
    let begin = |binding: &Binding| Call::new(&directory, false, "/launch", "/launch", binding).0;
    let mut call = begin(&binding);
    assert_eq!(
        failure(call.step(&mut binding, CallEvent::Canonical(Err("no such file".to_string())))),
        "can't resolve directory /work: no such file"
    );
    let mut call = begin(&binding);
    let file = Resolved { path: "/work".to_string(), is_directory: false };
    assert_eq!(
        failure(call.step(&mut binding, CallEvent::Canonical(Ok(file)))),
        "/work is not a directory"
    );
    let mut call = begin(&binding);
    assert!(matches!(call.step(&mut binding, resolved("/work")), Step::Resolve(_)));
    assert!(failure(call.step(&mut binding, CallEvent::Resolved(Ok(None))))
        .starts_with("/work isn't indexed."));
    let mut call = begin(&binding);
    call.step(&mut binding, resolved("/work"));
    assert_eq!(
        failure(call.step(&mut binding, CallEvent::Resolved(Err("offline".to_string())))),
        "can't resolve codebase for /work: offline"
    );
}

#[test]
fn a_codebase_is_found_by_its_id() {
    let mut binding = Binding::new(None);
    let named = Selection::Codebase("id".to_string());
    let (mut call, step) = Call::new(&named, false, "/launch", "/launch", &binding);
    assert!(matches!(step, Step::LookUp(id) if id == "id"));
    assert!(matches!(
        call.step(&mut binding, CallEvent::LookedUp(Ok(true))),
        Step::FindRoot(id) if id == "id"
    ));
    assert!(matches!(
        call.step(&mut binding, CallEvent::Root(None)),
        Step::Attach(target) if target.root.is_none()
    ));
    let (mut call, _) = Call::new(&named, false, "/launch", "/launch", &binding);
    assert_eq!(
        failure(call.step(&mut binding, CallEvent::LookedUp(Ok(false)))),
        "codebase id `id` was not found or is not accessible"
    );
    let (mut call, _) = Call::new(&named, false, "/launch", "/launch", &binding);
    assert_eq!(
        failure(call.step(&mut binding, CallEvent::LookedUp(Err("offline".to_string())))),
        "can't resolve codebase id `id`: offline"
    );
}

#[test]
fn the_launch_directory_is_reported_and_never_registered() {
    let mut binding = Binding::new(None);
    let (mut call, step) = Call::new(&Selection::Current, true, "/launch", "/launch", &binding);
    assert!(matches!(step, Step::AwaitPath(path) if path == "/launch"));
    assert!(matches!(
        call.step(&mut binding, CallEvent::Waited(Ok(()))),
        Step::CheckLogin
    ));
    assert!(matches!(
        call.step(&mut binding, CallEvent::Login(Ok(true))),
        Step::ResolveLaunch(path) if path == "/launch"
    ));
    let reason = failure(call.step(&mut binding, CallEvent::Resolved(Ok(None))));
    assert!(reason.contains("ask the user to opt in"), "{reason}");
    assert!(reason.contains("(path `/launch`)"), "{reason}");
    assert_eq!(
        failure(call.step(&mut binding, CallEvent::Attached)),
        "the call is out of order"
    );
    let logged_out = [Ok(false), Err("locked".to_string())].map(|login| {
        let (mut call, _) = Call::new(&Selection::Current, false, "/launch", "/launch", &binding);
        failure(call.step(&mut binding, CallEvent::Login(login)))
    });
    assert!(logged_out[0].starts_with("not logged in"), "{}", logged_out[0]);
    assert_eq!(logged_out[1], "can't read stored credentials: locked");
}

#[test]
fn a_failed_first_index_ends_the_call_that_waits_for_it() {
    let mut binding = Binding::new(Some("pinned".to_string()));
    let (mut call, _) = Call::new(&Selection::Current, true, "/launch", "/launch", &binding);
    assert_eq!(
        failure(call.step(&mut binding, CallEvent::Waited(Err("embedding failed".to_string())))),
        "embedding failed"
    );
}

#[test]
fn a_pinned_session_keeps_its_codebase() {
    let mut binding = Binding::new(Some("pinned".to_string()));
    assert!(binding.is_pinned());
    assert!(!binding.bind_indexed(Some("/launch"), "/launch", "other"));
    assert!(binding.bound().is_none());
    let (_, step) = Call::new(&Selection::Current, false, "/launch", "/launch", &binding);
    assert!(matches!(step, Step::FindRoot(id) if id == "pinned"));
    let mut free = Binding::new(None);
    assert!(!free.is_pinned());
    assert!(free.bind_indexed(Some("/launch"), "/launch", "indexed"));
    let (_, step) = Call::new(&Selection::Current, false, "/launch", "/launch", &free);
    assert!(matches!(
        step,
        Step::Use(target) if target.codebase.as_deref() == Some("indexed")
    ));
    assert!(!Binding::new(None).bind_indexed(Some("/launch"), "/elsewhere", "indexed"));
}

/// A request for `/work/src` that is as far as the question for a first index.
fn located(binding: &mut Binding) -> IndexRequest {
    let (mut request, step) = IndexRequest::new(Some("/work/src"), "/work", Some("/work"));
    assert!(matches!(step, IndexStep::Canonicalize(path) if path == "/work/src"));
    let found = Resolved { path: "/work/src".to_string(), is_directory: true };
    assert!(matches!(
        request.step(binding, IndexEvent::Canonical(Ok(found))),
        IndexStep::WorkingCopy(dir) if dir == "/work/src"
    ));
    assert!(matches!(
        request.step(binding, IndexEvent::Lifted("/work".to_string())),
        IndexStep::Locate(dir) if dir == "/work"
    ));
    request
}

/// A request that claimed the registration.
fn claimed(binding: &mut Binding) -> IndexRequest {
    let mut request = located(binding);
    assert!(matches!(
        request.step(binding, IndexEvent::Located(false)),
        IndexStep::ResolveExact(dir) if dir == "/work"
    ));
    assert!(matches!(
        request.step(binding, IndexEvent::LookedUp(Ok(None))),
        IndexStep::Claim(dir) if dir == "/work"
    ));
    assert!(matches!(
        request.step(binding, IndexEvent::Claimed(true)),
        IndexStep::Register(dir) if dir == "/work"
    ));
    request
}

fn answer(step: IndexStep) -> String {
    match step {
        IndexStep::Answer(answer) => answer,
        _ => panic!("the request goes on"),
    }
}

#[test]
fn a_first_index_is_registered_started_and_waited_for() {
    let mut binding = Binding::new(None);
    let mut request = claimed(&mut binding);
    assert!(matches!(
        request.step(&mut binding, IndexEvent::Registered(Ok("id".to_string()))),
        IndexStep::Start { codebase, dir } if codebase == "id" && dir == "/work"
    ));
    assert_eq!(binding.bound().and_then(|target| target.codebase).as_deref(), Some("id"));
    assert!(matches!(
        request.step(&mut binding, IndexEvent::Started(Ok(()))),
        IndexStep::Await
    ));
    assert_eq!(
        answer(request.step(&mut binding, IndexEvent::Ended(Ok(())))),
        "initial indexing complete\ncodebase id\npath /work\nretrieval tools are now available"
    );
    let mut request = claimed(&mut binding);
    request.step(&mut binding, IndexEvent::Registered(Ok("id".to_string())));
    request.step(&mut binding, IndexEvent::Started(Ok(())));
    assert_eq!(
        answer(request.step(&mut binding, IndexEvent::Ended(Err("embedding failed".to_string())))),
        "initial indexing failed\ncodebase id\npath /work\nerror: embedding failed"
    );
}

#[test]
fn an_index_that_cannot_be_started_is_abandoned() {
    let mut binding = Binding::new(None);
    let mut request = claimed(&mut binding);
    match request.step(&mut binding, IndexEvent::Registered(Err("refused".to_string()))) {
        IndexStep::Abandon { reason, answer } => {
            assert_eq!(reason, "refused");
            assert_eq!(answer, "index_codebase failed for /work: refused");
        }
        _ => panic!("the registration failed"),
    }
    assert!(binding.bound().is_none());
    let mut request = claimed(&mut binding);
    request.step(&mut binding, IndexEvent::Registered(Ok("id".to_string())));
    assert!(matches!(
        request.step(&mut binding, IndexEvent::Started(Err("no watch".to_string()))),
        IndexStep::Abandon { reason, .. } if reason == "no watch"
    ));
    assert_eq!(
        answer(request.step(&mut binding, IndexEvent::Attached)),
        "the index request is out of order"
    );
}

#[test]
fn a_running_first_index_is_joined() {
    let mut gate = InitialIndexGate::pending();
    assert!(serves(Some(&gate)));
    assert!(!serves(None));
    gate.finish(Err("embedding failed".to_string()));
    assert!(!serves(Some(&gate)), "a failed first index is retried");
    let mut binding = Binding::new(None);
    let mut request = located(&mut binding);
    assert!(matches!(
        request.step(&mut binding, IndexEvent::Located(true)),
        IndexStep::Join(dir) if dir == "/work"
    ));
    assert_eq!(
        answer(request.step(&mut binding, IndexEvent::Ended(Ok(())))),
        "initial indexing complete\npath /work\nretrieval tools are now available"
    );
    let mut request = located(&mut binding);
    request.step(&mut binding, IndexEvent::Located(false));
    request.step(&mut binding, IndexEvent::LookedUp(Ok(None)));
    assert!(matches!(
        request.step(&mut binding, IndexEvent::Claimed(false)),
        IndexStep::Join(_)
    ));
    assert_eq!(
        answer(request.step(&mut binding, IndexEvent::Ended(Err("embedding failed".to_string())))),
        "initial indexing failed for /work: embedding failed"
    );
}

#[test]
fn an_indexed_directory_is_attached() {
    let mut binding = Binding::new(None);
    let mut request = located(&mut binding);
    request.step(&mut binding, IndexEvent::Located(false));
    assert!(matches!(
        request.step(&mut binding, IndexEvent::LookedUp(Ok(Some("id".to_string())))),
        IndexStep::Attach { codebase, dir } if codebase == "id" && dir == "/work"
    ));
    assert_eq!(binding.bound().and_then(|target| target.root).as_deref(), Some("/work"));
    assert_eq!(
        answer(request.step(&mut binding, IndexEvent::Attached)),
        "codebase id was already indexed; background sync and watching started\npath /work"
    );
    let mut request = located(&mut binding);
    request.step(&mut binding, IndexEvent::Located(false));
    assert_eq!(
        answer(request.step(&mut binding, IndexEvent::LookedUp(Err("offline".to_string())))),
        "index_codebase failed for /work: offline"
    );
}

#[test]
fn an_index_request_needs_a_directory() {
    let (_, step) = IndexRequest::new(None, "/launch", None);
    assert_eq!(
        answer(step),
        "index_codebase unavailable — no path was provided and the launch directory is unknown"
    );
    let (mut request, step) = IndexRequest::new(None, "/launch", Some("/launch"));
    assert!(matches!(step, IndexStep::Canonicalize(path) if path == "/launch"));
    let mut binding = Binding::new(None);
    assert_eq!(
        answer(request.step(&mut binding, IndexEvent::Canonical(Err("missing".to_string())))),
        "index_codebase unavailable — can't resolve directory /launch: missing"
    );
}

#[test]
fn a_first_sync_ends_with_its_job_or_a_reason() {
    assert_eq!(first_sync_result(&FirstSync::Queued("7".to_string())), Ok("7".to_string()));
    assert!(first_sync_result(&FirstSync::Lost).is_err());
}

#[test]
fn a_finished_edit_asks_its_checkout_for_a_sync() {
    let mut engine = CheckoutRegistry::new(0);
    let mut session = Session::new();
    session.attach(&mut engine, "codebase", "/checkout");
    let held = engine.coordinator_mut(&key("/checkout")).expect("attached");
    assert!(matches!(held.next_turn(false), Turn::Run(Trigger::Startup)));
    held.begin_run();
    held.record(
        Trigger::Startup,
        &Ok(SyncOutcome {
            codebase_id: "codebase".to_string(),
            job_id: "job".to_string(),
            uploaded: 1,
            to_delete: 0,
        }),
    );
    let target = Target {
        codebase: Some("codebase".to_string()),
        root: Some("/checkout".to_string()),
    };
    let status = session.leases.checkout_status(&engine, &target).expect("held");
    assert_eq!(status.last_job_id.as_deref(), Some("job"));
    assert!(session.leases.watcher_active(&engine, Some("codebase")));
    assert!(!session.leases.watcher_active(&engine, Some("other")));
    assert!(!session.leases.watcher_active(&engine, None));
    session.leases.trigger_sync(&mut engine, Some("codebase"));
    let held = engine.coordinator_mut(&key("/checkout")).expect("attached");
    assert!(matches!(held.next_turn(false), Turn::Run(Trigger::Explicit)));
}

#[test]
fn an_edit_is_reported_by_its_id() {
    let outcome = ApplyOutcome {
        plan_id: "a".repeat(64),
        operation: "rename_symbol".into(),
        changed_files: vec![AppliedFile {
            path: "src/lib.rs".into(),
            content_hash: "b".repeat(64),
        }],
        already_applied: false,
        already_undone: false,
        watcher_active: true,
        sync_state: "watcher will enqueue sync".into(),
    };
    let action = edit_action(&outcome);
    assert_eq!(action.edit_id, outcome.plan_id);
    assert_eq!(action.operation, "rename_symbol");
    assert_eq!(action.changed_files.len(), 1);
    assert_eq!(action.sync_state, "watcher will enqueue sync");
}

fn grep_args(pattern: &str, literal: Option<bool>) -> GrepArgs {
    GrepArgs {
        codebase: None,
        copy: None,
        pattern: pattern.to_string(),
        literal,
        ignore_case: None,
        path: None,
        max: None,
    }
}

#[test]
fn a_pattern_is_a_regular_expression_where_it_looks_like_one() {
    assert!(pattern_needs_regex("fn .*main"));
    assert!(pattern_needs_regex("a|b"));
    assert!(!pattern_needs_regex("fn main"));
    assert!(!pattern_needs_regex(""));
    assert!(grep_args("a|b", None).request().regex);
    assert!(!grep_args("a|b", Some(true)).request().regex);
    assert!(!grep_args("plain", None).request().regex);
}

#[test]
fn a_source_window_is_bytes_or_lines() {
    let args = |bytes: (Option<u64>, Option<u64>), lines: (Option<u32>, Option<u32>)| {
        ReadSourceArgs {
            codebase: None,
            copy: None,
            path: "src/lib.rs".to_string(),
            revision: None,
            byte_start: bytes.0,
            byte_end: bytes.1,
            line_start: lines.0,
            line_end: lines.1,
        }
        .window()
        .map(|window| (window.bytes, window.lines))
    };
    assert_eq!(args((None, None), (None, None)), Ok((None, None)));
    assert_eq!(args((Some(1), Some(2)), (None, None)), Ok((Some((1, 2)), None)));
    assert_eq!(args((None, None), (Some(3), Some(4))), Ok((None, Some((3, 4)))));
    assert_eq!(
        args((Some(1), None), (None, None)),
        Err("read_source failed: byte_start and byte_end must be supplied together".to_string())
    );
    assert_eq!(
        args((None, None), (None, Some(4))),
        Err("read_source failed: line_start and line_end must be supplied together".to_string())
    );
    assert_eq!(
        args((Some(1), Some(2)), (Some(3), Some(4))),
        Err("read_source failed: request either bytes or lines, not both".to_string())
    );
}

#[test]
fn requests_follow_their_arguments() {
    let search = SearchArgs {
        codebase: None,
        copy: None,
        query: "retry".to_string(),
        top_k: None,
        domains: None,
        prefer: Some("code".to_string()),
        kinds: None,
        expand: Some(true),
        scope: Some("personal".to_string()),
        codebase_ids: Some(vec!["a".to_string(), "b".to_string()]),
    };
    assert_eq!(search.opts().scope.as_deref(), Some("personal"));
    assert_eq!(search.opts().codebase_ids, vec!["a".to_string(), "b".to_string()]);
    assert!(search.opts().expand);
    assert_eq!(search.opts().prefer.as_deref(), Some("code"));
    assert!(search.domain_list().is_empty());
    let rename = RenameSymbolArgs {
        codebase: None,
        target: SymbolTargetRequest {
            qualified_name: Some("a::b".to_string()),
            path: None,
            line: None,
            column: None,
        },
        new_name: "c".to_string(),
        include_comments: Some(true),
        include_strings: None,
        include_unresolved_text: None,
        allow_uncertain: None,
        run_formatter: None,
    };
    let (request, _format) = rename.request();
    assert_eq!(request.new_name, "c");
    assert!(request.include_comments);
    assert!(!request.include_strings);
    assert_eq!(insert_tool(true), "insert_before_symbol");
    assert_eq!(insert_tool(false), "insert_after_symbol");
    assert!(unavailable("grep", "offline").contains("offline"));
}

#[test]
fn an_update_is_mentioned_once() {
    let mut update = UpdateNote { note: Some("a newer version is out".to_string()) };
    assert_eq!(update.take(false), None);
    let note = update.take(true);
    assert_eq!(note.as_deref(), Some("a newer version is out"));
    assert_eq!(update.take(true), None);
    assert_eq!(
        with_notes("answer".to_string(), &Some("stale".to_string()), &note),
        "answer\n\nstale\n\na newer version is out"
    );
    assert_eq!(with_notes("answer".to_string(), &None, &None), "answer");
}
