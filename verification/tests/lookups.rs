use semctl::api::{
    CallEdge, CallGraph, CodebaseFile, CodebaseSummary, CodebaseVersionSummary, DomainDescriptor,
    EnumValue, ExternalLink, FileOutline, FileTreeNode, GraphCluster, ImportEdge, OutlineEntry,
    Page, Project, ProjectGraph, ProjectGroup, SearchHit, SymbolEdge, SymbolSearchHit, TagSchema,
    TypeEdge, TypeHierarchy, TypeNode, UnusedDefinition,
};
use semctl::mcp::tool_types::{
    AnalysisPageArgs, BatchArgs, CallGraphArgs, OutlineArgs, ReferenceArgs, SymbolSearchArgs,
    TraceArgs, TypeHierarchyArgs,
};
use semctl::mcp::tools::{planning_failed, refused, render_failed};
use semctl::query::context::{
    codebases_for_source, current_context, describe_copies, CodebaseWalk, Codebases, ContextReport,
};
use semctl::query::graph::{
    call_graph, cycles, duplicates, external_links, file_tree, imports, list_domains,
    list_projects, search_symbols, symbol_edges, type_hierarchy, unused, RowWalk, Rows,
};
use semctl::query::lookups::{
    call_path, expand_chunk, file_outline, find_references, flows_between, flows_into,
    implementations_of, reaches, symbol_at_position, who_calls, Answer,
};
use semctl::query::render::{render_compact, render_files, write_marker};
use semctl::query::requests::{
    call_graph_url, call_path_url, codebases_url, content_url, expand_url, flows_between_url,
    flows_into_url, implementations_url, job_url, outline_url, page_url, plan_insert, plan_rename,
    plan_replace_body, plan_safe_delete, position_url, reaches_url, references_url, source_url,
    symbols_url, type_hierarchy_url, unused_url, who_calls_url,
};
use semctl::score::Score;

fn hit(symbol: &str, path: &str) -> SearchHit {
    SearchHit {
        domain_id: "code".into(),
        id: symbol.into(),
        score: Score { mantissa: 0, exponent: 0, text: "0.000".into() },
        path: Some(path.into()),
        line_start: Some(3),
        line_end: Some(9),
        byte_start: None,
        byte_end: None,
        focus_line: None,
        focus_byte: None,
        snippet_line_start: None,
        snippet_line_end: None,
        snippet_byte_start: None,
        snippet_byte_end: None,
        language: Some("rust".into()),
        symbol: Some(symbol.into()),
        qualified_symbol: None,
        enclosing_symbol: None,
        is_write: None,
        reference_namespace: None,
        reference_kind: None,
        external_target: None,
        codebase_id: None,
        kind: "function".into(),
        snippet: "\n  \nfn run() {\n    1\n}\n\nfn next() {}\n".into(),
    }
}

fn offline<T>() -> Result<T, String> {
    Err("offline".to_string())
}

const SHOWN: &str = "[code rust] /repo/a.rs:3-9  run (function)\n    fn run() {\n        1\n    }\n    \n\n";

#[test]
fn hits_are_shown_with_the_start_of_their_text() {
    let hits = Ok(vec![hit("run", "a.rs")]);
    let root = Some("/repo");
    assert_eq!(who_calls(&hits, "main", root), SHOWN);
    assert_eq!(implementations_of(&hits, "Run", root), SHOWN);
    assert_eq!(call_path(&hits, "main", "run", root), SHOWN);
    assert_eq!(flows_between(&hits, "env", "exec", root), SHOWN);
    assert_eq!(expand_chunk(&hits, "a.rs", 3, 9, root), SHOWN);
    assert_eq!(symbol_at_position(Ok(Some(hit("run", "a.rs"))), "a.rs", 3, None, root), SHOWN);
    assert!(matches!(find_references(&hits, root), Answer::Text(text) if text == SHOWN));
}

#[test]
fn nothing_found_is_said_in_words() {
    let none: Result<Vec<SearchHit>, String> = Ok(Vec::new());
    assert_eq!(who_calls(&none, "main", None), "nothing calls `main`");
    assert_eq!(implementations_of(&none, "Run", None), "no implementations of `Run`");
    assert_eq!(call_path(&none, "a", "b", None), "no call path from `a` to `b`");
    assert_eq!(flows_between(&none, "a", "b", None), "no value flow from `a` to `b`");
    assert_eq!(
        expand_chunk(&none, "a.rs", 3, 9, None),
        "no indexed chunks overlap a.rs:3-9"
    );
    assert!(matches!(find_references(&none, None), Answer::Suggest("references")));
    assert_eq!(symbol_at_position(Ok(None), "a.rs", 3, Some(4), None), "(no symbol at a.rs:3:4)");
    assert_eq!(symbol_at_position(Ok(None), "a.rs", 3, None, None), "(no symbol at a.rs:3)");
    let nowhere: Result<Vec<String>, String> = Ok(Vec::new());
    assert_eq!(reaches(&nowhere, "env"), "no boundary flow reached from `env`\n");
    assert_eq!(flows_into(&nowhere, "exec"), "nothing flows into `exec`\n");
}

#[test]
fn failures_name_the_operation() {
    assert_eq!(who_calls(&offline(), "main", None), "who_calls failed: offline");
    assert_eq!(implementations_of(&offline(), "Run", None), "implementations_of failed: offline");
    assert_eq!(call_path(&offline(), "a", "b", None), "call_path failed: offline");
    assert_eq!(flows_between(&offline(), "a", "b", None), "flows_between failed: offline");
    assert_eq!(expand_chunk(&offline(), "a.rs", 1, 2, None), "expand_chunk failed: offline");
    assert_eq!(
        symbol_at_position(offline(), "a.rs", 1, None, None),
        "symbol_at_position failed: offline"
    );
    assert_eq!(reaches(&offline(), "a"), "reaches failed: offline");
    assert_eq!(flows_into(&offline(), "a"), "flows_into failed: offline");
    assert_eq!(file_outline(&offline(), "a.rs", None), "file_outline failed: offline");
    assert_eq!(imports(&offline(), None), "imports failed: offline");
    assert_eq!(symbol_edges(&offline(), None), "symbol_edges failed: offline");
    assert_eq!(external_links(&offline(), None), "external_links failed: offline");
    assert_eq!(list_projects(&offline()), "list_projects failed: offline");
    assert_eq!(file_tree(&offline()), "file_tree failed: offline");
    assert_eq!(list_domains(&offline()), "list_domains failed: offline");
    assert_eq!(search_symbols(&offline(), "q", None), "search_symbols failed: offline");
    assert_eq!(type_hierarchy(&offline(), None), "type_hierarchy failed: offline");
    assert_eq!(call_graph(&offline(), "f", None), "call_graph failed: offline");
    assert_eq!(cycles(&offline(), None), "cycles failed: offline");
    assert_eq!(duplicates(&offline(), None), "duplicates failed: offline");
    assert_eq!(unused(&offline(), None), "unused failed: offline");
    assert!(matches!(
        find_references(&offline(), None),
        Answer::Text(text) if text == "find_references failed: offline"
    ));
}

#[test]
fn references_are_marked_by_what_they_do() {
    let mut write = hit("count", "a.rs");
    write.is_write = Some(true);
    write.reference_namespace = Some("Value".into());
    write.reference_kind = Some("assign".into());
    write.external_target = Some("ext::count".into());
    write.enclosing_symbol = Some("bump".into());
    let mut plain = hit("count", "b.rs");
    plain.line_end = None;
    plain.qualified_symbol = Some("crate::count".into());
    plain.external_target = Some("ext::count".into());
    let mut lost = hit("count", "c.rs");
    lost.path = None;
    lost.symbol = None;
    assert_eq!(
        render_compact(&vec![write, plain, lost], "  (none)", None),
        "  a.rs:3-9 count in bump (write; value; assign; -> ext::count)\n  b.rs:3 count (-> crate::count)\n  (no location) -\n"
    );
    assert_eq!(render_compact(&Vec::new(), "  (none)", None), "  (none)\n");
}

#[test]
fn a_plain_read_is_not_marked() {
    let mut read = hit("count", "a.rs");
    read.is_write = Some(false);
    assert_eq!(write_marker(&read), "");
    assert_eq!(render_compact(&vec![read], "", None), "  a.rs:3-9 count\n");
    let mut typed = hit("count", "a.rs");
    typed.is_write = Some(false);
    typed.reference_namespace = Some("Value".into());
    assert_eq!(write_marker(&typed), " (value)");
    let mut write = hit("count", "a.rs");
    write.is_write = Some(true);
    assert_eq!(write_marker(&write), " (write)");
    assert_eq!(write_marker(&hit("count", "a.rs")), "");
}

#[test]
fn boundaries_are_counted() {
    let one = Ok(vec!["std::env".to_string()]);
    assert_eq!(reaches(&one, "a"), "  std::env\n(1 boundary)\n");
    let two = Ok(vec!["std::env".to_string(), "libc::open".to_string()]);
    assert_eq!(flows_into(&two, "a"), "  std::env\n  libc::open\n(2 boundaries)\n");
}

#[test]
fn an_outline_lists_every_chunk() {
    let entry = |symbol: Option<&str>, start: u32| OutlineEntry {
        line_start: start,
        line_end: start + 4,
        kind: "function".into(),
        symbol: symbol.map(str::to_string),
    };
    let outline =
        FileOutline { path: "a.rs".into(), entries: vec![entry(Some("run"), 1), entry(None, 7)] };
    assert_eq!(
        file_outline(&Ok(outline), "a.rs", Some("/repo")),
        "/repo/a.rs\n  1-5  function run\n  7-11  function -\n"
    );
    let empty = FileOutline { path: "a.rs".into(), entries: Vec::new() };
    assert_eq!(file_outline(&Ok(empty), "a.rs", None), "a.rs is indexed but has no chunks");
}

#[test]
fn edges_are_listed_with_what_was_cut() {
    let edge = || ImportEdge { from: "a.rs".into(), to: "b.rs".into(), import_path: "crate::b".into() };
    assert_eq!(
        imports(&Ok((vec![edge()], 1)), Some("/repo")),
        "/repo/a.rs  ->  /repo/b.rs  (crate::b)\n"
    );
    assert_eq!(
        imports(&Ok((vec![edge()], 5)), None),
        "a.rs  ->  b.rs  (crate::b)\n\n(showing 1 of 5 — capped at 20000; narrow the codebase to see the rest)\n"
    );
    assert_eq!(imports(&Ok((Vec::new(), 0)), None), "(no import edges)");
    let binding = SymbolEdge {
        from_file: "a.rs".into(),
        name: "run".into(),
        to_file: "b.rs".into(),
        moniker: "crate::run".into(),
    };
    assert_eq!(
        symbol_edges(&Ok((vec![binding], 1)), Some("/repo")),
        "/repo/a.rs `run`  ->  /repo/b.rs  (crate::run)\n"
    );
    assert_eq!(symbol_edges(&Ok((Vec::new(), 0)), None), "(no symbol bindings)");
    let link = ExternalLink {
        from_file: "a.rs".into(),
        import_path: "dep::x".into(),
        target_file: "src/x.rs".into(),
        target_name: "x".into(),
        ecosystem: "cargo".into(),
        target_package: "dep".into(),
        descriptor: "x".into(),
        target_codebase_id: "7".into(),
        confidence: "0.5".into(),
    };
    assert_eq!(
        external_links(&Ok((vec![link], 1)), Some("/repo")),
        "/repo/a.rs `dep::x`  ->  src/x.rs `x`  (cargo dep/x, cb=7 conf=0.5)\n"
    );
    assert_eq!(external_links(&Ok((Vec::new(), 0)), None), "(no cross-codebase links)");
}

#[test]
fn every_page_of_edges_is_read() {
    let page = |items: Vec<u8>| Page { items, total: 3, number: 0, size: 2 };
    let walk = Rows::new();
    assert_eq!(walk.page(), 0);
    let walk = match walk.take(page(vec![1, 2])) {
        RowWalk::More(next) => next,
        RowWalk::Done(..) => panic!("a row is left"),
    };
    assert_eq!(walk.page(), 1);
    match walk.take(page(vec![3])) {
        RowWalk::Done(rows, total) => assert_eq!((rows, total), (vec![1, 2, 3], 3)),
        RowWalk::More(_) => panic!("every row was read"),
    }
    match Rows::new().take(page(Vec::new())) {
        RowWalk::Done(rows, total) => assert_eq!((rows, total), (vec![], 3)),
        RowWalk::More(_) => panic!("the server has no more rows"),
    }
}

#[test]
fn projects_and_files_are_listed() {
    let graph = ProjectGraph {
        groups: vec![ProjectGroup {
            name: "all".into(),
            kind: "workspace".into(),
            root: ".".into(),
            children: vec!["core".into()],
        }],
        projects: vec![Project {
            name: "core".into(),
            kind: "cargo".into(),
            root: "core".into(),
            file_count: 4,
            config_file: Some("core/Cargo.toml".into()),
        }],
    };
    assert_eq!(
        list_projects(&Ok(graph)),
        "[group] all  (workspace, .)  1 member(s)\ncore  (cargo, core)  4 file(s)\n    core/Cargo.toml\n"
    );
    let none = ProjectGraph { groups: Vec::new(), projects: Vec::new() };
    assert_eq!(
        list_projects(&Ok(none)),
        "(no projects detected — synced files may not include manifests)"
    );
    let file = CodebaseFile { path: "a.rs".into(), size: 12, content_hash: None };
    assert_eq!(render_files(&vec![file], Some("/repo")), "/repo/a.rs  (12 bytes)\n");
}

#[test]
fn a_tree_is_indented() {
    let leaf = |name: &str| FileTreeNode {
        name: name.into(),
        is_directory: false,
        children: None,
    };
    let directory = |name: &str, children: Vec<FileTreeNode>| FileTreeNode {
        name: name.into(),
        is_directory: true,
        children: Some(children),
    };
    let nodes = vec![
        directory("src", vec![directory("mcp", vec![leaf("mod.rs")]), leaf("lib.rs")]),
        leaf("README.md"),
    ];
    assert_eq!(
        file_tree(&Ok(nodes)),
        "src/\n  mcp/\n    mod.rs\n  lib.rs\nREADME.md\n"
    );
    assert_eq!(
        file_tree(&Ok(Vec::new())),
        "(no files in the catalog for this codebase)"
    );
}

#[test]
fn domains_are_listed_with_their_tags() {
    let domain = DomainDescriptor {
        id: "code".into(),
        display_name: "Code".into(),
        tag_schema: vec![TagSchema {
            name: "kind".into(),
            data_type: "string".into(),
            description: "what a chunk is".into(),
        }],
    };
    assert_eq!(
        list_domains(&Ok(vec![domain])),
        "code  (Code)\n    kind [string]: what a chunk is\n"
    );
    assert_eq!(list_domains(&Ok(Vec::new())), "(no domains registered)");
}

#[test]
fn symbols_are_listed_with_their_places() {
    let found = SymbolSearchHit {
        path: "a.rs".into(),
        line_start: 1,
        line_end: 2,
        qualified_name: "crate::run".into(),
        kind: "function".into(),
        language: "rust".into(),
        project: None,
        score: "0.75".into(),
    };
    assert_eq!(
        search_symbols(&Ok(vec![found]), "run", Some("/repo")),
        "/repo/a.rs:1-2  crate::run  function  [rust project=- score=0.75]\n"
    );
    assert_eq!(search_symbols(&Ok(Vec::new()), "run", None), "no symbols match `run`");
}

#[test]
fn a_type_hierarchy_lists_nodes_and_edges() {
    let hierarchy = TypeHierarchy {
        roots: vec!["A".into(), "B".into()],
        complete: false,
        caveat: Some("macros".into()),
        nodes: vec![
            TypeNode {
                identity: "A".into(),
                kind: "trait".into(),
                path: Some("a.rs".into()),
                line_start: Some(1),
                line_end: None,
            },
            TypeNode {
                identity: "C".into(),
                kind: "trait".into(),
                path: None,
                line_start: None,
                line_end: None,
            },
        ],
        edges: vec![TypeEdge {
            subtype: "A".into(),
            supertype: "C".into(),
            relation: "extends".into(),
            origin: "source".into(),
            depth: 1,
        }],
    };
    assert_eq!(
        type_hierarchy(&Ok(hierarchy), Some("/repo")),
        "roots: A, B\ncomplete: false (macros)\nnodes (2)\n  A  trait  /repo/a.rs:1-0\n  C  trait  external\nedges (1)\n  A -> C  extends source depth=1\n"
    );
}

#[test]
fn a_call_graph_lists_nodes_and_edges() {
    let graph = CallGraph {
        nodes: vec![hit("run", "a.rs")],
        edges: vec![CallEdge { from: "main".into(), to: "run".into() }],
    };
    assert_eq!(
        call_graph(&Ok(graph), "run", Some("/repo")),
        format!("nodes (1)\n{SHOWN}edges (1)\n  main -> run\n")
    );
    let none = CallGraph { nodes: Vec::new(), edges: Vec::new() };
    assert_eq!(call_graph(&Ok(none), "run", None), "no call graph for `run`");
}

#[test]
fn groups_are_listed_with_their_places() {
    let mut named = hit("run", "a.rs");
    named.qualified_symbol = Some("crate::run".into());
    let mut nameless = hit("run", "b.rs");
    nameless.symbol = None;
    let group = |hash: Option<&str>, chunks: Vec<SearchHit>| GraphCluster {
        index: 1,
        size: 2,
        hash: hash.map(str::to_string),
        chunks,
    };
    assert_eq!(
        duplicates(&Ok(vec![group(Some("ff"), vec![named, nameless])]), None),
        "group 1 (2 locations) hash=ff\n  a.rs:3-9  crate::run\n  b.rs:3-9  -\n"
    );
    assert_eq!(
        cycles(&Ok(vec![group(None, vec![hit("run", "a.rs")])]), None),
        "group 1 (2 locations)\n  a.rs:3-9  run\n"
    );
    assert_eq!(cycles(&Ok(Vec::new()), None), "no cycles");
    assert_eq!(duplicates(&Ok(Vec::new()), None), "no duplicate groups");
}

#[test]
fn unused_definitions_carry_their_caveat() {
    let mut definition = hit("run", "a.rs");
    definition.qualified_symbol = Some("crate::run".into());
    let item = UnusedDefinition {
        definition,
        reason: "no references".into(),
        completeness_caveat: "reflection".into(),
    };
    let page = Page { items: vec![item], total: 4, number: 2, size: 1 };
    assert_eq!(
        unused(&Ok(page), None),
        "a.rs:3-9\n  reason: no references\n  caveat: reflection\n  symbol: crate::run\npage 2: 1 of 4\n"
    );
    let none = Page { items: Vec::new(), total: 0, number: 0, size: 1 };
    assert_eq!(unused(&Ok(none), None), "no unused definitions");
}

fn summary(id: &str) -> CodebaseSummary {
    CodebaseSummary {
        id: id.into(),
        slug: "slug".into(),
        display_name: String::new(),
        source_kind: EnumValue::Number(0),
        visibility: EnumValue::Number(1),
        revision: None,
        graph_generation: 3,
        graph_materialized_generation: 2,
        graph_fresh: false,
    }
}

#[test]
fn the_context_names_what_a_session_works_on() {
    let mut report = ContextReport {
        server: "https://example.invalid".into(),
        tenant: None,
        codebase: Some("id".into()),
        root: Some("/repo".into()),
        source: Some("src-1".into()),
        watcher_active: true,
        summary: Ok(summary("id")),
        copies: Ok(vec![CodebaseVersionSummary { source_id: "src-1".into() }]),
        last_job_id: Some("job".into()),
    };
    assert_eq!(
        current_context(&report),
        "server https://example.invalid\ntenant (unset)\ncodebase id\ncheckout root /repo\nsource identity src-1\nwatcher active\nindexed revision -\ngraph generation 3/2\ngraph fresh false\nserver checkout binding this checkout\nlast session sync job job"
    );
    report.summary = Err("offline".into());
    report.last_job_id = None;
    report.watcher_active = false;
    assert!(current_context(&report)
        .ends_with("\nwatcher inactive\ngraph/index state unavailable: offline"));
    report.codebase = None;
    assert!(current_context(&report).ends_with("\nwatcher inactive"));
}

#[test]
fn copies_are_counted() {
    let copies = |sources: &[&str]| -> Result<Vec<CodebaseVersionSummary>, String> {
        Ok(sources
            .iter()
            .map(|source| CodebaseVersionSummary { source_id: source.to_string() })
            .collect())
    };
    assert_eq!(describe_copies(&copies(&["mine"]), "mine"), "this checkout");
    assert_eq!(describe_copies(&copies(&["a", "mine"]), "mine"), "this checkout, of 2");
    assert_eq!(describe_copies(&copies(&[]), "mine"), "none");
    assert_eq!(describe_copies(&copies(&["a", "b"]), "mine"), "2 other copy/copies");
    assert_eq!(describe_copies(&offline(), "mine"), "unknown");
}

#[test]
fn visible_codebases_are_read_to_the_last_page() {
    let page = |id: &str, number: u32| Page {
        items: vec![summary(id)],
        total: 2,
        number,
        size: 1,
    };
    let walk = Codebases::new();
    assert_eq!(codebases_url(walk.page()), "/v1/codebases?page=0&pageSize=500");
    let walk = match walk.take(page("a", 0)) {
        CodebaseWalk::More(next) => next,
        CodebaseWalk::Done(_) => panic!("a codebase is left"),
    };
    match walk.take(page("b", 1)) {
        CodebaseWalk::Done(all) => {
            let ids: Vec<&str> = all.iter().map(|row| row.id.as_str()).collect();
            assert_eq!(ids, vec!["a", "b"]);
        }
        CodebaseWalk::More(_) => panic!("every codebase was read"),
    }
    assert_eq!(codebases_for_source(&Ok(page("a", 0))), vec!["a".to_string()]);
    assert_eq!(codebases_for_source(&offline()), Vec::<String>::new());
}

#[test]
fn each_question_has_its_address() {
    assert_eq!(references_url("id", "a b"), "/v1/codebases/id/graph/references?symbol=a%20b");
    assert_eq!(who_calls_url("id", "f"), "/v1/codebases/id/graph/who-calls?symbol=f");
    assert_eq!(
        implementations_url("id", "T"),
        "/v1/codebases/id/graph/implementations?symbol=T"
    );
    assert_eq!(
        call_path_url("id", "a", "b&c"),
        "/v1/codebases/id/graph/call-path?from=a&to=b%26c"
    );
    assert_eq!(reaches_url("id", "a"), "/v1/codebases/id/graph/flow/reaches?from=a");
    assert_eq!(flows_into_url("id", "a"), "/v1/codebases/id/graph/flow/into?to=a");
    assert_eq!(
        flows_between_url("id", "a", "b"),
        "/v1/codebases/id/graph/flow/between?from=a&to=b"
    );
    assert_eq!(outline_url("id", "src/a.rs"), "/v1/codebases/id/graph/outline?path=src%2Fa.rs");
    assert_eq!(
        expand_url("id", "a.rs", 3, 9),
        "/v1/codebases/id/graph/expand?path=a.rs&lineStart=3&lineEnd=9"
    );
    assert_eq!(
        position_url("id", "a.rs", 3, Some(4)),
        "/v1/codebases/id/graph/symbol-at-position?path=a.rs&line=3&column=4"
    );
    assert_eq!(
        position_url("id", "a.rs", 3, None),
        "/v1/codebases/id/graph/symbol-at-position?path=a.rs&line=3"
    );
    assert_eq!(job_url("7"), "/v1/jobs/7");
    assert_eq!(page_url("/v1/x", 2, 1000), "/v1/x?page=2&pageSize=1000");
    assert_eq!(page_url("/v1/x?a=b", 2, 1000), "/v1/x?a=b&page=2&pageSize=1000");
    assert_eq!(
        type_hierarchy_url("id", "T", "Both", 99),
        "/v1/codebases/id/graph/type-hierarchy?symbol=T&direction=Both&depth=16"
    );
    assert_eq!(
        call_graph_url("id", "f", 0, "In"),
        "/v1/codebases/id/graph/call-graph?symbol=f&depth=1&direction=In"
    );
    assert_eq!(
        unused_url("id", 1, 9000),
        "/v1/codebases/id/graph/unused?page=1&pageSize=500"
    );
    assert_eq!(source_url("s/1"), "/v1/codebases?sourceId=s%2F1&page=0&pageSize=500");
    assert_eq!(
        content_url("id", "a.rs", Some("r 1"), Some((1, 2)), Some((3, 4))),
        "/v1/codebases/id/files/content?path=a.rs&revision=r%201&byteStart=1&byteEnd=2&lineStart=3&lineEnd=4"
    );
    assert_eq!(
        content_url("id", "a.rs", None, None, None),
        "/v1/codebases/id/files/content?path=a.rs"
    );
    assert_eq!(plan_rename("id"), "/v1/codebases/id/edits/rename");
    assert_eq!(plan_safe_delete("id"), "/v1/codebases/id/edits/safe-delete");
    assert_eq!(plan_replace_body("id"), "/v1/codebases/id/edits/replace-body");
    assert_eq!(plan_insert("id", true), "/v1/codebases/id/edits/insert-before");
    assert_eq!(plan_insert("id", false), "/v1/codebases/id/edits/insert-after");
}

#[test]
fn arguments_have_defaults() {
    let mut symbols = SymbolSearchArgs {
        codebase: None,
        copy: None,
        query: "run".into(),
        mode: None,
        kinds: None,
        path_prefix: Some(String::new()),
        project: None,
        language: Some("rust".into()),
        limit: None,
    };
    assert_eq!(
        symbols_url("id", &symbols.options(&symbols.kind_list())),
        "/v1/codebases/id/graph/symbols?query=run&mode=Substring&limit=50&language=rust"
    );
    symbols.kinds = Some(vec!["function".into(), "trait".into()]);
    symbols.limit = Some(9000);
    symbols.mode = Some("Exact".into());
    assert_eq!(
        symbols_url("id", &symbols.options(&symbols.kind_list())),
        "/v1/codebases/id/graph/symbols?query=run&mode=Exact&limit=500&kinds=function&kinds=trait&language=rust"
    );
    let types = TypeHierarchyArgs {
        codebase: None,
        symbol: "T".into(),
        direction: None,
        depth: None,
    };
    assert_eq!((types.relatives(), types.hops()), ("Both", 4));
    let calls = CallGraphArgs {
        codebase: None,
        symbol: "f".into(),
        depth: None,
        direction: Some("In".into()),
    };
    assert_eq!((calls.relatives(), calls.hops()), ("In", 2));
    let trace = TraceArgs { codebase: None, copy: None, symbol: "f".into(), depth: None };
    assert_eq!(trace.hops(), 1);
    let outline = OutlineArgs {
        codebase: None,
        copy: None,
        path: "a.rs".into(),
        max_depth: Some(2),
        kinds: Some(vec!["trait".into()]),
        include_body: None,
    };
    assert_eq!(outline.depth_limit(), Some(2));
    assert_eq!(outline.kind_list(), vec!["trait".to_string()]);
    assert!(!outline.wants_bodies());
    let references = ReferenceArgs {
        codebase: None,
        symbol: "f".into(),
        namespace: Some("Type".into()),
    };
    assert_eq!(references.wanted_namespace(), Some("Type"));
    let page = AnalysisPageArgs { codebase: None, page: None, page_size: Some(7) };
    assert_eq!(page.page_and_rows(), (0, 7));
    let batch = BatchArgs { codebase: None, symbols: Vec::new(), references: Some(true) };
    assert!(batch.wants_references());
}

#[test]
fn a_failed_edit_says_how_far_it_came() {
    assert_eq!(planning_failed("rename_symbol", "stale"), "rename_symbol planning failed: stale");
    assert_eq!(refused("undo_edit", "stale"), "undo_edit refused: stale");
    assert_eq!(
        render_failed("undo_edit", "broken"),
        "undo_edit result render failed: broken"
    );
}
