use semctl::api::{
    CodebaseFile, CodebaseSummary, EnumValue, FileContent, GrepMatch, JobStatus, Page, SearchHit,
    SymbolHits, TraceResult,
};
use semctl::mcp::tools::slice_of;
use semctl::paths::PathName;
use semctl::query::catalog::{
    human_bytes, is_stale, list_files, local_blake3, search, staleness, sync_status, CatalogHashes,
    CatalogTotals, HashWalk, LastRun, Listing, EMPTY_CATALOG,
};
use semctl::query::context::{enum_label, list_codebases, read_source, verified_local_window};
use semctl::query::lookups::{
    batch_lookup, batch_without_symbols, find_definition, grep, near_miss, near_miss_body, trace,
    Answer, MAX_SUGGESTIONS,
};
use semctl::query::render::{
    render_hits_inner, render_job, strip_verbatim_prefix, HitContext, HitStyle,
};
use semctl::query::requests::{
    definitions_url, files_url, grep_url, normalize_prefer, search_body, symbols_url, trace_url,
    urlencode, GrepRequest, SearchOpts, SymbolSearchOptions,
};
use semctl::score::Score;
use semctl::term::{ok, print_hint, say, warn};
use semctl::text::white_space;
use semctl::textmap::TextMap;

fn score(mantissa: i64, exponent: i32, text: &str) -> Score {
    Score { mantissa, exponent, text: text.to_string() }
}

/// A hit with a chosen chunk id and path.
fn node(id: &str, path: &str) -> SearchHit {
    SearchHit {
        domain_id: "code".into(),
        id: id.into(),
        score: score(0, 0, "0.000"),
        path: Some(path.into()),
        line_start: Some(1),
        line_end: Some(2),
        byte_start: Some(0),
        byte_end: Some(1),
        focus_line: Some(1),
        focus_byte: Some(0),
        snippet_line_start: Some(1),
        snippet_line_end: Some(2),
        snippet_byte_start: Some(0),
        snippet_byte_end: Some(1),
        language: Some("rust".into()),
        symbol: Some(id.into()),
        qualified_symbol: None,
        enclosing_symbol: None,
        is_write: None,
        reference_namespace: None,
        reference_kind: None,
        external_target: None,
        codebase_id: None,
        kind: "function".into(),
        snippet: String::new(),
    }
}

fn style(context: HitContext, show_score: bool) -> HitStyle {
    HitStyle { context, show_score, full_body: false }
}

#[test]
fn render_marks_only_stale_paths() {
    let hits = vec![node("a", "dirty.rs"), node("b", "clean.rs")];
    let stale = vec!["dirty.rs".to_string()];
    let out = render_hits_inner(&hits, "none", style(HitContext::local(Some("/repo")), true), &stale);
    let dirty = out.lines().find(|l| l.contains("dirty.rs")).unwrap();
    let clean = out.lines().find(|l| l.contains("clean.rs")).unwrap();
    assert!(dirty.contains("⚠ stale"), "edited file flagged");
    assert!(!clean.contains("⚠ stale"), "untouched file not flagged");
}

#[test]
fn search_locations_keep_codebases_with_the_same_path_separate() {
    let mut local = node("local", "src/lib.rs");
    local.codebase_id = Some("a".into());
    let mut remote = node("remote", "src/lib.rs");
    remote.codebase_id = Some("b".into());
    let unidentified = node("unidentified", "src/lib.rs");
    let context = HitContext::search(Some("checkout-a"), Some("a"), false);
    let stale = vec!["src/lib.rs".to_string()];
    let output = render_hits_inner(
        &vec![local, remote, unidentified],
        "none",
        style(context, true),
        &stale,
    );
    let lines: Vec<&str> = output.lines().filter(|line| line.starts_with('[')).collect();
    assert!(lines[0].contains("[codebase a]"));
    assert!(lines[0].contains("checkout-a/src/lib.rs"));
    assert!(lines[0].contains("stale"));
    assert!(lines[1].contains("[codebase b] src/lib.rs"));
    assert!(!lines[1].contains("checkout-a"));
    assert!(!lines[1].contains("stale"));
    assert!(!lines[2].contains("checkout-a"));
    assert!(!lines[2].contains("stale"));
}

#[test]
fn legacy_search_hits_use_local_paths_only_for_a_scoped_request() {
    let root = "checkout";
    let hit = node("legacy", "source.rs");
    let scoped = HitContext::search(Some(root), Some("a"), true);
    let broad = HitContext::search(Some(root), Some("a"), false);
    assert_eq!(scoped.root_for(&hit), Some(root));
    assert_eq!(broad.root_for(&hit), None);
}

#[test]
fn render_qualifies_a_reference_and_marks_a_write() {
    let mut read = node("dispatch", "run.rs");
    read.enclosing_symbol = Some("run_until".into());
    read.is_write = Some(false);
    let mut write = node("dispatch", "run.rs");
    write.enclosing_symbol = Some("reset".into());
    write.is_write = Some(true);
    let out = render_hits_inner(
        &vec![read, write],
        "none",
        style(HitContext::local(None), false),
        &Vec::new(),
    );
    let lines: Vec<&str> = out.lines().filter(|l| l.contains("run.rs")).collect();
    assert!(lines[0].contains("dispatch in run_until"), "{out}");
    assert!(!lines[0].contains("(write)"), "a read isn't marked: {out}");
    assert!(lines[1].contains("dispatch in reset"), "{out}");
    assert!(lines[1].contains("(write)"), "{out}");
}

#[test]
fn strips_drive_verbatim_prefix() {
    assert_eq!(
        strip_verbatim_prefix(r"\\?\C:\Users\dev\repo\src\lib.rs".into()),
        r"C:\Users\dev\repo\src\lib.rs"
    );
}

#[test]
fn rewrites_unc_verbatim_prefix() {
    assert_eq!(
        strip_verbatim_prefix(r"\\?\UNC\server\share\file.rs".into()),
        r"\\server\share\file.rs"
    );
}

#[test]
fn leaves_plain_paths_untouched() {
    assert_eq!(
        strip_verbatim_prefix(r"C:\already\clean.rs".into()),
        r"C:\already\clean.rs"
    );
    assert_eq!(
        strip_verbatim_prefix("/home/dev/repo/src/lib.rs".into()),
        "/home/dev/repo/src/lib.rs"
    );
}

fn job() -> JobStatus {
    JobStatus {
        files_to_embed: 10,
        files_to_delete: 2,
        files_embedded: 4,
        files_deleted: 2,
        files_failed: 3,
        chunk_count: None,
        error: None,
        started_at: Some("2026-07-14T00:00:00Z".into()),
        completed_at: None,
    }
}

#[test]
fn job_progress_counts_failed_files_as_processed() {
    let out = render_job("job-1", &job());
    assert!(out.contains("files: 9/12 processed"), "{out}");
}

#[test]
fn normalize_prefer_maps_to_server_enum_names() {
    assert_eq!(normalize_prefer("code"), Some("Code"));
    assert_eq!(normalize_prefer("  CODE "), Some("Code"));
    assert_eq!(normalize_prefer("docs"), Some("Docs"));
    assert_eq!(normalize_prefer("doc"), Some("Docs"));
    assert_eq!(normalize_prefer("nonsense"), None);
}

#[test]
fn is_stale_decisions() {
    assert!(!is_stale("abc", Some("abc")), "unchanged → fresh");
    assert!(is_stale("abc", Some("xyz")), "different hash → stale");
    assert!(is_stale("abc", None), "gone/unreadable → stale");
}

#[test]
fn local_blake3_matches_manifest_hashing() {
    let want = blake3::hash("fn main() {}\n".as_bytes()).to_hex().to_string();
    assert_eq!(local_blake3(Some("fn main() {}\n")).as_deref(), Some(want.as_str()));
    assert!(local_blake3(None).is_none());
}

#[test]
fn parameters_are_percent_encoded() {
    assert_eq!(urlencode("a-Z_0.9~"), "a-Z_0.9~");
    assert_eq!(urlencode("a b&c=d/é"), "a%20b%26c%3Dd%2F%C3%A9");
    assert_eq!(urlencode(""), "");
}

#[test]
fn urls_carry_their_parameters() {
    assert!(definitions_url("id", "a::b").ends_with("a%3A%3Ab"));
    assert!(trace_url("id", "f", 2).contains("depth=2"));
    assert!(files_url("id", 3, 1000).contains('3'));
    let request = GrepRequest {
        pattern: "x y",
        regex: true,
        ignore_case: false,
        path: Some("src/"),
        max: 7,
    };
    let url = grep_url("id", &request);
    assert!(url.contains("pattern=x%20y&regex=true&ignoreCase=false&max=7&path=src%2F"), "{url}");
    let kinds = vec!["function".to_string()];
    let options = SymbolSearchOptions {
        query: "q",
        mode: "exact",
        kinds: &kinds,
        path_prefix: None,
        project: None,
        language: Some("rust"),
        limit: 5,
    };
    assert!(symbols_url("id", &options).contains("rust"));
}

#[test]
fn a_plain_search_sends_no_options() {
    let opts = SearchOpts {
        prefer: Some("typo".to_string()),
        kinds: Vec::new(),
        expand: false,
        scope: None,
        codebase_ids: Vec::new(),
    };
    let body = search_body("q", 8, Some("id"), &Vec::new(), &opts);
    assert_eq!(body.query, "q");
    assert_eq!(body.top_k, 8);
    assert_eq!(body.codebase_id.as_deref(), Some("id"));
    assert!(body.domains.is_none() && body.kinds.is_none());
    assert!(body.prefer.is_none() && body.granularity.is_none());
    let opts = SearchOpts {
        prefer: Some("docs".to_string()),
        kinds: vec!["function".to_string()],
        expand: true,
        scope: None,
        codebase_ids: Vec::new(),
    };
    let body = search_body("q", 8, None, &vec!["code".to_string()], &opts);
    assert_eq!(body.prefer.as_deref(), Some("Docs"));
    assert_eq!(body.granularity.as_deref(), Some("Symbol"));
    assert_eq!(body.domains, Some(vec!["code".to_string()]));
    assert_eq!(body.kinds, Some(vec!["function".to_string()]));
}

#[test]
fn sizes_are_shown_in_their_unit() {
    assert_eq!(human_bytes(-5), "0 B");
    assert_eq!(human_bytes(1023), "1023 B");
    assert_eq!(human_bytes(1024), "1.0 KiB");
    assert_eq!(human_bytes(1280), "1.3 KiB");
    assert_eq!(human_bytes(1048575), "1024.0 KiB");
    assert_eq!(human_bytes(5 * 1048576 + 524288), "5.5 MiB");
    assert_eq!(human_bytes(i64::MAX), "8388608.0 TiB");
}

fn file(path: &str, hash: Option<&str>) -> CodebaseFile {
    CodebaseFile {
        path: path.to_string(),
        size: 3,
        content_hash: hash.map(str::to_string),
    }
}

fn page(files: Vec<CodebaseFile>, total: u32) -> Page<CodebaseFile> {
    Page { items: files, total, number: 0, size: 1000 }
}

#[test]
fn a_filtered_list_spans_every_page() {
    let mut listing = list_files(Some("LIB"), None, None);
    assert_eq!(listing.page(), 0);
    let first = page(vec![file("src/Lib.rs", None), file("src/main.rs", None)], 1500);
    assert!(matches!(listing.take(Ok(first), None), Listing::More));
    assert_eq!(listing.page(), 1);
    let second = page(vec![file("a/lib.rs", None)], 1500);
    match listing.take(Ok(second), None) {
        Listing::Done(text) => {
            let a = text.find("a/lib.rs").expect("found on the second page");
            let b = text.find("src/Lib.rs").expect("found on the first page");
            assert!(a < b, "{text}");
            assert!(!text.contains("main.rs"), "{text}");
        }
        Listing::More => panic!("every page was read"),
    }
    let mut empty = list_files(None, None, None);
    match empty.take(Ok(page(Vec::new(), 0)), None) {
        Listing::Done(text) => assert_eq!(text, EMPTY_CATALOG),
        Listing::More => panic!("an empty catalog has one page"),
    }
    let mut failing = list_files(None, Some(2), Some(10));
    assert_eq!(failing.page(), 2);
    match failing.take(Err("offline".to_string()), None) {
        Listing::Done(text) => assert_eq!(text, "list_files failed: offline"),
        Listing::More => panic!("a failure ends the list"),
    }
}

#[test]
fn stale_hits_are_those_that_differ() {
    let walk = CatalogHashes::new();
    assert_eq!(walk.page(), 0);
    let files = vec![
        file("same.rs", Some("1")),
        file("edited.rs", Some("1")),
        file("unknown.rs", None),
        file("gone.rs", Some("1")),
    ];
    let hashes = match walk.take(page(files, 4)) {
        HashWalk::Done(hashes) => hashes,
        HashWalk::More(_) => panic!("the catalog has one page"),
    };
    let mut local = TextMap::new();
    local.insert("same.rs".to_string(), "1".to_string());
    local.insert("edited.rs".to_string(), "2".to_string());
    local.insert("unknown.rs".to_string(), "2".to_string());
    let hits: Vec<SearchHit> = ["same.rs", "edited.rs", "unknown.rs", "gone.rs", "edited.rs"]
        .iter()
        .map(|path| node("n", path))
        .collect();
    let mut stale = staleness(Some("/repo"), &hits, &Ok(hashes), &local);
    stale.sort();
    assert_eq!(stale, vec!["edited.rs".to_string(), "gone.rs".to_string()]);
    assert!(staleness(Some("/repo"), &hits, &Err("offline".to_string()), &local).is_empty());
    let text = search(&Ok(hits), HitContext::local(Some("/repo")), false, &stale);
    assert_eq!(text.matches("⚠ stale").count(), 3, "{text}");
    assert_eq!(
        search(&Ok(Vec::new()), HitContext::local(None), false, &Vec::new()),
        "no results"
    );
}

#[test]
fn totals_come_from_the_catalog() {
    let mut totals = CatalogTotals::new();
    assert_eq!(totals.page(), 0);
    assert_eq!(
        totals.take(&page(vec![file("a", None), file("b", None)], 2)),
        Some((2, 6))
    );
    let text = sync_status(&Ok("id".to_string()), &Ok((2, 2048)), &None, false);
    assert!(text.contains("files: 2"), "{text}");
    assert!(text.contains("source bytes: 2.0 KiB (2048 bytes)"), "{text}");
    assert!(text.contains("none queued by this MCP session"), "{text}");
    let last = Some(LastRun { job_id: "job-1".to_string(), status: Ok(job()) });
    let text = sync_status(&Ok("id".to_string()), &Err("offline".to_string()), &last, true);
    assert!(text.contains("catalog totals unavailable: offline"), "{text}");
    assert!(text.contains("files: 9/12 processed"), "{text}");
    assert_eq!(
        sync_status(&Err("no codebase".to_string()), &Ok((0, 0)), &None, false),
        "sync_status failed: no codebase"
    );
}

#[test]
fn lookups_say_what_they_found() {
    assert!(matches!(find_definition(&Ok(Vec::new()), None), Answer::Suggest("definition")));
    match find_definition(&Err("offline".to_string()), None) {
        Answer::Text(text) => assert_eq!(text, "find_definition failed: offline"),
        Answer::Suggest(_) => panic!("a failure suggests nothing"),
    }
    let found = TraceResult {
        definition: vec![node("f", "a.rs")],
        callers: Vec::new(),
        callees: vec![node("g", "b.rs")],
    };
    match trace(&Ok(found), "f", None) {
        Answer::Text(text) => {
            assert!(text.starts_with("definition of `f`:\n"), "{text}");
            assert!(text.contains("\ncallers (0):\n  (none)"), "{text}");
            assert!(text.contains("\ncallees (1):\n"), "{text}");
        }
        Answer::Suggest(_) => panic!("a definition was found"),
    }
    let one = GrepMatch { path: "a.rs".to_string(), line_number: 7, line: "x  \n".to_string() };
    assert_eq!(grep(&Ok(vec![one]), "x", Some("/repo")), "/repo/a.rs:7: x\n(1 match)\n");
    assert_eq!(grep(&Ok(Vec::new()), "x", None), "no matches for `x`");
}

#[test]
fn a_batch_lists_each_symbol() {
    assert_eq!(
        batch_without_symbols(&Vec::new()).as_deref(),
        Some("(no symbols requested)")
    );
    assert!(batch_without_symbols(&vec!["f".to_string()]).is_none());
    let results = vec![
        SymbolHits { symbol: "f".to_string(), hits: vec![node("f", "a.rs")] },
        SymbolHits { symbol: "g".to_string(), hits: Vec::new() },
    ];
    assert_eq!(
        batch_lookup(&Ok(results), false, None),
        "f (1 definitions):\n  a.rs:1-2\ng — no definitions\n"
    );
}

#[test]
fn near_names_are_few_and_distinct() {
    let mut hits = Vec::new();
    for i in 0..9 {
        hits.push(node(&format!("RÉTRY_{}", i / 2 * 2), "a.rs"));
        hits.push(node(&format!("other_{i}"), "b.rs"));
    }
    for i in 0..9 {
        hits.push(node(&format!("rétry{i}"), "c.rs"));
    }
    let text = near_miss(&Ok(hits), "rétry", "definition", None);
    assert!(text.starts_with("no definition found for `rétry`"), "{text}");
    assert!(text.contains("RÉTRY_0"), "{text}");
    assert!(!text.contains("other_"), "{text}");
    assert_eq!(text.matches("a.rs").count() + text.matches("c.rs").count(), MAX_SUGGESTIONS);
    assert_eq!(
        near_miss(&Err("offline".to_string()), "f", "definition", None),
        "no definition found for `f`"
    );
    assert_eq!(near_miss_body("f", Some("id")).query, "f");
}

fn content(bytes: &[u8], start: u64, end: u64, is_binary: bool) -> FileContent {
    FileContent {
        path: "src/lib.rs".to_string(),
        content: "from the server".to_string(),
        content_hash: blake3::hash(bytes).to_hex().to_string(),
        byte_start: start,
        byte_end: end,
        size: bytes.len() as u64,
        encoding: "utf-8".to_string(),
        truncated: false,
        is_binary,
    }
}

#[test]
fn local_source_is_used_where_it_is_verified() {
    let root = PathName::from_text("/repo");
    let inside = PathName::from_text("/repo/src/lib.rs");
    let outside = PathName::from_text("/etc/passwd");
    let bytes = b"hello world";
    let window = content(bytes, 6, 11, false);
    let text = verified_local_window(&root, &inside, bytes, &window);
    assert_eq!(text.as_deref(), Some("world"));
    assert!(verified_local_window(&root, &outside, bytes, &window).is_none());
    assert!(verified_local_window(&root, &inside, b"changed", &window).is_none());
    assert!(verified_local_window(&root, &inside, bytes, &content(bytes, 6, 12, false)).is_none());
    let binary = content(&[0, 159, 146], 0, 3, true);
    assert_eq!(
        verified_local_window(&root, &inside, &[0, 159, 146], &binary).as_deref(),
        Some("AJ+S")
    );
    let split = content("é".as_bytes(), 0, 1, false);
    assert!(verified_local_window(&root, &inside, "é".as_bytes(), &split).is_none());
    let shown = read_source(&Ok(window), &text, Some("/repo"));
    assert!(shown.starts_with("/repo/src/lib.rs\nrevision "), "{shown}");
    assert!(shown.contains("source verified-local\n\nworld"), "{shown}");
    let remote = read_source(&Ok(content(bytes, 0, 5, false)), &None, None);
    assert!(remote.contains("source content-plane\n\nfrom the server"), "{remote}");
}

#[test]
fn codebases_are_listed_with_their_labels() {
    let summary = CodebaseSummary {
        id: "id-1".to_string(),
        slug: "repo".to_string(),
        display_name: "Repo".to_string(),
        source_kind: EnumValue::Number(0),
        visibility: EnumValue::Name("Private".to_string()),
        revision: None,
        graph_generation: 1,
        graph_materialized_generation: 1,
        graph_fresh: true,
    };
    let text = list_codebases(&Ok(vec![summary]), &vec!["id-1".to_string()]);
    assert!(text.contains("id-1"), "{text}");
    assert_eq!(enum_label(&EnumValue::Number(1), &["zero", "one"]), "one");
    assert_eq!(enum_label(&EnumValue::Name("Named".to_string()), &[]), "Named");
}

#[test]
fn scores_compare_exactly() {
    assert!(score(1, -1, "0.500").less_than(&score(3, -2, "0.750")));
    assert!(!score(2, -2, "0.500").less_than(&score(1, -1, "0.500")));
    assert!(score(49, 0, "49.000").is_weak(&score(99, 0, "99.000")));
    assert!(!score(50, 0, "50.000").is_weak(&score(100, 0, "100.000")));
    assert!(score(1, -1000, "0.000").less_than(&score(1, 900, "")));
}

#[test]
fn terminal_lines_are_marked() {
    assert!(say("hello").contains("hello"));
    assert!(ok("done").contains("done"));
    assert!(warn("careful").contains("careful"));
    assert!(print_hint("semctl index").contains("semctl index"));
    assert_eq!(slice_of(&Some("x".to_string())), Some("x"));
}

#[test]
fn white_space_is_the_unicode_property() {
    for n in 0..=0x10FFFFu32 {
        if let Some(c) = char::from_u32(n) {
            assert_eq!(white_space(c), c.is_whitespace(), "{n:x}");
        }
    }
}
