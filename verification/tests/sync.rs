use std::collections::BTreeMap;
use std::io::Write;

use ignore::gitignore::Gitignore;
use semctl::api::{ManifestEntry, SyncFileContent};
use semctl::engine::watch_hub::{watched_directory, AccessKind, AccessMode, Event, EventKind};
use semctl::paths::PathName;
use semctl::sync::cache::{kept, usable, CacheState, CachedContent, SYNC_CACHE_FORMAT_VERSION};
use semctl::sync::policy::checked::{
    directories_to_load, rule_files, watch_target, DirectoryFiles, RelevanceStep, RepositoryFiles,
    SourcePolicy,
};
use semctl::sync::policy::git::{
    capture_name, check_query, common_directory, default_excludes, git_home_dir,
    global_config_paths, has_answered, listing_origins, read_excludes, read_marker, Configuration, GitAnswer, GitEnvironment,
    GitOutcome, MAX_CONFIGURATION_BYTES, xdg_config_dir,
};
use semctl::sync::policy::names::{event_may_affect_policy, is_private_path};
use semctl::sync::policy::rules::exclude_overrides;
use semctl::sync::policy::sources::{inspect, Found, InspectStep, PathKind, Sources};
use semctl::sync::relevance::{batch_may_matter, CheckStep, RelevanceCheck};
use semctl::sync::run::{milestone, SyncAction, SyncEvent, SyncPlan, SyncRun};
use semctl::sync::scan::{PreparedFile, Scan, ScanEnd, ScanResult, RETAINED_CONTENT_BYTES};
use semctl::sync::source::{check_read, check_target, manifest_path};
use semctl::sync::upload::{
    BatchReply, Files, Preparation, PrepareAction, PrepareEvent, Upload, UploadAction, UploadEvent,
    UPLOAD_BATCH_BYTES, UPLOAD_BATCH_FILES, UPLOAD_PARALLEL_REQUESTS,
};
use semctl::sync::walker::{
    has_uploadable_content, is_indexable, looks_generated, looks_minified, visit, EntryKind,
    EntryStep, Walk, DEFAULT_EXCLUDE_FILE_GLOBS, IGNORE_FILES, MAX_FILE_BYTES,
};
use semctl::sync::{JobRegistry, SyncProgress};
use semctl::textmap::TextMap;

/// A checkout in memory: directories without content, files with it, and links
/// with the paths that they lead to.
struct Tree {
    root: String,
    entries: BTreeMap<String, Option<Vec<u8>>>,
    links: BTreeMap<String, String>,
}

impl Tree {
    fn new() -> Tree {
        let root = "/work/checkout".to_string();
        let mut entries = BTreeMap::new();
        entries.insert("/work".to_string(), None);
        entries.insert(root.clone(), None);
        Tree { root, entries, links: BTreeMap::new() }
    }

    fn path(&self, rel: &str) -> PathName {
        PathName::from_text(&format!("{}/{rel}", self.root))
    }

    fn root(&self) -> PathName {
        PathName::from_text(&self.root)
    }

    fn mkdir(&mut self, rel: &str) {
        let mut at = self.root.clone();
        for part in rel.split('/') {
            at = format!("{at}/{part}");
            self.entries.insert(at.clone(), None);
        }
    }

    fn write(&mut self, rel: &str, content: &str) {
        if let Some((parent, _)) = rel.rsplit_once('/') {
            self.mkdir(parent);
        }
        self.entries
            .insert(format!("{}/{rel}", self.root), Some(content.as_bytes().to_vec()));
    }

    fn remove(&mut self, rel: &str) {
        self.entries.remove(&format!("{}/{rel}", self.root));
    }

    fn link(&mut self, rel: &str, target: &str) {
        self.links.insert(format!("{}/{rel}", self.root), target.to_string());
    }

    /// The bytes of a file of the checkout, once its live path was checked.
    fn checked(&self, rel: &str) -> Result<Vec<u8>, String> {
        manifest_path(rel)?;
        let path = self.path(rel);
        let target = match self.links.get(&path.display()) {
            Some(target) => PathName::from_text(target),
            None => path,
        };
        match self.found(&target) {
            Found::Missing => Err(format!("resolve checkout file {rel}")),
            Found::Directory(_) => {
                check_target(&self.root(), rel, &target, false)?;
                unreachable!()
            }
            Found::File(bytes) => {
                check_target(&self.root(), rel, &target, true)?;
                Ok(bytes)
            }
        }
    }

    fn found(&self, path: &PathName) -> Found {
        match self.entries.get(&path.display()) {
            None => Found::Missing,
            Some(None) => Found::Directory(path.copy()),
            Some(Some(bytes)) => Found::File(bytes.clone()),
        }
    }

    fn observe(&self, path: PathName) -> (PathName, Found) {
        let found = self.found(&path);
        (path, found)
    }

    fn directory_files(&self, directory: &PathName) -> DirectoryFiles {
        let files = rule_files(directory);
        let marker = self.observe(files.marker);
        let repository = match &marker.1 {
            Found::Directory(git_dir) => Some(RepositoryFiles {
                links: vec![
                    self.observe(git_dir.child(b"commondir")),
                    self.observe(git_dir.child(b"config")),
                    self.observe(git_dir.child(b"config.worktree")),
                ],
                exclude: vec![self.observe(git_dir.child(b"info").child(b"exclude"))],
                settings: Vec::new(),
                global: Vec::new(),
            }),
            _ => None,
        };
        DirectoryFiles {
            custom: files.custom.into_iter().map(|path| self.observe(path)).collect(),
            ignore: vec![self.observe(files.ignore)],
            gitignore: vec![self.observe(files.gitignore)],
            marker,
            repository,
        }
    }

    fn load(&self) -> Result<SourcePolicy, String> {
        let mut policy = SourcePolicy::new(self.root(), Sources::new(), Gitignore::empty());
        for directory in directories_to_load(&self.root()) {
            policy.load_directory(&directory, &self.directory_files(&directory))?;
        }
        Ok(policy)
    }

    fn verify(&self, sources: &Sources) -> Result<(), String> {
        let now: Vec<Found> = sources
            .entries()
            .iter()
            .map(|(path, _)| self.found(path))
            .collect();
        sources.verify(&now)
    }

    fn relevant(&self, policy: &mut SourcePolicy, path: &PathName) -> bool {
        loop {
            match policy.event_is_relevant(path, false, &Vec::new()) {
                RelevanceStep::Answer(answer) => return answer,
                RelevanceStep::Load(directory) => {
                    let files = self.directory_files(&directory);
                    policy.load_directory(&directory, &files).expect("load rules");
                }
            }
        }
    }

    fn children(&self, directory: &PathName) -> Vec<(PathName, EntryKind)> {
        let prefix = format!("{}/", directory.display());
        self.entries
            .iter()
            .filter(|(path, _)| {
                path.strip_prefix(&prefix)
                    .is_some_and(|rest| !rest.is_empty() && !rest.contains('/'))
            })
            .map(|(path, content)| {
                let kind = match content {
                    None => EntryKind::Directory,
                    Some(_) => EntryKind::File,
                };
                (PathName::from_text(path), kind)
            })
            .collect()
    }

    fn walk(&self, max: u64) -> Result<Vec<String>, String> {
        let globs = exclude_overrides(&self.root, &DEFAULT_EXCLUDE_FILE_GLOBS)?;
        let mut policy = self.load()?;
        let mut walk = Walk::new(&self.root());
        while let Some(directory) = walk.next_directory() {
            policy.load_directory(&directory, &self.directory_files(&directory))?;
            for (path, kind) in self.children(&directory) {
                match visit(&policy, &globs, &path, kind) {
                    EntryStep::Skip => {}
                    EntryStep::Descend => walk.descend(path),
                    EntryStep::Measure => {
                        let size = match self.found(&path) {
                            Found::File(bytes) => bytes.len() as u64,
                            _ => 0,
                        };
                        walk.take(&path, size, max)?;
                    }
                }
            }
        }
        Ok(walk.finish().into_iter().map(|candidate| candidate.rel).collect())
    }

    fn scan(&self, cache: TextMap<CachedContent>) -> Result<ScanResult, String> {
        match self.scan_candidates(cache, self.walk(MAX_FILE_BYTES)?) {
            ScanEnd::Done(result) => Ok(result),
            ScanEnd::Failed { reason, .. } => Err(reason),
        }
    }

    fn scan_candidates(&self, cache: TextMap<CachedContent>, candidates: Vec<String>) -> ScanEnd {
        let mut scan = Scan::new(cache);
        for rel in candidates {
            if scan.read(&rel, &self.checked(&rel)).is_err() {
                break;
            }
        }
        scan.finish(Ok(()))
    }
}

#[test]
fn honors_nested_gitignore_without_a_git_dir() {
    let mut tree = Tree::new();
    tree.write("svc/.gitignore", "bin/\n");
    tree.write("svc/bin/artifact.json", "{\"built\": true}\n");
    tree.write("svc/main.rs", "fn main() {}\n");
    let names = tree.walk(MAX_FILE_BYTES).unwrap();
    assert!(names.iter().any(|n| n == "svc/main.rs"), "got {names:?}");
    assert!(
        !names.iter().any(|n| n.contains("bin/")),
        "nested .gitignore not applied: {names:?}"
    );
}

#[test]
fn excludes_default_file_globs_without_hiding_source_directories() {
    let mut tree = Tree::new();
    tree.write("real.rs", "fn a() {}\n");
    tree.write("node_modules/dep/index.js", "x\n");
    tree.write("vendor/lib/source.go", "package lib\n");
    tree.write("testdata/case/input.rs", "fn input() {}\n");
    tree.write("Cargo.lock", "[[package]]\n");
    tree.write("app.min.js", "a\n");
    assert_eq!(
        tree.walk(MAX_FILE_BYTES).unwrap(),
        vec![
            "node_modules/dep/index.js",
            "real.rs",
            "testdata/case/input.rs",
            "vendor/lib/source.go"
        ]
    );
}

#[test]
fn size_cap_excludes_large_files() {
    let mut tree = Tree::new();
    tree.write("small.txt", "hi\n");
    tree.write("big.txt", &"x\n".repeat(100));
    assert_eq!(tree.walk(10).unwrap(), vec!["small.txt"]);
}

#[test]
fn is_indexable_rejects_empty_generated_minified() {
    assert!(is_indexable("fn main() {}\n"));
    assert!(!is_indexable(""), "empty");
    assert!(!is_indexable(" \n\t\r\n"), "whitespace-only");
    assert!(!is_indexable("// @generated by prost\nstruct X;\n"), "generated");
    assert!(!is_indexable(&format!("var x={};", "1".repeat(3000))), "minified");
}

#[test]
fn each_reason_not_to_index_stands_alone() {
    assert!(!has_uploadable_content("\u{3000}\n"));
    assert!(has_uploadable_content("x"));
    assert!(looks_generated("a\nb\nc\nd\ne\nf\ng\n// Code generated by x. DO NOT EDIT\n"));
    assert!(!looks_generated("a\nb\nc\nd\ne\nf\ng\nh\n// @generated\n"));
    assert!(!looks_minified(&"x".repeat(2000)));
    assert!(looks_minified(&"x".repeat(2001)));
    assert!(looks_minified(&format!("short\n{}\n", "é".repeat(1001))));
}

#[test]
fn malformed_ignore_rules_abort_the_walk() {
    let mut tree = Tree::new();
    tree.write(".semctxignore", "{unterminated\n");
    tree.write("main.rs", "fn main() {}\n");
    assert!(tree.walk(MAX_FILE_BYTES).is_err());
}

#[test]
fn an_unreadable_ignore_path_aborts_the_walk() {
    let mut tree = Tree::new();
    tree.mkdir(".semctxignore");
    tree.write("main.rs", "fn main() {}\n");
    let error = tree.walk(MAX_FILE_BYTES).unwrap_err();
    assert!(error.contains("policy path is a directory"), "{error}");
}

#[test]
fn both_project_ignore_names_apply_in_nested_directories() {
    let mut tree = Tree::new();
    for (index, name) in IGNORE_FILES.iter().enumerate() {
        tree.write(&format!("part{index}/{name}"), "private.txt\n");
        tree.write(&format!("part{index}/private.txt"), "TEST DATA\n");
        tree.write(&format!("part{index}/main.rs"), "fn main() {}\n");
    }
    assert_eq!(
        tree.walk(MAX_FILE_BYTES).unwrap(),
        vec!["part0/main.rs", "part1/main.rs"]
    );
}

#[test]
fn changed_or_new_rules_invalidate_a_loaded_policy() {
    for existed in [false, true] {
        let mut tree = Tree::new();
        if existed {
            tree.write(".semctlignore", "old.txt\n");
        }
        let policy = tree.load().unwrap_or_else(|e| panic!("{e}"));
        assert!(tree.verify(policy.sources()).is_ok());
        tree.write(".semctlignore", "private.txt\n");
        assert!(tree.verify(policy.sources()).is_err());
    }
}

#[test]
fn a_repository_that_appears_invalidates_a_loaded_policy() {
    let mut tree = Tree::new();
    let policy = tree.load().unwrap_or_else(|e| panic!("{e}"));
    tree.mkdir(".git");
    assert_eq!(
        tree.verify(policy.sources()),
        Err("source policy changed during sync: /work/checkout/.git".to_string())
    );
    let repository = tree.load().unwrap_or_else(|e| panic!("{e}"));
    tree.write(".git/info/exclude", "private.rs\n");
    assert!(tree.verify(repository.sources()).is_err());
}

#[test]
fn custom_rule_precedence_and_nested_whitelists_match_the_walker() {
    let mut tree = Tree::new();
    tree.write(".gitignore", "*.txt\n");
    tree.write(".semctxignore", "!allowed.txt\n");
    tree.write(".semctlignore", "allowed.txt\n");
    tree.write("src/.semctlignore", "!allowed.txt\n");
    let mut policy = tree.load().unwrap_or_else(|e| panic!("{e}"));
    let child = tree.path("src");
    policy
        .load_directory(&child, &tree.directory_files(&child))
        .unwrap();
    assert!(!policy.includes(&tree.path("allowed.txt"), false));
    assert!(policy.includes(&tree.path("src/allowed.txt"), false));
    assert!(!policy.includes(&tree.path("src/other.txt"), false));
    assert!(tree.relevant(&mut policy, &tree.path("src/allowed.txt")));
    assert!(!tree.relevant(&mut policy, &tree.path("src/other.txt")));
}

const PRECEDENCE: [(&str, &str); 18] = [
    ("nested/.git/config", "[core]\nrepositoryformatversion = 0\n"),
    ("nested/.git/HEAD", "ref: refs/heads/main\n"),
    (".gitignore", "*.tmp\nblocked/\n*.data\n"),
    (".ignore", "*.txt\n"),
    (".semctxignore", "!custom.txt\n"),
    (".semctlignore", "custom.txt\n"),
    ("nested/.gitignore", "!allowed.data\n"),
    ("nested/.semctlignore", "!custom.txt\n"),
    ("nested/.git/info/exclude", "private.rs\n"),
    ("main.rs", "fixture\n"),
    ("hidden.tmp", "fixture\n"),
    ("custom.txt", "fixture\n"),
    ("nested/custom.txt", "fixture\n"),
    ("nested/allowed.data", "fixture\n"),
    ("nested/hidden.data", "fixture\n"),
    ("nested/private.rs", "fixture\n"),
    ("blocked/private.rs", "fixture\n"),
    ("nested/.git/refs/keep", ""),
];

/// Puts the entries of a tree on disk; they go away with what is returned.
fn on_disk(tree: &Tree) -> (tempfile::TempDir, Vec<tempfile::TempDir>, Vec<tempfile::NamedTempFile>) {
    let base = tempfile::tempdir().unwrap();
    let mut directories = Vec::new();
    let mut files = Vec::new();
    for (path, content) in tree.entries.iter() {
        let rel = match path.strip_prefix(&format!("{}/", tree.root)) {
            Some(rel) => rel,
            None => continue,
        };
        let target = base.path().join(rel);
        let name = target.file_name().unwrap().to_os_string();
        let mut builder = tempfile::Builder::new();
        builder.prefix(&name).rand_bytes(0);
        let parent = target.parent().unwrap();
        match content {
            None => directories.push(builder.tempdir_in(parent).unwrap()),
            Some(bytes) => {
                let mut file = builder.tempfile_in(parent).unwrap();
                file.write_all(bytes).unwrap();
                files.push(file);
            }
        }
    }
    (base, directories, files)
}

#[test]
fn policy_preserves_ignore_precedence_across_nested_repositories() {
    let mut tree = Tree::new();
    tree.mkdir("nested/.git/objects");
    for (path, content) in PRECEDENCE {
        tree.write(path, content);
    }
    let (base, _directories, _files) = on_disk(&tree);
    let mut builder = ignore::WalkBuilder::new(base.path());
    builder.require_git(false);
    for name in IGNORE_FILES {
        builder.add_custom_ignore_filename(name);
    }
    let mut expected: Vec<String> = builder
        .build()
        .map(Result::unwrap)
        .filter(|entry| entry.file_type().is_some_and(|kind| kind.is_file()))
        .map(|entry| {
            let rel = entry.path().strip_prefix(base.path()).unwrap();
            rel.to_str().unwrap().to_string()
        })
        .collect();
    expected.sort();
    assert_eq!(tree.walk(MAX_FILE_BYTES).unwrap(), expected);
    assert_eq!(
        expected,
        vec!["main.rs", "nested/allowed.data", "nested/custom.txt"]
    );
}

#[test]
fn ignored_directory_rules_are_not_loaded() {
    let mut tree = Tree::new();
    tree.write(".gitignore", "ignored/\n");
    tree.mkdir("ignored/.semctlignore");
    tree.write("main.rs", "fn main() {}\n");
    assert_eq!(tree.walk(MAX_FILE_BYTES).unwrap(), vec!["main.rs"]);
}

#[test]
fn explicit_whitelists_cannot_expose_private_recovery_files() {
    let mut tree = Tree::new();
    tree.write(".semctlignore", "!*\n");
    tree.write(".semctl-123456abcdef-0.edit/preimage", "private fixture\n");
    tree.write(".semctl-123456abcdef-1.tmp", "private fixture\n");
    tree.write(".semctl-123456abcdef-1.bak", "private fixture\n");
    tree.write("main.rs", "fn main() {}\n");
    let mut policy = tree.load().unwrap_or_else(|e| panic!("{e}"));
    let preimage = tree.path(".semctl-123456abcdef-0.edit/preimage");
    assert!(!tree.relevant(&mut policy, &preimage));
    let names = tree.walk(MAX_FILE_BYTES).unwrap();
    assert!(names
        .iter()
        .all(|name| !is_private_path(&PathName::from_text(name))));
    assert!(names.iter().any(|name| name == "main.rs"));
}

#[test]
fn retargeting_a_git_directory_symlink_invalidates_the_snapshot() {
    let tree = Tree::new();
    let marker = tree.path(".git");
    let mut sources = Sources::new();
    sources
        .observe(&marker, &Found::Directory(tree.path("first")))
        .unwrap();
    assert!(sources
        .verify(&vec![Found::Directory(tree.path("first"))])
        .is_ok());
    assert!(sources
        .verify(&vec![Found::Directory(tree.path("second"))])
        .is_err());
}

#[test]
fn private_policy_probe_events_cannot_create_a_watch_feedback_loop() {
    let root = PathName::from_text("/checkout");
    let observed = Vec::new();
    let may = |path: &str| event_may_affect_policy(&root, &PathName::from_text(path), &observed);
    assert!(!may("/tmp/.semctl-123456abcdef-1.tmp"));
    assert!(!may("/checkout/.semctl-123456abcdef-1.tmp"));
    assert!(!may("/tmp/unrelated"));
    assert!(may("/checkout/main.rs"));
}

fn decision() -> CachedContent {
    CachedContent { hash: "abc123".to_string(), indexable: true }
}

#[test]
fn persistent_cache_round_trips_content_decisions() {
    let mut files = TextMap::new();
    files.insert("src/main.rs".to_string(), decision());
    files.insert(
        "generated.rs".to_string(),
        CachedContent { hash: "excluded".to_string(), indexable: false },
    );
    let stored = usable(SYNC_CACHE_FORMAT_VERSION, files).expect("the same format is read back");
    assert_eq!(stored.len(), 2);
    assert_eq!(stored.get("src/main.rs").unwrap().hash, "abc123");
    assert!(stored.get("src/main.rs").unwrap().indexable);
    assert_eq!(stored.get("generated.rs").unwrap().hash, "excluded");
    assert!(!stored.get("generated.rs").unwrap().indexable);
}

#[test]
fn unknown_cache_format_is_a_clean_miss() {
    let mut files = TextMap::new();
    files.insert("src/main.rs".to_string(), decision());
    assert!(usable(SYNC_CACHE_FORMAT_VERSION + 1, files).is_none());
}

#[test]
fn decisions_on_files_that_are_gone_are_dropped() {
    let mut files = TextMap::new();
    files.insert("a.rs".to_string(), decision());
    files.insert("b.rs".to_string(), decision());
    let mut seen = TextMap::new();
    seen.insert("b.rs".to_string(), true);
    let rest = kept(&files, &seen);
    assert_eq!(rest.len(), 1);
    assert!(rest.get("b.rs").is_some());
    let mut cache = CacheState::persistent();
    assert!(cache.must_load("source"));
    assert!(!CacheState::new().must_load("source"));
    assert!(cache.files.remove("a.rs").is_none());
    cache.load_persistent("source", Some("/cache/source.json".to_string()), Some(files));
    assert_eq!(cache.files.len(), 2);
    assert_eq!(cache.save_path().as_deref(), Some("/cache/source.json"));
    assert!(!cache.must_load("source"));
    cache.load_persistent("other", None, None);
    assert_eq!(cache.files.len(), 0, "another source's decisions are forgotten");
    assert!(cache.save_path().is_none());
}

#[test]
fn repeat_scan_reuses_byte_verified_content_decisions() {
    let mut tree = Tree::new();
    tree.write("main.rs", "fn main() {}\n");
    tree.write("blank.txt", " \n\t");
    tree.write("generated.rs", "// @generated by a test\nstruct Generated;\n");
    let first = tree.scan(TextMap::new()).unwrap_or_else(|e| panic!("{e}"));
    assert_eq!(first.manifest.len(), 1);
    assert_eq!(first.changed.len(), 1);
    assert_eq!(first.cached_files, 0);
    assert!(first.cache.get("blank.txt").is_some_and(|stamp| !stamp.indexable));
    assert!(first.cache.get("generated.rs").is_some_and(|stamp| !stamp.indexable));
    assert_eq!(
        first.manifest[0].hash,
        blake3::hash(b"fn main() {}\n").to_hex().to_string()
    );

    let second = tree.scan(first.cache).unwrap_or_else(|e| panic!("{e}"));
    assert_eq!(second.manifest.len(), 1);
    assert_eq!(second.changed.len(), 0);
    assert_eq!(second.cached_files, 1);
}

#[test]
fn a_file_read_failure_aborts_the_complete_manifest() {
    let mut tree = Tree::new();
    tree.write("first.rs", "fn first() {}\n");
    tree.write("main.rs", "fn main() {}\n");
    tree.write("zero.rs", "fn zero() {}\n");
    let candidates = tree.walk(MAX_FILE_BYTES).unwrap();
    tree.remove("main.rs");
    let mut known = TextMap::new();
    known.insert("gone.rs".to_string(), decision());
    match tree.scan_candidates(known, candidates) {
        ScanEnd::Done(_) => panic!("a candidate is gone"),
        ScanEnd::Failed { reason, cache } => {
            assert_eq!(reason, "resolve checkout file main.rs");
            assert!(cache.get("gone.rs").is_some(), "earlier decisions are kept");
            assert!(cache.get("first.rs").is_some(), "and so are new ones");
            assert!(cache.get("zero.rs").is_none());
        }
    }
}

#[test]
fn a_scan_under_changed_rules_gives_no_manifest() {
    let mut scan = Scan::new(TextMap::new());
    assert!(scan.read("main.rs", &Ok(b"fn main() {}\n".to_vec())).is_ok());
    assert!(matches!(
        scan.finish(Err("source policy changed".to_string())),
        ScanEnd::Failed { reason, .. } if reason == "source policy changed"
    ));
    let mut scan = Scan::new(TextMap::new());
    assert_eq!(scan.read("a.rs", &Err("denied".to_string())), Err("denied".to_string()));
    assert_eq!(
        scan.read("b.rs", &Ok(b"fn b() {}\n".to_vec())),
        Err("denied".to_string()),
        "a failed scan reads nothing more"
    );
}

#[test]
fn retained_scan_content_has_a_fixed_memory_limit() {
    let mut tree = Tree::new();
    tree.write("large.txt", &"x\n".repeat(RETAINED_CONTENT_BYTES / 2 + 1));
    let scan = tree.scan(TextMap::new()).unwrap_or_else(|e| panic!("{e}"));
    assert_eq!(scan.manifest.len(), 1);
    assert_eq!(scan.changed.len(), 0);
}

fn prepare(entries: &[(&str, &str)], retain: bool) -> Files {
    let mut manifest = Vec::new();
    let mut changed = TextMap::new();
    let mut requested = Vec::new();
    for (path, content) in entries {
        let prepared = PreparedFile::new((*content).to_string());
        manifest.push(ManifestEntry {
            path: (*path).to_string(),
            hash: prepared.hash.clone(),
            size: i64::try_from(content.len()).unwrap(),
        });
        requested.push((*path).to_string());
        if retain {
            changed.insert((*path).to_string(), prepared);
        }
    }
    Files::new(&requested, &manifest, changed).unwrap_or_else(|e| panic!("{e}"))
}

fn prepare_next(files: Files, tree: &Tree) -> Result<(Files, Vec<SyncFileContent>), String> {
    let mut preparation = Preparation::new(files);
    let mut event = PrepareEvent::Verified(Ok(()));
    loop {
        event = match preparation.step(event) {
            PrepareAction::VerifyPolicy => PrepareEvent::Verified(Ok(())),
            PrepareAction::Check { path, retained } => {
                let checked = tree.checked(&path);
                PrepareEvent::Checked(checked.map(|bytes| if retained { None } else { Some(bytes) }))
            }
            PrepareAction::Ready(batch) => return Ok((preparation.into_files(), batch)),
            PrepareAction::Fail(reason) => return Err(reason),
        };
    }
}

#[test]
fn upload_reuses_content_and_hash_from_the_manifest_scan() {
    let mut tree = Tree::new();
    let files = prepare(&[("main.rs", "fn original() {}\n")], true);
    tree.write("main.rs", "fn later_edit() {}\n");
    let (files, batch) = prepare_next(files, &tree).unwrap_or_else(|e| panic!("{e}"));
    let expected = blake3::hash(b"fn original() {}\n").to_hex().to_string();
    assert_eq!(batch[0].content, "fn original() {}\n");
    assert_eq!(batch[0].hash.as_deref(), Some(expected.as_str()));
    assert_eq!(files.remaining(), 0);
}

#[test]
fn server_requests_must_belong_to_the_submitted_manifest() {
    for requested in ["../outside.txt", "/work/checkout/outside.txt", "ignored.txt"] {
        let result = Files::new(&vec![requested.to_string()], &Vec::new(), TextMap::new());
        assert!(result.is_err());
    }
}

#[test]
fn duplicate_server_requests_are_rejected() {
    let prepared = PreparedFile::new("fn main() {}\n".to_string());
    let manifest = vec![ManifestEntry {
        path: "main.rs".to_string(),
        hash: prepared.hash.clone(),
        size: 13,
    }];
    let result = Files::new(
        &vec!["main.rs".to_string(), "main.rs".to_string()],
        &manifest,
        TextMap::new(),
    );
    assert!(result.is_err());
}

#[test]
fn reread_content_must_match_the_manifest_hash() {
    let mut tree = Tree::new();
    let files = prepare(&[("main.rs", "fn old() {}\n")], false);
    tree.write("main.rs", "fn new() {}\n");
    match prepare_next(files, &tree) {
        Ok(_) => panic!("the content changed"),
        Err(error) => assert!(error.contains("changed after the manifest"), "{error}"),
    }
}

#[test]
fn reread_blank_content_is_rejected_before_upload() {
    let mut tree = Tree::new();
    let files = prepare(&[("main.rs", "fn old() {}\n")], false);
    tree.write("main.rs", " \n\t");
    assert!(prepare_next(files, &tree).is_err());
}

#[test]
fn symlink_replacement_cannot_escape_the_checkout() {
    for retain in [false, true] {
        let mut tree = Tree::new();
        tree.write("main.rs", "fn main() {}\n");
        let files = prepare(&[("main.rs", "fn main() {}\n")], retain);
        tree.entries.insert(
            "/work/outside.txt".to_string(),
            Some(b"TEST DATA OUTSIDE CHECKOUT".to_vec()),
        );
        tree.remove("main.rs");
        tree.link("main.rs", "/work/outside.txt");
        match prepare_next(files, &tree) {
            Ok(_) => panic!("the file leads out of the checkout"),
            Err(error) => assert!(error.contains("escapes its root"), "{error}"),
        }
    }
}

#[test]
fn a_batch_is_prepared_under_verified_rules() {
    let files = || prepare(&[("main.rs", "fn main() {}\n")], true);
    let reason = |action: PrepareAction| match action {
        PrepareAction::Fail(reason) => reason,
        _ => panic!("the preparation goes on"),
    };
    let refused = || PrepareEvent::Verified(Err("rules changed".to_string()));
    assert_eq!(
        reason(Preparation::new(files()).step(refused())),
        "prepare upload batch: rules changed"
    );
    let mut preparation = Preparation::new(files());
    assert!(matches!(
        preparation.step(PrepareEvent::Verified(Ok(()))),
        PrepareAction::Check { path, retained: true } if path == "main.rs"
    ));
    assert!(matches!(
        preparation.step(PrepareEvent::Checked(Ok(None))),
        PrepareAction::VerifyPolicy
    ));
    assert_eq!(reason(preparation.step(refused())), "prepare upload batch: rules changed");
    assert_eq!(
        reason(preparation.step(PrepareEvent::Checked(Ok(None)))),
        "the preparation is out of order"
    );
    let broken = ManifestEntry { path: "a.rs".into(), hash: String::new(), size: -1 };
    let files = Files::new(&vec!["a.rs".to_string()], &vec![broken], TextMap::new())
        .unwrap_or_else(|e| panic!("{e}"));
    assert_eq!(
        reason(Preparation::new(files).step(PrepareEvent::Verified(Ok(())))),
        "prepare upload batch: invalid manifest file size: out of range integral type conversion attempted"
    );
}

#[test]
fn a_source_file_stays_the_same_while_it_is_read() {
    let root = PathName::from_text("/work/checkout");
    let inside = PathName::from_text("/work/checkout/src/main.rs");
    assert!(check_target(&root, "src/main.rs", &inside, true).is_ok());
    assert!(check_read("src/main.rs", 10, &inside, &inside.copy()).is_ok());
    let moved = PathName::from_text("/work/checkout/src/other.rs");
    assert!(check_read("src/main.rs", 10, &inside, &moved).is_err());
    assert!(manifest_path("src/main.rs").is_ok());
    for path in ["", "/etc/passwd", "../outside", "src/../../outside"] {
        assert!(manifest_path(path).is_err(), "{path:?}");
    }
}

#[test]
fn tiny_files_are_split_by_count() {
    let mut tree = Tree::new();
    let names: Vec<String> = (0..=UPLOAD_BATCH_FILES).map(|n| format!("src/{n}.rs")).collect();
    let entries: Vec<(&str, &str)> = names
        .iter()
        .map(|path| (path.as_str(), "fn tiny() {}\n"))
        .collect();
    for name in &names {
        tree.write(name, "fn tiny() {}\n");
    }
    let files = prepare(&entries, true);
    let (files, first) = prepare_next(files, &tree).unwrap_or_else(|e| panic!("{e}"));
    assert_eq!(first.len(), UPLOAD_BATCH_FILES);
    assert_eq!(files.remaining(), 1);
    let (_, second) = prepare_next(files, &tree).unwrap_or_else(|e| panic!("{e}"));
    assert_eq!(second.len(), 1);
    assert_eq!(second[0].path, names[UPLOAD_BATCH_FILES]);
}

#[test]
fn large_files_are_read_one_batch_at_a_time() {
    let mut tree = Tree::new();
    let content = "x\n".repeat(UPLOAD_BATCH_BYTES / 2);
    tree.write("first.txt", &content);
    tree.write("second.txt", &content);
    let files = prepare(&[("first.txt", &content), ("second.txt", &content)], false);
    let (files, first) = prepare_next(files, &tree).unwrap_or_else(|e| panic!("{e}"));
    assert_eq!(first.len(), 1);
    tree.remove("second.txt");
    assert!(prepare_next(files, &tree).is_err());
}

fn uploading(upload: &Upload) -> (usize, usize) {
    match upload.progress() {
        SyncProgress::Uploading { uploaded_files, total_files } => (uploaded_files, total_files),
        _ => panic!("an upload reports its files"),
    }
}

#[test]
fn the_final_batch_waits_for_every_other_answer() {
    let stored = |slot: usize| UploadEvent::Answered { slot, reply: BatchReply::Stored };
    let (mut upload, first) = Upload::new("/url".to_string(), 6);
    assert!(matches!(first, UploadAction::Prepare));
    for count in 1..=UPLOAD_PARALLEL_REQUESTS {
        assert!(matches!(
            upload.step(UploadEvent::Prepared(Ok(1))),
            UploadAction::Send { url, last: Some(false) } if url == "/url"
        ));
        assert!(matches!(upload.step(UploadEvent::Sent), UploadAction::Prepare), "{count}");
    }
    assert!(
        matches!(upload.step(UploadEvent::Prepared(Ok(2))), UploadAction::Wait),
        "no more requests are sent at once"
    );
    assert!(matches!(
        upload.step(stored(2)),
        UploadAction::Send { last: Some(false), .. }
    ));
    assert_eq!(uploading(&upload), (1, 6));
    assert!(matches!(upload.step(UploadEvent::Sent), UploadAction::Wait));
    for _ in 0..3 {
        assert!(matches!(upload.step(stored(0)), UploadAction::Wait));
    }
    assert_eq!(uploading(&upload), (4, 6));
    assert!(matches!(
        upload.step(stored(0)),
        UploadAction::Complete { url } if url == "/url"
    ));
    assert_eq!(uploading(&upload), (6, 6));
    assert!(matches!(
        upload.step(UploadEvent::Completed(Ok(()))),
        UploadAction::Done(6)
    ));
}

#[test]
fn a_single_batch_is_one_request() {
    let (mut upload, _) = Upload::new("/url".to_string(), 3);
    assert!(matches!(
        upload.step(UploadEvent::Prepared(Ok(3))),
        UploadAction::Send { last: None, .. }
    ));
    assert!(matches!(upload.step(UploadEvent::Sent), UploadAction::Wait));
    let stored = UploadEvent::Answered { slot: 0, reply: BatchReply::Stored };
    assert!(matches!(upload.step(stored), UploadAction::Done(3)));
    assert!(matches!(Upload::new("/url".to_string(), 0).1, UploadAction::Done(0)));
}

#[test]
fn a_failed_upload_says_what_failed() {
    let reason = |action: UploadAction| match action {
        UploadAction::Fail(reason) => reason,
        _ => panic!("the upload goes on"),
    };
    let sent = || {
        let (mut upload, _) = Upload::new("/url".to_string(), 3);
        upload.step(UploadEvent::Prepared(Ok(3)));
        upload.step(UploadEvent::Sent);
        upload
    };
    let refused = BatchReply::Refused("too large".to_string());
    assert_eq!(
        reason(sent().step(UploadEvent::Answered { slot: 0, reply: refused })),
        "upload 3 files: too large"
    );
    let lost = BatchReply::Lost("cancelled".to_string());
    assert_eq!(
        reason(sent().step(UploadEvent::Answered { slot: 0, reply: lost })),
        "upload task: cancelled"
    );
    assert_eq!(
        reason(sent().step(UploadEvent::Answered { slot: 1, reply: BatchReply::Stored })),
        "the upload is out of order"
    );
    let (mut upload, _) = Upload::new("/url".to_string(), 2);
    assert_eq!(
        reason(upload.step(UploadEvent::Prepared(Err("a.rs changed".to_string())))),
        "a.rs changed"
    );
    let (mut upload, _) = Upload::new("/url".to_string(), 2);
    for _ in 0..2 {
        upload.step(UploadEvent::Prepared(Ok(1)));
        upload.step(UploadEvent::Sent);
    }
    for _ in 0..2 {
        upload.step(UploadEvent::Answered { slot: 0, reply: BatchReply::Stored });
    }
    assert_eq!(
        reason(upload.step(UploadEvent::Completed(Err("offline".to_string())))),
        "complete upload: offline"
    );
}

fn plan(codebase_id: Option<&str>) -> SyncPlan {
    SyncPlan {
        codebase_id: codebase_id.map(str::to_string),
        job_id: "job".to_string(),
        need_content: vec!["a.rs".to_string()],
        to_delete: 2,
    }
}

/// A run for `/work` that is as far as the answer to its manifest.
fn planned(codebase_id: Option<&str>) -> SyncRun {
    let mut run = SyncRun::new(codebase_id.map(str::to_string));
    let next = run.step(SyncEvent::Lifted { root: "/work".to_string() });
    if codebase_id.is_none() {
        assert!(matches!(next, SyncAction::EnsureCodebase { root } if root == "/work"));
        assert!(matches!(
            run.step(SyncEvent::Ensured(Ok("new".to_string()))),
            SyncAction::IdentifySource { root } if root == "/work"
        ));
    } else {
        assert!(matches!(next, SyncAction::IdentifySource { root } if root == "/work"));
    }
    let scan = run.step(SyncEvent::Identified(Ok("source".to_string())));
    assert!(matches!(
        milestone(&scan),
        Some(SyncProgress::Scanning { root }) if root == "/work"
    ));
    let verify = run.step(SyncEvent::Scanned(Ok((5, 3))));
    assert!(matches!(
        milestone(&verify),
        Some(SyncProgress::Planning { files: 5, cached_files: 3 })
    ));
    let url = match run.step(SyncEvent::Verified(Ok(()))) {
        SyncAction::SendManifest { url } => url,
        _ => panic!("the manifest is sent"),
    };
    assert_eq!(url, format!("/v1/codebases/{}/sync", codebase_id.unwrap_or("new")));
    run
}

#[test]
fn a_sync_goes_from_a_directory_to_a_job() {
    assert!(matches!(milestone(&SyncAction::LiftRoot), Some(SyncProgress::Preparing)));
    let mut run = planned(None);
    match run.step(SyncEvent::Planned(Ok(plan(None)))) {
        SyncAction::Upload { url, codebase_id, moved, source_id, need_content } => {
            assert_eq!(url, "/v1/codebases/new/sync/job");
            assert_eq!((codebase_id.as_str(), moved), ("new", false));
            assert_eq!(source_id, "source");
            assert_eq!(need_content, vec!["a.rs".to_string()]);
        }
        _ => panic!("what the server needs is uploaded"),
    }
    match run.step(SyncEvent::Uploaded(Ok(1))) {
        SyncAction::Done(outcome) => {
            assert_eq!((outcome.codebase_id.as_str(), outcome.job_id.as_str()), ("new", "job"));
            assert_eq!((outcome.uploaded, outcome.to_delete), (1, 2));
            let mut jobs = JobRegistry::new();
            jobs.record_job(&outcome);
            assert_eq!(jobs.job("new").as_deref(), Some("job"));
            assert!(jobs.job("other").is_none());
        }
        _ => panic!("the sync is done"),
    }
}

#[test]
fn a_moved_checkout_uploads_to_its_new_codebase() {
    let mut run = planned(Some("named"));
    assert!(matches!(
        run.step(SyncEvent::Planned(Ok(plan(Some("elsewhere"))))),
        SyncAction::Upload { url, codebase_id, moved: true, .. }
            if url == "/v1/codebases/elsewhere/sync/job" && codebase_id == "elsewhere"
    ));
    assert!(matches!(
        run.step(SyncEvent::Uploaded(Ok(0))),
        SyncAction::Done(outcome) if outcome.codebase_id == "elsewhere"
    ));
}

#[test]
fn a_failed_sync_says_what_it_was_doing() {
    let reason = |action: SyncAction| match action {
        SyncAction::Fail(reason) => reason,
        _ => panic!("the sync goes on"),
    };
    let lifted = |codebase: Option<&str>| {
        let mut run = SyncRun::new(codebase.map(str::to_string));
        run.step(SyncEvent::Lifted { root: "/work".to_string() });
        run
    };
    let fault = || "offline".to_string();
    assert_eq!(
        reason(lifted(None).step(SyncEvent::Ensured(Err(fault())))),
        "register codebase: offline"
    );
    let mut run = lifted(Some("id"));
    assert_eq!(
        reason(run.step(SyncEvent::Identified(Err(fault())))),
        "identify local checkout: offline"
    );
    let mut run = lifted(Some("id"));
    run.step(SyncEvent::Identified(Ok("source".to_string())));
    assert_eq!(reason(run.step(SyncEvent::Scanned(Err(fault())))), "scan checkout: offline");
    let mut run = lifted(Some("id"));
    run.step(SyncEvent::Identified(Ok("source".to_string())));
    run.step(SyncEvent::Scanned(Ok((1, 0))));
    assert_eq!(
        reason(run.step(SyncEvent::Verified(Err(fault())))),
        "validate source policy before sync: offline"
    );
    assert_eq!(
        reason(planned(Some("id")).step(SyncEvent::Planned(Err(fault())))),
        "sync plan: offline"
    );
    let mut run = planned(Some("id"));
    run.step(SyncEvent::Planned(Ok(plan(None))));
    assert_eq!(reason(run.step(SyncEvent::Uploaded(Err(fault())))), "offline");
    assert_eq!(
        reason(run.step(SyncEvent::Uploaded(Ok(1)))),
        "the sync is out of order"
    );
}

fn event(kind: EventKind) -> Event {
    Event { kind, paths: vec![PathName::from_text("src/lib.rs")] }
}

impl Tree {
    /// Whether an event justifies a sync.
    fn interesting(&self, policy: &mut SourcePolicy, event: Event) -> bool {
        let mut check = RelevanceCheck::new(&vec![event]);
        while check.current().is_some() {
            match check.step(policy, false, &Vec::new()) {
                CheckStep::Relevant => return true,
                CheckStep::Next => {}
                CheckStep::Load(directory) => {
                    let files = self.directory_files(&directory);
                    policy.load_directory(&directory, &files).expect("load rules");
                }
            }
        }
        false
    }
}

#[test]
fn tests_scan_access_does_not_schedule_another_sync() {
    let tree = Tree::new();
    let mut policy = tree.load().unwrap_or_else(|e| panic!("{e}"));
    for kind in [
        EventKind::Access(AccessKind::Read),
        EventKind::Access(AccessKind::Open(AccessMode::Read)),
        EventKind::Access(AccessKind::Open(AccessMode::Write)),
        EventKind::Access(AccessKind::Close(AccessMode::Read)),
    ] {
        assert!(!tree.interesting(&mut policy, event(kind)), "accepted {kind:?}");
    }
}

#[test]
fn tests_mutations_still_schedule_a_sync() {
    let tree = Tree::new();
    let mut policy = tree.load().unwrap_or_else(|e| panic!("{e}"));
    for kind in [
        EventKind::Access(AccessKind::Close(AccessMode::Write)),
        EventKind::Create,
        EventKind::Modify,
        EventKind::Remove,
    ] {
        assert!(tree.interesting(&mut policy, event(kind)), "rejected {kind:?}");
    }
}

#[test]
fn tests_vcs_events_remain_ignored() {
    let tree = Tree::new();
    let mut policy = tree.load().unwrap_or_else(|e| panic!("{e}"));
    let index = Event {
        kind: EventKind::Modify,
        paths: vec![PathName::from_text(".git/index")],
    };
    assert!(!tree.interesting(&mut policy, index));
}

#[test]
fn tests_both_project_ignore_files_filter_watcher_events() {
    for ignore_name in IGNORE_FILES {
        let mut tree = Tree::new();
        tree.write(ignore_name, "private.txt\n");
        let mut policy = tree.load().unwrap_or_else(|e| panic!("{e}"));
        let changed = Event {
            kind: EventKind::Modify,
            paths: vec![tree.path("private.txt")],
        };
        assert!(!tree.interesting(&mut policy, changed));
    }
}

#[test]
fn tests_ignore_file_changes_always_schedule_a_scan() {
    let mut tree = Tree::new();
    tree.write(".gitignore", ".semctxignore\n.semctlignore\n");
    let mut policy = tree.load().unwrap_or_else(|e| panic!("{e}"));
    for name in IGNORE_FILES {
        let changed = Event { kind: EventKind::Modify, paths: vec![tree.path(name)] };
        assert!(tree.interesting(&mut policy, changed));
    }
}

#[test]
fn tests_the_relevance_check_applies_the_source_policy() {
    let mut tree = Tree::new();
    tree.write(".gitignore", "ignored.txt\n");
    let mut policy = tree.load().unwrap_or_else(|e| panic!("{e}"));
    let ignored = Event { kind: EventKind::Modify, paths: vec![tree.path("ignored.txt")] };
    assert!(
        !tree.interesting(&mut policy, ignored),
        "an ignored file must not schedule a sync"
    );
    assert!(
        policy
            .sources()
            .entries()
            .iter()
            .any(|(path, _)| path.display().ends_with("/.gitignore")),
        "the rule files it read must stay observed"
    );
    let source = Event { kind: EventKind::Modify, paths: vec![tree.path("src/lib.rs")] };
    assert!(
        tree.interesting(&mut policy, source),
        "a source edit must schedule a sync"
    );
}

#[test]
fn watcher_scan_access_does_not_schedule_another_sync() {
    let tree = Tree::new();
    let mut policy = tree.load().unwrap_or_else(|e| panic!("{e}"));
    for kind in [
        EventKind::Access(AccessKind::Read),
        EventKind::Access(AccessKind::Open(AccessMode::Read)),
        EventKind::Access(AccessKind::Open(AccessMode::Write)),
        EventKind::Access(AccessKind::Close(AccessMode::Read)),
    ] {
        assert!(!tree.interesting(&mut policy, event(kind)), "accepted {kind:?}");
    }
}

#[test]
fn watcher_mutations_still_schedule_a_sync() {
    let tree = Tree::new();
    let mut policy = tree.load().unwrap_or_else(|e| panic!("{e}"));
    for kind in [
        EventKind::Access(AccessKind::Close(AccessMode::Write)),
        EventKind::Create,
        EventKind::Modify,
        EventKind::Remove,
    ] {
        assert!(tree.interesting(&mut policy, event(kind)), "rejected {kind:?}");
    }
}

#[test]
fn watcher_vcs_events_remain_ignored() {
    let tree = Tree::new();
    let mut policy = tree.load().unwrap_or_else(|e| panic!("{e}"));
    let index = Event {
        kind: EventKind::Modify,
        paths: vec![PathName::from_text(".git/index")],
    };
    assert!(!tree.interesting(&mut policy, index));
}

#[test]
fn watcher_both_project_ignore_files_filter_watcher_events() {
    for ignore_name in IGNORE_FILES {
        let mut tree = Tree::new();
        tree.write(ignore_name, "private.txt\n");
        let mut policy = tree.load().unwrap_or_else(|e| panic!("{e}"));
        let changed = Event {
            kind: EventKind::Modify,
            paths: vec![tree.path("private.txt")],
        };
        assert!(!tree.interesting(&mut policy, changed));
    }
}

#[test]
fn watcher_ignore_file_changes_always_schedule_a_scan() {
    let mut tree = Tree::new();
    tree.write(".gitignore", ".semctxignore\n.semctlignore\n");
    let mut policy = tree.load().unwrap_or_else(|e| panic!("{e}"));
    for name in IGNORE_FILES {
        let changed = Event { kind: EventKind::Modify, paths: vec![tree.path(name)] };
        assert!(tree.interesting(&mut policy, changed));
    }
}

#[test]
fn watcher_the_relevance_check_applies_the_source_policy() {
    let mut tree = Tree::new();
    tree.write(".gitignore", "ignored.txt\n");
    let mut policy = tree.load().unwrap_or_else(|e| panic!("{e}"));
    let ignored = Event { kind: EventKind::Modify, paths: vec![tree.path("ignored.txt")] };
    assert!(
        !tree.interesting(&mut policy, ignored),
        "an ignored file must not schedule a sync"
    );
    assert!(
        policy
            .sources()
            .entries()
            .iter()
            .any(|(path, _)| path.display().ends_with("/.gitignore")),
        "the rule files it read must stay observed"
    );
    let source = Event { kind: EventKind::Modify, paths: vec![tree.path("src/lib.rs")] };
    assert!(
        tree.interesting(&mut policy, source),
        "a source edit must schedule a sync"
    );
}

#[test]
fn private_scratch_events_are_never_relevant() {
    let tree = Tree::new();
    let mut policy = tree.load().unwrap_or_else(|e| panic!("{e}"));
    let scratch = tree.path(".semctl-0123456789ab-0.edit");
    assert!(is_private_path(&scratch));
    let created = || Event { kind: EventKind::Create, paths: vec![scratch.copy()] };
    assert!(!batch_may_matter(&tree.root(), &vec![created()], &Vec::new()));
    assert!(!tree.interesting(&mut policy, created()));
}

fn answer(listed: &[u8], excludes: Option<&str>) -> Option<GitAnswer> {
    Some(GitAnswer {
        listed: listed.to_vec(),
        excludes: excludes.map(|path| path.as_bytes().to_vec()),
    })
}

#[test]
fn a_configuration_is_verified_against_what_git_answers() {
    let directory = PathName::from_text("/work");
    let default = Some(PathName::from_text("/home/a/.config/git/ignore"));
    let load = |given: &Option<GitAnswer>| {
        Configuration::load(&directory, given, true, true, &default)
            .unwrap_or_else(|e| panic!("{e}"))
    };
    let first = load(&answer(b"a", None));
    assert!(first.verify(&answer(b"a", None)).is_ok());
    for other in [None, answer(b"b", None), answer(b"a", Some("x"))] {
        assert_eq!(
            first.verify(&other),
            Err("Git source policy changed during sync; retry sync".to_string())
        );
    }
    let shown = |c: Configuration| c.excludes.map(|path| path.display());
    assert_eq!(shown(first), Some("/home/a/.config/git/ignore".to_string()));
    assert_eq!(shown(load(&answer(b"a", Some("")))), None);
    assert_eq!(shown(load(&answer(b"a", Some("rules")))), Some("/work/rules".to_string()));
    assert_eq!(shown(load(&answer(b"a", Some("/etc/x")))), Some("/etc/x".to_string()));
}

#[test]
fn without_git_nothing_may_be_configured() {
    let directory = PathName::from_text("/work");
    let load = |configured: bool, in_repository: bool| {
        Configuration::load(&directory, &None, configured, in_repository, &None)
            .map(|loaded| loaded.fingerprint)
    };
    assert_eq!(load(false, false), Ok(None));
    assert_eq!(
        load(true, true),
        Err("Git is required to validate configured source exclusions".to_string())
    );
    assert_eq!(
        load(false, true),
        Err("Git is required to validate checkout source policy".to_string())
    );
}

#[test]
fn git_answers_are_read_strictly() {
    assert!(check_query(&GitOutcome::Missing).is_ok());
    assert!(check_query(&GitOutcome::Finished { status: 1, bytes: 0 }).is_ok());
    for outcome in [
        GitOutcome::Interrupted,
        GitOutcome::TimedOut,
        GitOutcome::Finished { status: 128, bytes: 0 },
        GitOutcome::Finished { status: 0, bytes: MAX_CONFIGURATION_BYTES + 1 },
    ] {
        assert!(check_query(&outcome).is_err());
    }
    assert_eq!(read_excludes(b""), Ok(None));
    assert_eq!(read_excludes(b"a\0"), Ok(Some(b"a".to_vec())));
    assert!(read_excludes(b"a").is_err());
    assert_eq!(
        listing_origins(b"file:/etc/gitconfig\0user.name\nx\0command line:\0a=b\0"),
        Ok(vec![b"/etc/gitconfig".to_vec()])
    );
    assert!(listing_origins(b"file:/etc/gitconfig\0").is_err());
    assert_eq!(read_marker(&b"gitdir: ../x\r\n".to_vec()), Ok(b"../x".to_vec()));
    assert!(read_marker(&b"gitdir: \n".to_vec()).is_err());
    assert!(read_marker(&b"elsewhere".to_vec()).is_err());
    let git_dir = PathName::from_text("/repo/.git/worktrees/a");
    let common = |content: Option<&str>| {
        common_directory(&git_dir, &content.map(|text| text.as_bytes().to_vec()))
            .map(|path| path.display())
    };
    assert_eq!(common(None), Ok("/repo/.git/worktrees/a".to_string()));
    assert_eq!(common(Some("../..\n")), Ok("/repo/.git/worktrees/a/../..".to_string()));
    assert!(common(Some("\n")).is_err());
    assert_eq!(capture_name(255, 7), ".semctl-0000000000ff-7.tmp");
}

#[test]
fn global_configuration_follows_the_environment() {
    let files = |environment: &GitEnvironment| -> Vec<String> {
        global_config_paths(environment).iter().map(PathName::display).collect()
    };
    let mut environment = GitEnvironment {
        no_system: false,
        system: None,
        global: None,
        xdg_config_home: None,
        home_variable: Some(b"/home/a".to_vec()),
        profile: Some(b"/profile".to_vec()),
    };
    assert_eq!(
        files(&environment),
        ["/etc/gitconfig", "/home/a/.gitconfig", "/home/a/.config/git/config"]
    );
    assert_eq!(
        default_excludes(&environment).map(|file| file.display()).as_deref(),
        Some("/home/a/.config/git/ignore")
    );
    environment.no_system = true;
    environment.xdg_config_home = Some(b"/config".to_vec());
    assert_eq!(files(&environment), ["/home/a/.gitconfig", "/config/git/config"]);
    environment.global = Some(b"/custom".to_vec());
    assert_eq!(files(&environment), ["/custom"]);
}

#[test]
fn an_empty_home_counts_as_unset() {
    let environment = |home: Option<&[u8]>, profile: Option<&[u8]>| GitEnvironment {
        no_system: true,
        system: None,
        global: None,
        xdg_config_home: Some(Vec::new()),
        home_variable: home.map(<[u8]>::to_vec),
        profile: profile.map(<[u8]>::to_vec),
    };
    let home = |home, profile| git_home_dir(&environment(home, profile)).map(|dir| dir.to_bytes());
    assert_eq!(home(Some(b"/home/a"), Some(b"/profile")), Some(b"/home/a".to_vec()));
    assert_eq!(home(Some(b""), Some(b"/profile")), Some(b"/profile".to_vec()));
    assert_eq!(home(None, Some(b"/profile")), Some(b"/profile".to_vec()));
    assert_eq!(home(Some(b""), None), None);
    assert_eq!(home(Some(b"/home/\xff"), None), Some(b"/home/\xff".to_vec()));
    let base = xdg_config_dir(&environment(None, Some(b"/profile")));
    assert_eq!(base.map(|dir| dir.display()).as_deref(), Some("/profile/.config"));
    assert!(xdg_config_dir(&environment(Some(b""), None)).is_none());
}

#[test]
fn configuration_files_are_read_in_order() {
    let file = |path: &str, found: Found| (PathName::from_text(path), found);
    let mut sources = Sources::new();
    assert_eq!(sources.read_all(&vec![file("/a", Found::Missing)]), Ok(false));
    assert_eq!(sources.read_all(&vec![file("/b", Found::File(b"x".to_vec()))]), Ok(true));
    let directory = Found::Directory(PathName::from_text("/c"));
    assert_eq!(
        sources.read_all(&vec![file("/c", directory), file("/d", Found::Missing)]),
        Err("policy path is a directory: /c".to_string())
    );
    assert_eq!(
        sources.read_all(&vec![file("/b", Found::Missing)]),
        Err("source policy changed during sync: /b".to_string())
    );
    assert_eq!(sources.entries().len(), 3);
}

#[test]
fn only_what_cannot_block_is_read() {
    let path = PathName::from_text("/etc/fifo");
    assert_eq!(inspect(&path, PathKind::Missing), Ok(InspectStep::Missing));
    assert_eq!(inspect(&path, PathKind::Directory), Ok(InspectStep::Canonicalize));
    assert_eq!(inspect(&path, PathKind::File), Ok(InspectStep::Read));
    assert_eq!(inspect(&path, PathKind::NullDevice), Ok(InspectStep::Read));
    assert_eq!(
        inspect(&path, PathKind::Other),
        Err("policy path is not a regular file: /etc/fifo".to_string())
    );
}

#[test]
fn links_are_watched_at_their_target() {
    let path = PathName::from_text("/home/a/link/rules");
    let target = |canonical: Vec<Option<&str>>| {
        let canonical = canonical
            .into_iter()
            .map(|text| text.map(PathName::from_text))
            .collect();
        watch_target(&path, &canonical).display()
    };
    assert_eq!(target(vec![Some("/etc/rules")]), "/etc/rules");
    assert_eq!(target(vec![None, Some("/srv/x"), Some("/home/a")]), "/srv/x/rules");
    assert_eq!(target(vec![None, None]), "/home/a/link/rules");
    let directory = |found: Vec<bool>| watched_directory(&path, &found).map(|d| d.display());
    assert_eq!(directory(vec![true, true]), Some("/home/a/link".to_string()));
    assert_eq!(directory(vec![false, true]), Some("/home/a".to_string()));
    assert_eq!(directory(vec![false; 4]), None);
}

#[test]
fn a_path_that_is_no_text_is_shown_with_replacements() {
    assert_eq!(PathName::parse(b"/a/\xff.rs").display(), "/a/\u{fffd}.rs");
    assert_eq!(PathName::from_text("/a/\u{e9}.rs").display(), "/a/\u{e9}.rs");
}

#[test]
fn the_first_of_several_changed_rule_files_is_named() {
    let mut sources = Sources::new();
    for path in ["/z", "/a/b", "/a", "/a/../c"] {
        sources.read(&PathName::from_text(path), &Found::Missing).unwrap_or_else(|e| panic!("{e}"));
    }
    let file = || Found::File(b"*.log".to_vec());
    let unchanged = vec![Found::Missing, Found::Missing, Found::Missing, Found::Missing];
    assert!(sources.verify(&unchanged).is_ok());
    assert_eq!(
        sources.verify(&vec![file(), file(), Found::Missing, file()]),
        Err("source policy changed during sync: /a/../c".to_string())
    );
    assert_eq!(
        sources.verify(&vec![file(), file(), file(), file()]),
        Err("source policy changed during sync: /a".to_string())
    );
    assert!(PathName::from_text("/a").before(&PathName::from_text("/a/b")));
    assert!(!PathName::from_text("/a").before(&PathName::from_text("/a")));
}

#[test]
fn git_has_to_answer_both_questions() {
    assert_eq!(has_answered(&None), Ok(false));
    assert_eq!(has_answered(&Some((0, Vec::new()))), Ok(true));
    assert_eq!(
        has_answered(&Some((1, Vec::new()))),
        Err("Git could not read source policy configuration (exit 1)".to_string())
    );
    let answer = GitAnswer::read(b"listed".to_vec(), &Some((1, Vec::new())));
    assert!(matches!(answer, Ok(GitAnswer { excludes: None, .. })), "an absent setting");
    let answer = GitAnswer::read(Vec::new(), &Some((0, b"/x\0".to_vec())));
    assert!(matches!(answer, Ok(GitAnswer { excludes: Some(path), .. }) if path == b"/x"));
    assert_eq!(
        GitAnswer::read(Vec::new(), &None).err(),
        Some("Git became unavailable while reading source policy".to_string())
    );
    assert_eq!(
        GitAnswer::read(Vec::new(), &Some((0, b"/x".to_vec()))).err(),
        Some("invalid Git excludes path response".to_string())
    );
}
