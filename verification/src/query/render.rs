//! Result rendering: the server's answers as the text that a model is shown.

use vstd::prelude::*;
use vstd::string::*;

use crate::api::{
    CodebaseFile, FileTreeNode, JobStatus, Project, ProjectGraph, ProjectGroup, SearchHit,
};
use crate::paths::{join, joined};
use crate::score::{law_scores_are_compared_as_numbers, less_than_half, scores_less};
use crate::text::{
    ascii_lowercase, blank, chars_of, copy_text, decimal, decimal_text, is_blank, join_texts,
    lemma_no_parts, lemma_rendered_is_a_row, lemma_rendered_next, lemma_rendered_none,
    lemma_row_grows, line_ranges, lines, lists, lower_ascii, optional,
    optional_or, rendered, same, separated, signed_decimal, signed_text, strip_prefix, text_of,
    text_or, texts, wide_signed_text,
};

verus! {

/// How many rows the list tools collect before they stop.
pub const GRAPH_LIST_CAP: usize = 20000;

/// The characters of an optional text slice.
pub open spec fn slice_text(text: Option<&str>) -> Option<Seq<char>> {
    match text {
        Some(t) => Some(t@),
        None => None,
    }
}

/// A path without the prefix that marks an extended-length path on Windows.
pub open spec fn plain_path(p: Seq<char>) -> Seq<char> {
    if "\\\\?\\UNC\\"@.is_prefix_of(p) {
        "\\\\"@ + p.skip("\\\\?\\UNC\\"@.len() as int)
    } else if "\\\\?\\"@.is_prefix_of(p) {
        p.skip("\\\\?\\"@.len() as int)
    } else {
        p
    }
}

/// Drops the prefix that marks an extended-length path: terminals and editors
/// do not open such a path.
pub fn strip_verbatim_prefix(p: String) -> (plain: String)
    ensures
        plain@ == plain_path(p@),
{
    match strip_prefix(p.as_str(), "\\\\?\\UNC\\") {
        Some(rest) => {
            let mut plain = copy_text("\\\\");
            plain.push_str(rest.as_str());
            return plain;
        },
        None => {},
    }
    match strip_prefix(p.as_str(), "\\\\?\\") {
        Some(rest) => rest,
        None => p,
    }
}

/// A path of a codebase as it is shown: below the local checkout where its root
/// is known, and as it is otherwise.
pub open spec fn shown_path(root: Option<Seq<char>>, rel: Seq<char>) -> Seq<char> {
    match root {
        Some(dir) => plain_path(joined(dir, rel)),
        None => rel,
    }
}

pub fn local_path(root: Option<&str>, rel: &str) -> (path: String)
    ensures
        path@ == shown_path(slice_text(root), rel@),
{
    match root {
        Some(dir) => strip_verbatim_prefix(join(dir, rel)),
        None => copy_text(rel),
    }
}

/// Whose hits have a local path: only those of the selected checkout.
#[derive(Clone, Copy)]
pub struct HitContext<'a> {
    pub root: Option<&'a str>,
    pub codebase_id: Option<&'a str>,
    pub allow_unidentified: bool,
}

/// The local root of a hit: that of the context where the hit is of the selected
/// codebase, or where the two cannot be told apart and that is allowed.
pub open spec fn hit_root(context: HitContext, hit: SearchHit) -> Option<Seq<char>> {
    let root = slice_text(context.root);
    match (optional(hit.codebase_id), slice_text(context.codebase_id)) {
        (Some(id), Some(selected)) => if id == selected {
            root
        } else {
            None
        },
        _ => if context.allow_unidentified {
            root
        } else {
            None
        },
    }
}

impl<'a> HitContext<'a> {
    /// Every hit is of the local checkout.
    pub fn local(root: Option<&'a str>) -> (context: HitContext<'a>)
        ensures
            context.root == root,
            context.codebase_id is None,
            context.allow_unidentified,
    {
        HitContext { root, codebase_id: None, allow_unidentified: true }
    }

    /// Hits of a search, which can be of other codebases.
    pub fn search(root: Option<&'a str>, codebase_id: Option<&'a str>, scoped: bool) -> (context:
        HitContext<'a>)
        ensures
            context.root == root,
            context.codebase_id == codebase_id,
            context.allow_unidentified == scoped,
    {
        HitContext { root, codebase_id, allow_unidentified: scoped }
    }

    pub fn root_for(self, hit: &SearchHit) -> (root: Option<&'a str>)
        ensures
            slice_text(root) == hit_root(self, *hit),
    {
        match (&hit.codebase_id, self.codebase_id) {
            (Some(id), Some(selected)) => {
                if same(id.as_str(), selected) {
                    self.root
                } else {
                    None
                }
            },
            _ => {
                if self.allow_unidentified {
                    self.root
                } else {
                    None
                }
            },
        }
    }
}

/// Where a hit is: its path, with its lines where they are known.
pub open spec fn location_text(hit: SearchHit, root: Option<Seq<char>>) -> Seq<char> {
    match hit.path {
        None => "(no location)"@,
        Some(path) => match (hit.line_start, hit.line_end) {
            (Some(start), Some(end)) => shown_path(root, path@) + ":"@ + decimal(start as nat) + "-"@
                + decimal(end as nat),
            (Some(start), None) => shown_path(root, path@) + ":"@ + decimal(start as nat),
            _ => shown_path(root, path@),
        },
    }
}

pub fn hit_location(hit: &SearchHit, root: Option<&str>) -> (text: String)
    ensures
        text@ == location_text(*hit, slice_text(root)),
{
    match &hit.path {
        None => copy_text("(no location)"),
        Some(path) => {
            let mut text = local_path(root, path.as_str());
            match (hit.line_start, hit.line_end) {
                (Some(start), Some(end)) => {
                    text.push_str(":");
                    text.push_str(decimal_text(start as u64).as_str());
                    text.push_str("-");
                    text.push_str(decimal_text(end as u64).as_str());
                },
                (Some(start), None) => {
                    text.push_str(":");
                    text.push_str(decimal_text(start as u64).as_str());
                },
                _ => {},
            }
            text
        },
    }
}

/// The matched symbol, qualified by the declaration that contains it.
pub open spec fn symbol_text(hit: SearchHit) -> Seq<char> {
    let symbol = text_or(optional(hit.symbol), "-"@);
    match hit.enclosing_symbol {
        Some(enclosing) => symbol + " in "@ + enclosing@,
        None => symbol,
    }
}

pub fn hit_symbol(hit: &SearchHit) -> (text: String)
    ensures
        text@ == symbol_text(*hit),
{
    let mut text = copy_text(optional_or(&hit.symbol, "-"));
    match &hit.enclosing_symbol {
        Some(enclosing) => {
            text.push_str(" in ");
            text.push_str(enclosing.as_str());
        },
        None => {},
    }
    text
}

/// What is known of a reference: that it writes, its namespace and kind, and what
/// it refers to. That a reference only reads is not said.
pub open spec fn marker_parts(hit: SearchHit) -> Seq<Seq<char>> {
    (if hit.is_write == Some(true) {
        seq!["write"@]
    } else {
        seq![]
    }) + (match hit.reference_namespace {
        Some(namespace) => seq![lower_ascii(namespace@)],
        None => seq![],
    }) + (match hit.reference_kind {
        Some(kind) => seq![kind@],
        None => seq![],
    }) + (match hit.qualified_symbol {
        Some(target) => seq!["-> "@ + target@],
        None => match hit.external_target {
            Some(target) => seq!["-> "@ + target@],
            None => seq![],
        },
    })
}

/// The classification of a reference; nothing for a plain read and for a hit that
/// has none.
pub open spec fn marker_text(hit: SearchHit) -> Seq<char> {
    if marker_parts(hit).len() == 0 {
        ""@
    } else {
        " ("@ + separated(marker_parts(hit), "; "@) + ")"@
    }
}

fn arrow(target: &str) -> (text: String)
    ensures
        text@ == "-> "@ + target@,
{
    let mut text = copy_text("-> ");
    text.push_str(target);
    text
}

pub fn write_marker(hit: &SearchHit) -> (text: String)
    ensures
        text@ == marker_text(*hit),
{
    let mut parts: Vec<String> = Vec::new();
    match hit.is_write {
        Some(true) => parts.push(copy_text("write")),
        _ => {},
    }
    match &hit.reference_namespace {
        Some(namespace) => parts.push(ascii_lowercase(namespace.as_str())),
        None => {},
    }
    match &hit.reference_kind {
        Some(kind) => parts.push(copy_text(kind.as_str())),
        None => {},
    }
    match &hit.qualified_symbol {
        Some(target) => parts.push(arrow(target.as_str())),
        None => match &hit.external_target {
            Some(target) => parts.push(arrow(target.as_str())),
            None => {},
        },
    }
    assert(texts(parts@) =~= marker_parts(*hit));
    if parts.len() == 0 {
        copy_text("")
    } else {
        let mut text = copy_text(" (");
        text.push_str(join_texts(&parts, "; ").as_str());
        text.push_str(")");
        text
    }
}

/// A text on a line of its own.
pub fn line_of(text: &str) -> (line: String)
    ensures
        line@ == text@ + "\n"@,
{
    let mut line = copy_text(text);
    line.push_str("\n");
    line
}

/// A hit on one line.
pub open spec fn compact_line(root: Option<Seq<char>>) -> spec_fn(SearchHit) -> Seq<char> {
    |hit: SearchHit|
        "  "@ + location_text(hit, root) + " "@ + symbol_text(hit) + marker_text(hit) + "\n"@
}

/// Hits on one line each, or a message where there are none.
pub open spec fn compact_text(hits: Seq<SearchHit>, empty: Seq<char>, root: Option<Seq<char>>) -> Seq<
    char,
> {
    if hits.len() == 0 {
        empty + "\n"@
    } else {
        rendered(hits, compact_line(root))
    }
}

pub fn render_compact(hits: &Vec<SearchHit>, empty_msg: &str, root: Option<&str>) -> (out: String)
    ensures
        out@ == compact_text(hits@, empty_msg@, slice_text(root)),
{
    if hits.len() == 0 {
        return line_of(empty_msg);
    }
    let ghost line = compact_line(slice_text(root));
    let mut out = String::new();
    let mut i: usize = 0;
    proof {
        lemma_rendered_none(hits@, line);
    }
    while i < hits.len()
        invariant
            i <= hits@.len(),
            line == compact_line(slice_text(root)),
            out@ == rendered(hits@.take(i as int), line),
        decreases hits@.len() - i,
    {
        let hit = &hits[i];
        let mut text = copy_text("  ");
        text.push_str(hit_location(hit, root).as_str());
        text.push_str(" ");
        text.push_str(hit_symbol(hit).as_str());
        text.push_str(write_marker(hit).as_str());
        text.push_str("\n");
        out.push_str(text.as_str());
        proof {
            lemma_rendered_next(hits@, line, i as int);
        }
        i = i + 1;
    }
    assert(hits@.take(i as int) =~= hits@);
    out
}

/// An external boundary on its line.
pub open spec fn boundary_line() -> spec_fn(String) -> Seq<char> {
    |boundary: String| "  "@ + boundary@ + "\n"@
}

/// External boundaries, one on each line, with their number.
pub open spec fn boundaries_text(boundaries: Seq<String>, empty: Seq<char>) -> Seq<char> {
    if boundaries.len() == 0 {
        empty + "\n"@
    } else {
        rendered(boundaries, boundary_line()) + "("@ + decimal(boundaries.len()) + " boundar"@ + (
        if boundaries.len() == 1 {
            "y"@
        } else {
            "ies"@
        }) + ")\n"@
    }
}

pub fn render_boundaries(boundaries: &Vec<String>, empty_msg: &str) -> (out: String)
    ensures
        out@ == boundaries_text(boundaries@, empty_msg@),
{
    if boundaries.len() == 0 {
        return line_of(empty_msg);
    }
    let mut out = String::new();
    let mut i: usize = 0;
    proof {
        lemma_rendered_none(boundaries@, boundary_line());
    }
    while i < boundaries.len()
        invariant
            i <= boundaries@.len(),
            out@ == rendered(boundaries@.take(i as int), boundary_line()),
        decreases boundaries@.len() - i,
    {
        let mut text = copy_text("  ");
        text.push_str(boundaries[i].as_str());
        text.push_str("\n");
        out.push_str(text.as_str());
        proof {
            lemma_rendered_next(boundaries@, boundary_line(), i as int);
        }
        i = i + 1;
    }
    assert(boundaries@.take(i as int) =~= boundaries@);
    out.push_str("(");
    out.push_str(decimal_text(boundaries.len() as u64).as_str());
    out.push_str(" boundar");
    if boundaries.len() == 1 {
        out.push_str("y");
    } else {
        out.push_str("ies");
    }
    out.push_str(")\n");
    out
}

/// A file of a catalog on its line.
pub open spec fn file_line(root: Option<Seq<char>>) -> spec_fn(CodebaseFile) -> Seq<char> {
    |file: CodebaseFile|
        shown_path(root, file.path@) + "  ("@ + signed_decimal(file.size as int) + " bytes)\n"@
}

pub fn render_files(files: &Vec<CodebaseFile>, root: Option<&str>) -> (out: String)
    ensures
        out@ == rendered(files@, file_line(slice_text(root))),
{
    let ghost line = file_line(slice_text(root));
    let mut out = String::new();
    let mut i: usize = 0;
    proof {
        lemma_rendered_none(files@, line);
    }
    while i < files.len()
        invariant
            i <= files@.len(),
            line == file_line(slice_text(root)),
            out@ == rendered(files@.take(i as int), line),
        decreases files@.len() - i,
    {
        let mut text = local_path(root, files[i].path.as_str());
        text.push_str("  (");
        text.push_str(signed_text(files[i].size).as_str());
        text.push_str(" bytes)\n");
        out.push_str(text.as_str());
        proof {
            lemma_rendered_next(files@, line, i as int);
        }
        i = i + 1;
    }
    assert(files@.take(i as int) =~= files@);
    out
}

/// The phase of a job, from its error and its timestamps.
pub open spec fn job_phase(job: JobStatus) -> Seq<char> {
    if job.error is Some {
        "failed"@
    } else if job.completed_at is Some {
        "done"@
    } else if job.started_at is Some {
        "running"@
    } else {
        "queued"@
    }
}

/// Files that a job is done with: those that failed count too.
pub open spec fn files_done(job: JobStatus) -> int {
    job.files_embedded + job.files_deleted + job.files_failed
}

/// Files that a job has to do with.
pub open spec fn files_total(job: JobStatus) -> int {
    job.files_to_embed + job.files_to_delete
}

/// A job's progress.
pub open spec fn job_text(job_id: Seq<char>, job: JobStatus) -> Seq<char> {
    "last sync run "@ + job_id + ": "@ + job_phase(job) + "\n  files: "@ + signed_decimal(
        files_done(job),
    ) + "/"@ + signed_decimal(files_total(job)) + " processed (embedded "@ + signed_decimal(
        job.files_embedded as int,
    ) + ", deleted "@ + signed_decimal(job.files_deleted as int) + ", failed "@ + signed_decimal(
        job.files_failed as int,
    ) + ")"@ + (match job.error {
        Some(error) => "\n  error: "@ + error@,
        None => ""@,
    }) + (if job.error is None && job.completed_at is Some && files_total(job) == 0 {
        "\n  (up to date — nothing to sync)"@
    } else {
        ""@
    })
}

/// A job's progress. The phase is derived from timestamps and the error, so it
/// does not depend on how servers encode their status.
pub fn render_job(job_id: &str, job: &JobStatus) -> (out: String)
    ensures
        out@ == job_text(job_id@, *job),
{
    let phase = if job.error.is_some() {
        "failed"
    } else if job.completed_at.is_some() {
        "done"
    } else if job.started_at.is_some() {
        "running"
    } else {
        "queued"
    };
    let done: i128 = job.files_embedded as i128 + job.files_deleted as i128
        + job.files_failed as i128;
    let total: i128 = job.files_to_embed as i128 + job.files_to_delete as i128;
    let mut out = copy_text("last sync run ");
    out.push_str(job_id);
    out.push_str(": ");
    out.push_str(phase);
    out.push_str("\n  files: ");
    out.push_str(wide_signed_text(done).as_str());
    out.push_str("/");
    out.push_str(wide_signed_text(total).as_str());
    out.push_str(" processed (embedded ");
    out.push_str(signed_text(job.files_embedded).as_str());
    out.push_str(", deleted ");
    out.push_str(signed_text(job.files_deleted).as_str());
    out.push_str(", failed ");
    out.push_str(signed_text(job.files_failed).as_str());
    out.push_str(")");
    let error = match &job.error {
        Some(error) => {
            let mut text = copy_text("\n  error: ");
            text.push_str(error.as_str());
            text
        },
        None => copy_text(""),
    };
    out.push_str(error.as_str());
    if job.error.is_none() && job.completed_at.is_some() && total == 0 {
        out.push_str("\n  (up to date — nothing to sync)");
    } else {
        out.push_str("");
    }
    out
}

/// A group of projects on its line.
pub open spec fn group_line() -> spec_fn(ProjectGroup) -> Seq<char> {
    |group: ProjectGroup|
        "[group] "@ + group.name@ + "  ("@ + group.kind@ + ", "@ + group.root@ + ")  "@ + decimal(
            group.children@.len(),
        ) + " member(s)\n"@
}

/// A project on its line, with its configuration file below it.
pub open spec fn project_lines() -> spec_fn(Project) -> Seq<char> {
    |project: Project|
        project.name@ + "  ("@ + project.kind@ + ", "@ + project.root@ + ")  "@ + decimal(
            project.file_count as nat,
        ) + " file(s)\n"@ + (match project.config_file {
            Some(file) => "    "@ + file@ + "\n"@,
            None => ""@,
        })
}

/// A project graph as text: groups, then projects with their file counts.
pub open spec fn projects_text(graph: ProjectGraph) -> Seq<char> {
    if graph.projects@.len() == 0 && graph.groups@.len() == 0 {
        "(no projects detected — synced files may not include manifests)"@
    } else {
        rendered(graph.groups@, group_line()) + rendered(graph.projects@, project_lines())
    }
}

pub fn render_projects(graph: &ProjectGraph) -> (out: String)
    ensures
        out@ == projects_text(*graph),
{
    if graph.projects.len() == 0 && graph.groups.len() == 0 {
        return copy_text("(no projects detected — synced files may not include manifests)");
    }
    let mut out = String::new();
    let mut i: usize = 0;
    proof {
        lemma_rendered_none(graph.groups@, group_line());
    }
    while i < graph.groups.len()
        invariant
            i <= graph.groups@.len(),
            out@ == rendered(graph.groups@.take(i as int), group_line()),
        decreases graph.groups@.len() - i,
    {
        let group = &graph.groups[i];
        let mut text = copy_text("[group] ");
        text.push_str(group.name.as_str());
        text.push_str("  (");
        text.push_str(group.kind.as_str());
        text.push_str(", ");
        text.push_str(group.root.as_str());
        text.push_str(")  ");
        text.push_str(decimal_text(group.children.len() as u64).as_str());
        text.push_str(" member(s)\n");
        out.push_str(text.as_str());
        proof {
            lemma_rendered_next(graph.groups@, group_line(), i as int);
        }
        i = i + 1;
    }
    assert(graph.groups@.take(i as int) =~= graph.groups@);
    let mut projects = String::new();
    i = 0;
    proof {
        lemma_rendered_none(graph.projects@, project_lines());
    }
    while i < graph.projects.len()
        invariant
            i <= graph.projects@.len(),
            projects@ == rendered(graph.projects@.take(i as int), project_lines()),
        decreases graph.projects@.len() - i,
    {
        let project = &graph.projects[i];
        let mut text = copy_text(project.name.as_str());
        text.push_str("  (");
        text.push_str(project.kind.as_str());
        text.push_str(", ");
        text.push_str(project.root.as_str());
        text.push_str(")  ");
        text.push_str(decimal_text(project.file_count).as_str());
        text.push_str(" file(s)\n");
        let config = match &project.config_file {
            Some(file) => {
                let mut line = copy_text("    ");
                line.push_str(file.as_str());
                line.push_str("\n");
                line
            },
            None => copy_text(""),
        };
        text.push_str(config.as_str());
        projects.push_str(text.as_str());
        proof {
            lemma_rendered_next(graph.projects@, project_lines(), i as int);
        }
        i = i + 1;
    }
    assert(graph.projects@.take(i as int) =~= graph.projects@);
    out.push_str(projects.as_str());
    out
}

/// What is said of a list that was capped below the reported total.
pub open spec fn truncation_text(shown: nat, total: u32) -> Seq<char> {
    if shown < total {
        "\n(showing "@ + decimal(shown) + " of "@ + decimal(total as nat) + " — capped at "@
            + decimal(GRAPH_LIST_CAP as nat) + "; narrow the codebase to see the rest)\n"@
    } else {
        ""@
    }
}

/// Appends a note where a list was capped below the reported total.
pub fn truncation_note(out: &mut String, shown: usize, total: u32)
    ensures
        final(out)@ == old(out)@ + truncation_text(shown as nat, total),
{
    let note = if (shown as u64) < total as u64 {
        let mut note = copy_text("\n(showing ");
        note.push_str(decimal_text(shown as u64).as_str());
        note.push_str(" of ");
        note.push_str(decimal_text(total as u64).as_str());
        note.push_str(" — capped at ");
        note.push_str(decimal_text(GRAPH_LIST_CAP as u64).as_str());
        note.push_str("; narrow the codebase to see the rest)\n");
        note
    } else {
        copy_text("")
    };
    out.push_str(note.as_str());
}

/// Two spaces for each level.
pub open spec fn indentation(depth: nat) -> Seq<char>
    decreases depth,
{
    if depth == 0 {
        ""@
    } else {
        indentation((depth - 1) as nat) + "  "@
    }
}

fn indent(depth: usize) -> (pad: String)
    ensures
        pad@ == indentation(depth as nat),
{
    let mut pad = copy_text("");
    let mut i: usize = 0;
    while i < depth
        invariant
            i <= depth,
            pad@ == indentation(i as nat),
        decreases depth - i,
    {
        pad.push_str("  ");
        i = i + 1;
    }
    pad
}

/// The first `n` nodes of a file tree, each with what is below it.
pub open spec fn tree_text(nodes: Vec<FileTreeNode>, depth: nat, n: nat) -> Seq<char>
    decreases nodes, n,
{
    if n == 0 || n > nodes@.len() {
        seq![]
    } else {
        let node = nodes[n - 1];
        tree_text(nodes, depth, (n - 1) as nat) + indentation(depth) + node.name@ + (
        if node.is_directory {
            "/\n"@ + (match node.children {
                Some(children) => tree_text(children, depth + 1, children@.len()),
                None => seq![],
            })
        } else {
            "\n"@
        })
    }
}

/// A file tree depth-first with two spaces for each level; directories end with
/// a slash.
pub fn render_tree(nodes: &Vec<FileTreeNode>, depth: usize, out: &mut String)
    ensures
        final(out)@ == old(out)@ + tree_text(*nodes, depth as nat, nodes@.len()),
{
    let pad = indent(depth);
    render_nodes(nodes, pad.as_str(), out, Ghost(depth as nat));
}

/// Nodes whose lines begin with `pad`.
fn render_nodes(nodes: &Vec<FileTreeNode>, pad: &str, out: &mut String, Ghost(depth): Ghost<nat>)
    requires
        pad@ == indentation(depth),
    ensures
        final(out)@ == old(out)@ + tree_text(*nodes, depth, nodes@.len()),
    decreases nodes,
{
    let ghost start = out@;
    let mut i: usize = 0;
    assert(start + tree_text(*nodes, depth, 0) =~= start);
    while i < nodes.len()
        invariant
            i <= nodes@.len(),
            pad@ == indentation(depth),
            start == old(out)@,
            out@ == start + tree_text(*nodes, depth, i as nat),
        decreases nodes@.len() - i,
    {
        let node = &nodes[i];
        out.push_str(pad);
        out.push_str(node.name.as_str());
        if node.is_directory {
            out.push_str("/\n");
            match &node.children {
                Some(children) => {
                    let mut deeper = copy_text(pad);
                    deeper.push_str("  ");
                    render_nodes(children, deeper.as_str(), out, Ghost(depth + 1));
                },
                None => {},
            }
        } else {
            out.push_str("\n");
        }
        assert(out@ =~= start + tree_text(*nodes, depth, (i + 1) as nat));
        i = i + 1;
    }
}

/// The highest score among the first `n` hits.
pub open spec fn top_index(hits: Seq<SearchHit>, n: int) -> int
    decreases n,
{
    if n <= 1 {
        0
    } else {
        let before = top_index(hits, n - 1);
        if scores_less(hits[before].score, hits[n - 1].score) {
            n - 1
        } else {
            before
        }
    }
}

fn top_hit(hits: &Vec<SearchHit>) -> (index: usize)
    requires
        hits@.len() > 0,
    ensures
        index == top_index(hits@, hits@.len() as int),
        index < hits@.len(),
{
    let mut best: usize = 0;
    let mut i: usize = 1;
    while i < hits.len()
        invariant
            1 <= i <= hits@.len(),
            best < i,
            best == top_index(hits@, i as int),
        decreases hits@.len() - i,
    {
        if hits[best].score.less_than(&hits[i].score) {
            best = i;
        }
        i = i + 1;
    }
    best
}

/// Whether a hit is weak: it scores less than half of the best.
pub open spec fn is_weak(hits: Seq<SearchHit>, i: int) -> bool {
    less_than_half(hits[i].score, hits[top_index(hits, hits.len() as int)].score)
}

/// Whether the line that separates weaker matches stands before the hit at `i`:
/// before the first weak one.
pub open spec fn separates(hits: Seq<SearchHit>, i: int) -> bool {
    is_weak(hits, i) && forall|k: int| 0 <= k < i ==> !#[trigger] is_weak(hits, k)
}

/// The line that separates weaker matches.
pub open spec fn separator_text() -> Seq<char> {
    "--- weaker matches (below 50% of top score) ---\n\n"@
}

/// How many of some lines are blank before the first other line.
pub open spec fn blank_prefix(all: Seq<Seq<char>>) -> nat
    decreases all.len(),
{
    if all.len() > 0 && is_blank(all[0]) {
        1 + blank_prefix(all.drop_first())
    } else {
        0
    }
}

/// The lines of a snippet that are shown: without blank lines before the
/// signature, and the first four unless the whole body is wanted.
pub open spec fn shown_lines(snippet: Seq<char>, full_body: bool) -> Seq<Seq<char>> {
    let all = lines(snippet);
    let rest = all.skip(blank_prefix(all) as int);
    if full_body || rest.len() <= 4 {
        rest
    } else {
        rest.take(4)
    }
}

/// A line of a snippet as it is shown.
pub open spec fn snippet_line() -> spec_fn(Seq<char>) -> Seq<char> {
    |line: Seq<char>| "    "@ + line + "\n"@
}

proof fn lemma_blank_prefix(all: Seq<Seq<char>>, n: int)
    requires
        0 <= n <= all.len(),
        forall|i: int| 0 <= i < n ==> is_blank(#[trigger] all[i]),
        n < all.len() ==> !is_blank(all[n]),
    ensures
        blank_prefix(all) == n,
    decreases n,
{
    if n > 0 {
        assert(is_blank(all[0]));
        let rest = all.drop_first();
        assert forall|i: int| 0 <= i < n - 1 implies is_blank(#[trigger] rest[i]) by {
            assert(rest[i] == all[i + 1]);
        }
        lemma_blank_prefix(rest, n - 1);
    }
}

fn render_snippet(snippet: &str, full_body: bool) -> (out: String)
    ensures
        out@ == rendered(shown_lines(snippet@, full_body), snippet_line()),
{
    let chars = chars_of(snippet);
    let ranges = line_ranges(&chars);
    let ghost all = lines(snippet@);
    let mut first: usize = 0;
    let mut found = false;
    while !found && first < ranges.len()
        invariant
            first <= ranges@.len(),
            chars@ == snippet@,
            all == lines(snippet@),
            ranges@.len() == all.len(),
            forall|k: int|
                0 <= k < ranges@.len() ==> {
                    let (from, to) = #[trigger] ranges@[k];
                    &&& from <= to <= chars@.len()
                    &&& chars@.subrange(from as int, to as int) == lines(chars@)[k]
                },
            forall|k: int| 0 <= k < first ==> is_blank(#[trigger] all[k]),
            found ==> first < ranges@.len() && !is_blank(all[first as int]),
        decreases ranges@.len() - first, !found as int,
    {
        let (from, to) = ranges[first];
        let line = text_of(&chars, from, to);
        if blank(line.as_str()) {
            first = first + 1;
        } else {
            found = true;
        }
    }
    proof {
        lemma_blank_prefix(all, first as int);
    }
    let ghost wanted = shown_lines(snippet@, full_body);
    let total: usize = ranges.len();
    let available: usize = total - first;
    let count: usize = if full_body || available <= 4 {
        available
    } else {
        4
    };
    assert(wanted.len() == count);
    let mut out = String::new();
    let mut i: usize = 0;
    proof {
        lemma_rendered_none(wanted, snippet_line());
    }
    while i < count
        invariant
            i <= count,
            total == ranges@.len(),
            count <= total - first,
            chars@ == snippet@,
            all == lines(snippet@),
            ranges@.len() == all.len(),
            wanted.len() == count,
            forall|k: int| 0 <= k < count ==> #[trigger] wanted[k] == all[first + k],
            forall|k: int|
                0 <= k < ranges@.len() ==> {
                    let (from, to) = #[trigger] ranges@[k];
                    &&& from <= to <= chars@.len()
                    &&& chars@.subrange(from as int, to as int) == lines(chars@)[k]
                },
            out@ == rendered(wanted.take(i as int), snippet_line()),
        decreases count - i,
    {
        let (from, to) = ranges[first + i];
        let line = text_of(&chars, from, to);
        assert(line@ == wanted[i as int]);
        let mut text = copy_text("    ");
        text.push_str(line.as_str());
        text.push_str("\n");
        out.push_str(text.as_str());
        proof {
            lemma_rendered_next(wanted, snippet_line(), i as int);
        }
        i = i + 1;
    }
    assert(wanted.take(i as int) =~= wanted);
    out
}

/// How hits are shown.
#[derive(Clone, Copy)]
pub struct HitStyle<'a> {
    pub context: HitContext<'a>,
    /// Scores are shown for ranked results alone.
    pub show_score: bool,
    /// The whole snippet instead of its first lines.
    pub full_body: bool,
}

/// The first line of a hit.
pub open spec fn hit_head(hit: SearchHit, style: HitStyle, stale: Seq<Seq<char>>) -> Seq<char> {
    let root = hit_root(style.context, hit);
    "["@ + hit.domain_id@ + (match hit.language {
        Some(language) => " "@ + language@,
        None => ""@,
    }) + "]"@ + (match hit.codebase_id {
        Some(id) if style.show_score => " [codebase "@ + id@ + "]"@,
        _ => ""@,
    }) + " "@ + location_text(hit, root) + "  "@ + symbol_text(hit) + (if hit.kind@.len() == 0 {
        ""@
    } else {
        " ("@ + hit.kind@ + ")"@
    }) + marker_text(hit) + (if style.show_score {
        "  (score "@ + hit.score.text@ + ")"@
    } else {
        ""@
    }) + (if root is Some && (optional(hit.path) matches Some(path) && stale.contains(path)) {
        "  ⚠ stale (edited since indexed)"@
    } else {
        ""@
    }) + "\n"@
}

/// A hit as it is shown: its first line, its snippet, and an empty line.
pub open spec fn hit_block(
    hits: Seq<SearchHit>,
    style: HitStyle,
    stale: Seq<Seq<char>>,
    i: int,
) -> Seq<char> {
    (if style.show_score && separates(hits, i) {
        separator_text()
    } else {
        ""@
    }) + hit_head(hits[i], style, stale) + rendered(
        shown_lines(hits[i].snippet@, style.full_body),
        snippet_line(),
    ) + "\n"@
}

/// The first `n` hits as they are shown.
pub open spec fn hits_text(
    hits: Seq<SearchHit>,
    style: HitStyle,
    stale: Seq<Seq<char>>,
    n: nat,
) -> Seq<char>
    decreases n,
{
    if n == 0 {
        seq![]
    } else {
        hits_text(hits, style, stale, (n - 1) as nat) + hit_block(hits, style, stale, n - 1)
    }
}

fn render_head(hit: &SearchHit, style: HitStyle, stale: &Vec<String>) -> (head: String)
    ensures
        head@ == hit_head(*hit, style, texts(stale@)),
{
    let root = style.context.root_for(hit);
    let mut head = copy_text("[");
    head.push_str(hit.domain_id.as_str());
    let language = match &hit.language {
        Some(language) => {
            let mut text = copy_text(" ");
            text.push_str(language.as_str());
            text
        },
        None => copy_text(""),
    };
    head.push_str(language.as_str());
    head.push_str("]");
    let codebase = match &hit.codebase_id {
        Some(id) if style.show_score => {
            let mut text = copy_text(" [codebase ");
            text.push_str(id.as_str());
            text.push_str("]");
            text
        },
        _ => copy_text(""),
    };
    head.push_str(codebase.as_str());
    head.push_str(" ");
    head.push_str(hit_location(hit, root).as_str());
    head.push_str("  ");
    head.push_str(hit_symbol(hit).as_str());
    let kind = if hit.kind.as_str().is_empty() {
        copy_text("")
    } else {
        let mut text = copy_text(" (");
        text.push_str(hit.kind.as_str());
        text.push_str(")");
        text
    };
    head.push_str(kind.as_str());
    head.push_str(write_marker(hit).as_str());
    let score = if style.show_score {
        let mut text = copy_text("  (score ");
        text.push_str(hit.score.text.as_str());
        text.push_str(")");
        text
    } else {
        copy_text("")
    };
    head.push_str(score.as_str());
    let edited = match &hit.path {
        Some(path) => root.is_some() && lists(stale, path.as_str()),
        None => false,
    };
    if edited {
        head.push_str("  ⚠ stale (edited since indexed)");
    } else {
        head.push_str("");
    }
    head.push_str("\n");
    head
}

/// Hits as text. A ranked result separates its weaker tail without dropping
/// anything of it; `stale` holds the paths whose local file differs from the
/// index.
pub fn render_hits_inner(
    hits: &Vec<SearchHit>,
    empty_msg: &str,
    style: HitStyle,
    stale: &Vec<String>,
) -> (out: String)
    ensures
        out@ == if hits@.len() == 0 {
            empty_msg@
        } else {
            hits_text(hits@, style, texts(stale@), hits@.len())
        },
{
    if hits.len() == 0 {
        return copy_text(empty_msg);
    }
    let top: usize = top_hit(hits);
    let mut out = String::new();
    let mut separated = false;
    let mut i: usize = 0;
    assert(out@ =~= Seq::<char>::empty());
    while i < hits.len()
        invariant
            i <= hits@.len(),
            top < hits@.len(),
            top == top_index(hits@, hits@.len() as int),
            style.show_score ==> (separated <==> exists|k: int| 0 <= k < i && #[trigger] is_weak(hits@, k)),
            out@ == hits_text(hits@, style, texts(stale@), i as nat),
        decreases hits@.len() - i,
    {
        let hit = &hits[i];
        let weak = style.show_score && hit.score.is_weak(&hits[top].score);
        let mut block = if weak && !separated {
            assert(separates(hits@, i as int));
            separated = true;
            copy_text("--- weaker matches (below 50% of top score) ---\n\n")
        } else {
            proof {
                if style.show_score && separates(hits@, i as int) && separated {
                    let k = choose|k: int| 0 <= k < i && #[trigger] is_weak(hits@, k);
                    assert(!is_weak(hits@, k));
                }
            }
            copy_text("")
        };
        proof {
            if style.show_score && weak {
                assert(is_weak(hits@, i as int));
            }
        }
        block.push_str(render_head(hit, style, stale).as_str());
        block.push_str(render_snippet(hit.snippet.as_str(), style.full_body).as_str());
        block.push_str("\n");
        out.push_str(block.as_str());
        i = i + 1;
    }
    out
}

/// The style of a lookup: no scores, and the first lines of each snippet.
pub open spec fn lookup_style(root: Option<&str>) -> HitStyle {
    HitStyle {
        context: HitContext { root, codebase_id: None, allow_unidentified: true },
        show_score: false,
        full_body: false,
    }
}

/// Hits of a lookup as text.
pub open spec fn lookup_text(hits: Seq<SearchHit>, empty: Seq<char>, root: Option<&str>) -> Seq<char> {
    if hits.len() == 0 {
        empty
    } else {
        hits_text(hits, lookup_style(root), seq![], hits.len())
    }
}

/// Hits of a lookup as text: scores mean nothing there.
pub fn render_hits(hits: &Vec<SearchHit>, empty_msg: &str, root: Option<&str>) -> (out: String)
    ensures
        out@ == lookup_text(hits@, empty_msg@, root),
{
    let none: Vec<String> = Vec::new();
    assert(texts(none@) =~= seq![]);
    let style = HitStyle { context: HitContext::local(root), show_score: false, full_body: false };
    render_hits_inner(hits, empty_msg, style, &none)
}

/// A hit of another codebase never gets a local path and is never called stale.
pub proof fn law_other_codebases_have_no_local_path(
    context: HitContext,
    hit: SearchHit,
    id: Seq<char>,
    selected: Seq<char>,
)
    requires
        optional(hit.codebase_id) == Some(id),
        slice_text(context.codebase_id) == Some(selected),
        id != selected,
    ensures
        hit_root(context, hit) is None,
        hit.path matches Some(path) ==> shown_path(hit_root(context, hit), path@) == path@,
{
}

/// The line that separates weaker matches stands before one hit at most, and no
/// hit before it is weak.
pub proof fn law_weaker_matches_are_separated_once(hits: Seq<SearchHit>, i: int, j: int)
    requires
        0 <= i < hits.len(),
        0 <= j < hits.len(),
        separates(hits, i),
        separates(hits, j),
    ensures
        i == j,
        forall|k: int| 0 <= k < i ==> !#[trigger] is_weak(hits, k),
{
    if i < j {
        assert(!is_weak(hits, i));
    } else if j < i {
        assert(!is_weak(hits, j));
    }
}

/// A path of a codebase is shown below the local checkout where there is one: the
/// checkout's directory, a slash unless the directory ends with one, and the path.
/// Without a checkout it is shown as it is. Nothing is added or lost.
pub proof fn law_a_path_is_shown_below_its_checkout(dir: Seq<char>, rel: Seq<char>)
    requires
        dir.len() > 0,
        dir[0] != '\\',
        rel.len() == 0 || rel[0] != '/',
    ensures
        shown_path(None, rel) == rel,
        dir.last() == '/' ==> shown_path(Some(dir), rel) == dir + rel,
        dir.last() != '/' ==> shown_path(Some(dir), rel) == dir + seq!['/'] + rel,
{
    reveal_strlit("/");
    reveal_strlit("\\\\?\\");
    reveal_strlit("\\\\?\\UNC\\");
    assert("/"@ =~= seq!['/']);
    let full = joined(dir, rel);
    assert(full[0] == dir[0]);
    if "\\\\?\\"@.is_prefix_of(full) {
        assert(full[0] == "\\\\?\\"@[0]);
    }
    if "\\\\?\\UNC\\"@.is_prefix_of(full) {
        assert(full[0] == "\\\\?\\UNC\\"@[0]);
    }
}

/// Where a hit is: its path, then its first line, then its last line, each where it
/// is known.
pub proof fn law_a_location_names_path_and_lines(hit: SearchHit, root: Option<Seq<char>>)
    ensures
        hit.path is None ==> location_text(hit, root) == "(no location)"@,
        hit.path matches Some(path) ==> {
            let shown = shown_path(root, path@);
            &&& hit.line_start is None ==> location_text(hit, root) == shown
            &&& hit.line_start matches Some(start) ==> match hit.line_end {
                Some(end) => location_text(hit, root) == shown + ":"@ + decimal(start as nat)
                    + "-"@ + decimal(end as nat),
                None => location_text(hit, root) == shown + ":"@ + decimal(start as nat),
            }
        },
{
}

/// The symbol of a hit is shown by its name, with the declaration that contains it.
pub proof fn law_a_symbol_is_shown_with_what_contains_it(hit: SearchHit)
    ensures
        hit.symbol is None && hit.enclosing_symbol is None ==> symbol_text(hit) == "-"@,
        hit.symbol is None ==> (hit.enclosing_symbol matches Some(around) ==> symbol_text(hit)
            == "-"@ + " in "@ + around@),
        hit.symbol matches Some(name) ==> match hit.enclosing_symbol {
            Some(around) => symbol_text(hit) == name@ + " in "@ + around@,
            None => symbol_text(hit) == name@,
        },
{
}

/// What a reference is marked with: that it writes, its namespace in lower case, its
/// kind, and what it refers to, the qualified name before the external one; each
/// where it is known, with a semicolon between them. A plain read is not marked.
pub proof fn law_a_marker_tells_what_is_known(hit: SearchHit)
    ensures
        ({
            let writes = hit.is_write == Some(true);
            let target = match (hit.qualified_symbol, hit.external_target) {
                (Some(name), _) => Some("-> "@ + name@),
                (None, Some(name)) => Some("-> "@ + name@),
                (None, None) => None,
            };
            let plain = !writes && hit.reference_namespace is None && hit.reference_kind is None
                && target is None;
            &&& plain <==> marker_text(hit).len() == 0
            &&& !plain ==> {
                &&& " ("@.is_prefix_of(marker_text(hit))
                &&& ")"@.is_suffix_of(marker_text(hit))
            }
            &&& marker_parts(hit).contains("write"@) || !writes
            &&& hit.reference_namespace matches Some(n) ==> marker_parts(hit).contains(
                lower_ascii(n@),
            )
            &&& hit.reference_kind matches Some(kind) ==> marker_parts(hit).contains(kind@)
            &&& target matches Some(text) ==> marker_parts(hit).last() == text
            &&& marker_parts(hit).len() == (if writes { 1int } else { 0 }) + (
            if hit.reference_namespace is Some { 1int } else { 0 }) + (
            if hit.reference_kind is Some { 1int } else { 0 }) + (
            if target is Some { 1int } else { 0 })
            &&& writes && hit.reference_namespace is None && hit.reference_kind is None
                && target is None ==> marker_text(hit) == " (write)"@
            &&& !plain ==> marker_text(hit) == " ("@ + separated(marker_parts(hit), "; "@) + ")"@
        }),
{
    reveal_strlit("");
    reveal_strlit(" (");
    reveal_strlit(")");
    reveal_strlit("write");
    reveal_strlit(" (write)");
    let parts = marker_parts(hit);
    let text = marker_text(hit);
    let writes = hit.is_write == Some(true);
    let n = if writes { 1int } else { 0 };
    let m = n + if hit.reference_namespace is Some { 1int } else { 0 };
    if writes {
        assert(parts[0] == "write"@);
    }
    if hit.reference_namespace is Some {
        assert(parts[n] == lower_ascii(hit.reference_namespace->0@));
    }
    if hit.reference_kind is Some {
        assert(parts[m] == hit.reference_kind->0@);
    }
    if parts.len() > 0 {
        assert(text.subrange(0, 2) =~= " ("@);
        assert(text.subrange(text.len() - 1, text.len() as int) =~= ")"@);
    }
    assert(" (write)"@ =~= " ("@ + "write"@ + ")"@);
}

/// The first line of a hit tells, in this order, its domain and language, its
/// codebase where scores are shown, where it is, its symbol, its kind where it has
/// one, the marker of a reference, its score where scores are shown, and that it is
/// stale exactly where it lies in the local checkout and its file was edited.
pub proof fn law_a_hit_is_headed_by_all_it_has(hit: SearchHit, style: HitStyle, stale: Seq<Seq<char>>)
    ensures
        ({
            let root = hit_root(style.context, hit);
            let edited = root is Some && hit.path is Some && stale.contains(hit.path->0@);
            hit_head(hit, style, stale) == "["@ + hit.domain_id@
                + (if hit.language is Some { " "@ + hit.language->0@ } else { ""@ }) + "]"@
                + (if style.show_score && hit.codebase_id is Some {
                    " [codebase "@ + hit.codebase_id->0@ + "]"@
                } else {
                    ""@
                }) + " "@ + location_text(hit, root) + "  "@ + symbol_text(hit)
                    + (if hit.kind@.len() > 0 { " ("@ + hit.kind@ + ")"@ } else { ""@ })
                    + marker_text(hit) + (if style.show_score { "  (score "@ + hit.score.text@
                    + ")"@ } else { ""@ })
                    + (if edited { "  ⚠ stale (edited since indexed)"@ } else { ""@ }) + "\n"@
        }),
{
}

/// Which lines of a snippet are shown: those behind the blank ones it begins with,
/// all of them where the whole body is wanted, and otherwise the first four.
pub proof fn law_a_snippet_begins_with_its_signature(snippet: Seq<char>, full_body: bool)
    ensures
        exists|n: int|
            #![trigger lines(snippet).skip(n)]
            {
                let all = lines(snippet);
                &&& 0 <= n <= all.len()
                &&& forall|k: int| 0 <= k < n ==> is_blank(#[trigger] all[k])
                &&& n < all.len() ==> !is_blank(all[n])
                &&& full_body ==> shown_lines(snippet, full_body) == all.skip(n)
                &&& !full_body ==> shown_lines(snippet, full_body) == all.skip(n).take(
                    if all.len() - n < 4 { all.len() - n } else { 4 },
                )
            },
{
    let all = lines(snippet);
    lemma_blank_prefix_bounds(all);
    let n = blank_prefix(all) as int;
    assert(all.skip(n).take(all.len() - n) =~= all.skip(n));
}

proof fn lemma_blank_prefix_bounds(all: Seq<Seq<char>>)
    ensures
        blank_prefix(all) <= all.len(),
        forall|k: int| 0 <= k < blank_prefix(all) ==> is_blank(#[trigger] all[k]),
        blank_prefix(all) < all.len() ==> !is_blank(all[blank_prefix(all) as int]),
    decreases all.len(),
{
    if all.len() > 0 && is_blank(all[0]) {
        let rest = all.drop_first();
        lemma_blank_prefix_bounds(rest);
        assert forall|k: int| 0 <= k < blank_prefix(all) implies is_blank(#[trigger] all[k]) by {
            if k > 0 {
                assert(rest[k - 1] == all[k]);
            }
        }
    }
}

/// Whether a hit scores less than half of the best one.
pub open spec fn scores_weakly(hits: Seq<SearchHit>, i: int) -> bool {
    exists|top: int|
        0 <= top < hits.len() && less_than_half(hits[i].score, #[trigger] hits[top].score) && forall|
            k: int,
        |
            0 <= k < hits.len() ==> !scores_less(hits[top].score, #[trigger] hits[k].score)
}

proof fn lemma_not_less(a: SearchHit, b: SearchHit, c: SearchHit)
    ensures
        !scores_less(a.score, b.score) && !scores_less(b.score, c.score) ==> !scores_less(
            a.score,
            c.score,
        ),
        !scores_less(a.score, a.score),
        scores_less(a.score, b.score) ==> !scores_less(b.score, a.score),
        !scores_less(a.score, b.score) && !scores_less(b.score, a.score) && less_than_half(
            c.score,
            a.score,
        ) ==> less_than_half(c.score, b.score),
{
    let (x, y, z) = (a.score.exponent as int, b.score.exponent as int, c.score.exponent as int);
    let low = if x <= y && x <= z {
        x
    } else if y <= z {
        y
    } else {
        z
    };
    law_scores_are_compared_as_numbers(a.score, a.score, low);
    law_scores_are_compared_as_numbers(a.score, b.score, low);
    law_scores_are_compared_as_numbers(b.score, a.score, low);
    law_scores_are_compared_as_numbers(b.score, c.score, low);
    law_scores_are_compared_as_numbers(a.score, c.score, low);
    law_scores_are_compared_as_numbers(c.score, a.score, low);
    law_scores_are_compared_as_numbers(c.score, b.score, low);
}

proof fn lemma_top(hits: Seq<SearchHit>, n: int)
    requires
        1 <= n <= hits.len(),
    ensures
        0 <= top_index(hits, n) < n,
        forall|k: int|
            0 <= k < n ==> !scores_less(hits[top_index(hits, n)].score, #[trigger] hits[k].score),
    decreases n,
{
    let top = top_index(hits, n);
    if n > 1 {
        lemma_top(hits, n - 1);
        let before = top_index(hits, n - 1);
        assert forall|k: int| 0 <= k < n implies !scores_less(
            hits[top].score,
            #[trigger] hits[k].score,
        ) by {
            lemma_not_less(hits[top], hits[before], hits[k]);
            lemma_not_less(hits[before], hits[top], hits[k]);
            lemma_not_less(hits[top], hits[top], hits[k]);
        }
    } else {
        lemma_not_less(hits[0], hits[0], hits[0]);
    }
}

proof fn lemma_weak(hits: Seq<SearchHit>, i: int)
    requires
        0 <= i < hits.len(),
    ensures
        is_weak(hits, i) == scores_weakly(hits, i),
{
    let best = top_index(hits, hits.len() as int);
    lemma_top(hits, hits.len() as int);
    if is_weak(hits, i) {
        assert(less_than_half(hits[i].score, hits[best].score));
    }
    if scores_weakly(hits, i) {
        let top = choose|top: int|
            0 <= top < hits.len() && less_than_half(hits[i].score, #[trigger] hits[top].score)
                && forall|k: int|
                0 <= k < hits.len() ==> !scores_less(hits[top].score, #[trigger] hits[k].score);
        lemma_not_less(hits[top], hits[best], hits[i]);
        assert(!scores_less(hits[top].score, hits[best].score));
        assert(!scores_less(hits[best].score, hits[top].score));
    }
}

/// What is shown of the hit at `i`: where scores are shown and it is the first that
/// scores less than half of the best one, the line that separates weaker matches;
/// then its first line, the lines of its snippet, each indented by four spaces, and
/// an empty line.
pub open spec fn shown_hit(
    hits: Seq<SearchHit>,
    style: HitStyle,
    stale: Seq<Seq<char>>,
    i: int,
) -> Seq<char> {
    let first_weak = scores_weakly(hits, i) && forall|k: int|
        0 <= k < i ==> !#[trigger] scores_weakly(hits, k);
    let snippet = shown_lines(hits[i].snippet@, style.full_body);
    (if style.show_score && first_weak {
            "--- weaker matches (below 50% of top score) ---\n\n"@
        } else {
            ""@
        }) + hit_head(hits[i], style, stale) + Seq::new(snippet.len(), |k: int| "    "@
            + snippet[k] + "\n"@).flatten() + "\n"@
}

/// Every hit is shown, whatever its score: the text of some hits is one block for
/// each of them, in their order, and nothing else.
pub proof fn law_every_hit_is_shown(hits: Seq<SearchHit>, style: HitStyle, stale: Seq<Seq<char>>)
    ensures
        hits_text(hits, style, stale, hits.len()) == Seq::new(
            hits.len(),
            |i: int| shown_hit(hits, style, stale, i),
        ).flatten(),
{
    lemma_hits_in_a_row(hits, style, stale, hits.len());
}

proof fn lemma_hits_in_a_row(
    hits: Seq<SearchHit>,
    style: HitStyle,
    stale: Seq<Seq<char>>,
    n: nat,
)
    requires
        n <= hits.len(),
    ensures
        hits_text(hits, style, stale, n) == Seq::new(
            n,
            |i: int| shown_hit(hits, style, stale, i),
        ).flatten(),
    decreases n,
{
    let make = |i: int| shown_hit(hits, style, stale, i);
    if n > 0 {
        let i = n - 1;
        lemma_hits_in_a_row(hits, style, stale, i as nat);
        lemma_row_grows(make, i as nat);
        lemma_weak(hits, i);
        assert forall|k: int| 0 <= k < i implies is_weak(hits, k) == #[trigger] scores_weakly(
            hits,
            k,
        ) by {
            lemma_weak(hits, k);
        }
        assert forall|k: int| 0 <= k < i implies #[trigger] is_weak(hits, k) == scores_weakly(
            hits,
            k,
        ) by {
            lemma_weak(hits, k);
        }
        let snippet = shown_lines(hits[i].snippet@, style.full_body);
        lemma_rendered_is_a_row(snippet, snippet_line());
        assert(Seq::new(snippet.len(), |k: int| "    "@ + snippet[k] + "\n"@) =~= Seq::new(
            snippet.len(),
            |k: int| snippet_line()(snippet[k]),
        ));
        assert(shown_hit(hits, style, stale, i) == hit_block(hits, style, stale, i)) by {
            broadcast use Seq::lemma_flatten_push;

            lemma_no_parts();
        }
    } else {
        lemma_row_grows(make, 0);
    }
}

/// Hits of a lookup are shown without scores and without a separator, from the local
/// checkout, and with the first lines of each snippet.
pub proof fn law_a_lookup_shows_every_hit(hits: Seq<SearchHit>, empty: Seq<char>, root: Option<&str>)
    ensures
        hits.len() == 0 ==> lookup_text(hits, empty, root) == empty,
        hits.len() > 0 ==> lookup_text(hits, empty, root) == Seq::new(
            hits.len(),
            |i: int|
                shown_hit(
                    hits,
                    HitStyle {
                        context: HitContext { root, codebase_id: None, allow_unidentified: true },
                        show_score: false,
                        full_body: false,
                    },
                    seq![],
                    i,
                ),
        ).flatten(),
{
    law_every_hit_is_shown(hits, lookup_style(root), seq![]);
    assert(Seq::new(hits.len(), |i: int| shown_hit(hits, lookup_style(root), seq![], i)) =~= Seq::new(
        hits.len(),
        |i: int|
            shown_hit(
                hits,
                HitStyle {
                    context: HitContext { root, codebase_id: None, allow_unidentified: true },
                    show_score: false,
                    full_body: false,
                },
                seq![],
                i,
            ),
    ));
}

/// What is shown of a hit that takes one line: where it is, its symbol and its
/// marker.
pub open spec fn hit_on_a_line(hit: SearchHit, root: Option<Seq<char>>) -> Seq<char> {
    "  "@ + location_text(hit, root) + " "@ + symbol_text(hit) + marker_text(hit) + "\n"@
}

/// A compact list has one line for each hit, in their order, and a message where
/// there is none.
pub proof fn law_a_compact_list_has_a_line_for_each_hit(
    hits: Seq<SearchHit>,
    empty: Seq<char>,
    root: Option<Seq<char>>,
)
    ensures
        hits.len() == 0 ==> compact_text(hits, empty, root) == empty + "\n"@,
        hits.len() > 0 ==> compact_text(hits, empty, root) == Seq::new(
            hits.len(),
            |i: int| hit_on_a_line(hits[i], root),
        ).flatten(),
{
    lemma_rendered_is_a_row(hits, compact_line(root));
    assert forall|i: int| 0 <= i < hits.len() implies #[trigger] compact_line(root)(hits[i])
        == hit_on_a_line(hits[i], root) by {
        broadcast use Seq::lemma_flatten_push;

        lemma_no_parts();
    }
    assert(Seq::new(hits.len(), |i: int| compact_line(root)(hits[i])) =~= Seq::new(
        hits.len(),
        |i: int| hit_on_a_line(hits[i], root),
    ));
}

/// A list of boundaries has one line for each and says how many there are.
pub proof fn law_every_boundary_is_listed(boundaries: Seq<String>, empty: Seq<char>)
    ensures
        boundaries.len() == 0 ==> boundaries_text(boundaries, empty) == empty + "\n"@,
        boundaries.len() > 0 ==> boundaries_text(boundaries, empty) == Seq::new(boundaries.len(), |i: int| "  "@
            + boundaries[i]@ + "\n"@).flatten() + "("@ + decimal(boundaries.len())
            + " boundar"@ + (if boundaries.len() == 1 { "y"@ } else { "ies"@ }) + ")\n"@,
{
    lemma_rendered_is_a_row(boundaries, boundary_line());
    assert(Seq::new(boundaries.len(), |i: int| boundary_line()(boundaries[i])) =~= Seq::new(
        boundaries.len(),
        |i: int| "  "@ + boundaries[i]@ + "\n"@,
    ));
}

/// A catalog has one line for each file, with its path and its size.
pub proof fn law_every_file_is_listed(files: Seq<CodebaseFile>, root: Option<Seq<char>>)
    ensures
        rendered(files, file_line(root)) == Seq::new(
            files.len(),
            |i: int|
                shown_path(root, files[i].path@) + "  ("@ + signed_decimal(files[i].size as int)
                    + " bytes)\n"@,
        ).flatten(),
{
    lemma_rendered_is_a_row(files, file_line(root));
    assert(Seq::new(files.len(), |i: int| file_line(root)(files[i])) =~= Seq::new(
        files.len(),
        |i: int|
            shown_path(root, files[i].path@) + "  ("@ + signed_decimal(files[i].size as int)
                + " bytes)\n"@,
    ));
}

/// A job's progress: an error makes it failed, whatever its times say; otherwise it
/// is done, running or queued by the last time that is known. The files it is done
/// with, those that failed among them, are counted against all it has to do with.
pub proof fn law_a_job_is_shown_by_its_progress(job_id: Seq<char>, job: JobStatus)
    ensures
        ({
            let phase = match (job.error, job.completed_at, job.started_at) {
                (Some(_), _, _) => "failed"@,
                (None, Some(_), _) => "done"@,
                (None, None, Some(_)) => "running"@,
                (None, None, None) => "queued"@,
            };
            let total = job.files_to_embed + job.files_to_delete;
            job_text(job_id, job) == "last sync run "@ + job_id + ": "@ + phase
                + "\n  files: "@ + signed_decimal(job.files_embedded + job.files_deleted
                + job.files_failed) + "/"@ + signed_decimal(total) + " processed (embedded "@
                + signed_decimal(job.files_embedded as int) + ", deleted "@
                + signed_decimal(job.files_deleted as int) + ", failed "@
                + signed_decimal(job.files_failed as int) + ")"@
                + (if job.error is Some { "\n  error: "@ + job.error->0@ } else { ""@ })
                + (if job.error is None && job.completed_at is Some && total == 0 {
                    "\n  (up to date — nothing to sync)"@
                } else {
                    ""@
                })
        }),
{
}

/// Every group and every project of a graph is shown, groups first.
pub proof fn law_every_project_is_shown(graph: ProjectGraph)
    ensures
        graph.projects@.len() == 0 && graph.groups@.len() == 0 ==> projects_text(graph)
            == "(no projects detected — synced files may not include manifests)"@,
        graph.projects@.len() > 0 || graph.groups@.len() > 0 ==> projects_text(graph) == Seq::new(
            graph.groups@.len(),
            |i: int|
                "[group] "@ + graph.groups@[i].name@ + "  ("@ + graph.groups@[i].kind@ + ", "@
                    + graph.groups@[i].root@ + ")  "@ + decimal(graph.groups@[i].children@.len())
                    + " member(s)\n"@,
        ).flatten() + Seq::new(
            graph.projects@.len(),
            |i: int|
                graph.projects@[i].name@ + "  ("@ + graph.projects@[i].kind@ + ", "@
                    + graph.projects@[i].root@ + ")  "@ + decimal(
                    graph.projects@[i].file_count as nat,
                ) + " file(s)\n"@ + if graph.projects@[i].config_file is Some {
                    "    "@ + graph.projects@[i].config_file->0@ + "\n"@
                } else {
                    ""@
                },
        ).flatten(),
{
    lemma_rendered_is_a_row(graph.groups@, group_line());
    lemma_rendered_is_a_row(graph.projects@, project_lines());
    assert(Seq::new(graph.groups@.len(), |i: int| group_line()(graph.groups@[i])) =~= Seq::new(
        graph.groups@.len(),
        |i: int|
            "[group] "@ + graph.groups@[i].name@ + "  ("@ + graph.groups@[i].kind@ + ", "@
                + graph.groups@[i].root@ + ")  "@ + decimal(graph.groups@[i].children@.len())
                + " member(s)\n"@,
    ));
    assert(Seq::new(graph.projects@.len(), |i: int| project_lines()(graph.projects@[i])) =~= Seq::new(
        graph.projects@.len(),
        |i: int|
            graph.projects@[i].name@ + "  ("@ + graph.projects@[i].kind@ + ", "@
                + graph.projects@[i].root@ + ")  "@ + decimal(graph.projects@[i].file_count as nat)
                + " file(s)\n"@ + if graph.projects@[i].config_file is Some {
                "    "@ + graph.projects@[i].config_file->0@ + "\n"@
            } else {
                ""@
            },
    ));
}

/// A list that was capped says how many of how many are shown, and one that is
/// complete says nothing.
pub proof fn law_a_capped_list_says_so(shown: nat, total: u32)
    ensures
        shown >= total ==> truncation_text(shown, total).len() == 0,
        shown < total ==> truncation_text(shown, total) == "\n(showing "@ + decimal(shown)
            + " of "@ + decimal(total as nat) + " — capped at "@ + decimal(20000)
            + "; narrow the codebase to see the rest)\n"@,
{
    reveal_strlit("");
}

/// A file tree shows every node on a line of its own, in order: indented by two
/// spaces for each level, a directory with a slash and then all that is below it one
/// level deeper, and a file alone.
pub proof fn law_a_tree_shows_every_node(nodes: Vec<FileTreeNode>, depth: nat)
    ensures
        tree_text(nodes, depth, nodes@.len()) == Seq::new(
            nodes@.len(),
            |i: int|
                Seq::new(2 * depth, |k: int| ' ') + nodes@[i].name@ + if !nodes@[i].is_directory {
                    "\n"@
                } else if nodes@[i].children is Some {
                    "/\n"@ + tree_text(
                        nodes@[i].children->0,
                        depth + 1,
                        nodes@[i].children->0@.len(),
                    )
                } else {
                    "/\n"@
                },
        ).flatten(),
{
    lemma_tree_in_a_row(nodes, depth, nodes@.len());
}

proof fn lemma_indentation(depth: nat)
    ensures
        indentation(depth) == Seq::new(2 * depth, |k: int| ' '),
    decreases depth,
{
    reveal_strlit("");
    reveal_strlit("  ");
    if depth > 0 {
        lemma_indentation((depth - 1) as nat);
    }
    assert(indentation(depth) =~= Seq::new(2 * depth, |k: int| ' '));
}

proof fn lemma_tree_in_a_row(nodes: Vec<FileTreeNode>, depth: nat, n: nat)
    requires
        n <= nodes@.len(),
    ensures
        tree_text(nodes, depth, n) == Seq::new(
            n,
            |i: int|
                Seq::new(2 * depth, |k: int| ' ') + nodes@[i].name@ + if !nodes@[i].is_directory {
                    "\n"@
                } else if nodes@[i].children is Some {
                    "/\n"@ + tree_text(
                        nodes@[i].children->0,
                        depth + 1,
                        nodes@[i].children->0@.len(),
                    )
                } else {
                    "/\n"@
                },
        ).flatten(),
    decreases n,
{
    let make = |i: int|
        Seq::new(2 * depth, |k: int| ' ') + nodes@[i].name@ + if !nodes@[i].is_directory {
            "\n"@
        } else if nodes@[i].children is Some {
            "/\n"@ + tree_text(nodes@[i].children->0, depth + 1, nodes@[i].children->0@.len())
        } else {
            "/\n"@
        };
    lemma_indentation(depth);
    if n > 0 {
        lemma_tree_in_a_row(nodes, depth, (n - 1) as nat);
        lemma_row_grows(make, (n - 1) as nat);
        let before = tree_text(nodes, depth, (n - 1) as nat);
        assert(tree_text(nodes, depth, n) =~= before + make(n - 1));
    } else {
        lemma_row_grows(make, 0);
    }
}

/// A call of `render_hits_inner` shows every hit in its place, a weak one as well as a
/// strong one, or the message for none.
pub proof fn law_rendering_shows_every_hit(
    hits: &Vec<SearchHit>,
    empty_msg: &str,
    style: HitStyle,
    stale: &Vec<String>,
    out: String,
)
    requires
        call_ensures(render_hits_inner, (hits, empty_msg, style, stale), out),
    ensures
        hits@.len() == 0 ==> out@ == empty_msg@,
        hits@.len() > 0 ==> out@ == Seq::new(
            hits@.len(),
            |i: int|
                shown_hit(hits@, style, Seq::new(stale@.len(), |k: int| stale@[k]@), i),
        ).flatten(),
{
    law_every_hit_is_shown(hits@, style, texts(stale@));
    assert(texts(stale@) =~= Seq::new(stale@.len(), |k: int| stale@[k]@));
    assert(Seq::new(hits@.len(), |i: int| shown_hit(hits@, style, texts(stale@), i)) =~= Seq::new(
        hits@.len(),
        |i: int| shown_hit(hits@, style, Seq::new(stale@.len(), |k: int| stale@[k]@), i),
    ));
}

/// A hit has the local root exactly where it is of the selected codebase, or where it
/// or the selection has no codebase and that is allowed. Hits of another codebase have
/// none.
pub proof fn law_which_hits_are_local(context: HitContext, hit: &SearchHit, root: Option<&str>)
    requires
        call_ensures(HitContext::root_for, (context, hit), root),
    ensures
        ({
            let told = hit.codebase_id is Some && context.codebase_id is Some;
            let same = told && hit.codebase_id->0@ == context.codebase_id->0@;
            let local = if told { same } else { context.allow_unidentified };
            &&& local ==> slice_text(root) == slice_text(context.root)
            &&& !local ==> root is None
        }),
{
}

/// What is rendered is what its text says: locations, symbols, markers, lists, jobs,
/// projects and trees.
pub proof fn law_rendering_says_what_there_is(
    hit: &SearchHit,
    hits: &Vec<SearchHit>,
    empty: &str,
    root: Option<&str>,
    job_id: &str,
    job: &JobStatus,
    graph: &ProjectGraph,
    location: String,
    symbol: String,
    marker: String,
    compact: String,
    full: String,
    progress: String,
    projects: String,
)
    requires
        call_ensures(hit_location, (hit, root), location),
        call_ensures(hit_symbol, (hit,), symbol),
        call_ensures(write_marker, (hit,), marker),
        call_ensures(render_compact, (hits, empty, root), compact),
        call_ensures(render_hits, (hits, empty, root), full),
        call_ensures(render_job, (job_id, job), progress),
        call_ensures(render_projects, (graph,), projects),
    ensures
        location@ == location_text(*hit, slice_text(root)),
        symbol@ == symbol_text(*hit),
        marker@ == marker_text(*hit),
        compact@ == compact_text(hits@, empty@, slice_text(root)),
        full@ == lookup_text(hits@, empty@, root),
        progress@ == job_text(job_id@, *job),
        projects@ == projects_text(*graph),
{
}

} // verus!
