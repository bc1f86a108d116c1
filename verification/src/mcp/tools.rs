//! What the tools do with their inputs before and after they ask the server.

use vstd::prelude::*;

use crate::api::{
    InsertSymbolRequest, RenameSymbolRequest, ReplaceSymbolBodyRequest, SafeDeleteSymbolRequest,
};
use crate::mcp::tool_types::{
    is_regex_char, pattern_needs_regex, AnalysisPageArgs, BatchArgs, CallGraphArgs, GrepArgs,
    InsertSymbolArgs, OutlineArgs, ReadSourceArgs, ReferenceArgs, RenameSymbolArgs,
    ReplaceBodyArgs, SafeDeleteSymbolArgs, SearchArgs, SymbolSearchArgs, TraceArgs,
    TypeHierarchyArgs,
};
use crate::query::render::slice_text;
use crate::query::requests::{GrepRequest, SearchOpts, SymbolSearchOptions};
use crate::text::{
    copy_optional, copy_text, copy_texts, optional, optional_or, same, text_or, texts,
};

verus! {

/// The tools that are offered.
pub const TOOLS: [&'static str; 39] = [
    "search_codebase",
    "find_definition",
    "find_references",
    "who_calls",
    "implementations_of",
    "call_path",
    "reaches",
    "flows_into",
    "flows_between",
    "trace",
    "grep",
    "file_outline",
    "expand_chunk",
    "symbol_at_position",
    "batch_lookup",
    "file_tree",
    "list_files",
    "list_projects",
    "imports",
    "symbol_edges",
    "external_links",
    "list_domains",
    "index_codebase",
    "sync_status",
    "list_codebases",
    "current_context",
    "read_source",
    "search_symbols",
    "type_hierarchy",
    "call_graph",
    "cycles",
    "unused",
    "duplicates",
    "rename_symbol",
    "safe_delete_symbol",
    "replace_symbol_body",
    "insert_before_symbol",
    "insert_after_symbol",
    "undo_edit",
];

/// The tools that change files at once.
pub const DIRECT_EDIT_TOOLS: [&'static str; 6] = [
    "rename_symbol",
    "safe_delete_symbol",
    "replace_symbol_body",
    "insert_before_symbol",
    "insert_after_symbol",
    "undo_edit",
];

/// Whether a name is one of a list.
pub open spec fn is_one_of(name: Seq<char>, list: Seq<&'static str>) -> bool {
    exists|i: int| 0 <= i < list.len() && (#[trigger] list[i])@ == name
}

pub(crate) fn one_of(name: &str, list: &[&'static str]) -> (found: bool)
    ensures
        found == is_one_of(name@, list@),
{
    let mut i: usize = 0;
    while i < list.len()
        invariant
            i <= list@.len(),
            forall|k: int| 0 <= k < i ==> (#[trigger] list@[k])@ != name@,
        decreases list@.len() - i,
    {
        if same(list[i], name) {
            assert(list@[i as int]@ == name@);
            return true;
        }
        i = i + 1;
    }
    false
}

/// The file that describes a tool, for the tools that are offered.
pub open spec fn doc_path(name: Seq<char>) -> Option<Seq<char>> {
    if is_one_of(name, TOOLS@) {
        Some("docs/tools/"@ + name + ".md"@)
    } else {
        None
    }
}

pub fn tool_doc(name: &str) -> (path: Option<String>)
    ensures
        optional(path) == doc_path(name@),
{
    if one_of(name, &TOOLS) {
        let mut path = copy_text("docs/tools/");
        path.push_str(name);
        path.push_str(".md");
        Some(path)
    } else {
        None
    }
}

/// What a host may rely on of a tool.
#[derive(Clone, Copy, Debug, PartialEq, Eq, Structural)]
pub struct Annotations {
    pub read_only: bool,
    pub destructive: Option<bool>,
    pub idempotent: Option<bool>,
    pub open_world: bool,
}

/// What a host may rely on of the tool of a name.
pub open spec fn tool_annotations(name: Seq<char>) -> Annotations {
    if name == "index_codebase"@ {
        Annotations {
            read_only: false,
            destructive: Some(false),
            idempotent: Some(true),
            open_world: false,
        }
    } else if is_one_of(name, DIRECT_EDIT_TOOLS@) {
        Annotations {
            read_only: false,
            destructive: Some(true),
            idempotent: Some(name == "undo_edit"@),
            open_world: false,
        }
    } else {
        Annotations { read_only: true, destructive: None, idempotent: None, open_world: false }
    }
}

pub fn annotations(name: &str) -> (annotations: Annotations)
    ensures
        annotations == tool_annotations(name@),
{
    if same(name, "index_codebase") {
        Annotations {
            read_only: false,
            destructive: Some(false),
            idempotent: Some(true),
            open_world: false,
        }
    } else if one_of(name, &DIRECT_EDIT_TOOLS) {
        Annotations {
            read_only: false,
            destructive: Some(true),
            idempotent: Some(same(name, "undo_edit")),
            open_world: false,
        }
    } else {
        Annotations { read_only: true, destructive: None, idempotent: None, open_world: false }
    }
}

/// Every tool that is offered has a description, and a tool that is called read
/// only is neither the one that indexes nor one that edits.
pub proof fn law_read_only_tools_change_nothing(name: Seq<char>)
    requires
        is_one_of(name, TOOLS@),
    ensures
        doc_path(name) is Some,
        tool_annotations(name).read_only <==> name != "index_codebase"@ && !is_one_of(
            name,
            DIRECT_EDIT_TOOLS@,
        ),
        tool_annotations(name).destructive == Some(true) ==> is_one_of(name, DIRECT_EDIT_TOOLS@),
        !tool_annotations(name).open_world,
{
}

/// A tool that cannot be used now.
pub open spec fn unavailable_text(tool: Seq<char>, reason: Seq<char>) -> Seq<char> {
    tool + " unavailable — "@ + reason
}

pub fn unavailable(tool: &str, reason: &str) -> (text: String)
    ensures
        text@ == unavailable_text(tool@, reason@),
{
    let mut text = copy_text(tool);
    text.push_str(" unavailable — ");
    text.push_str(reason);
    text
}

/// An edit that could not be planned.
pub fn planning_failed(operation: &str, reason: &str) -> (text: String)
    ensures
        text@ == operation@ + " planning failed: "@ + reason@,
{
    let mut text = copy_text(operation);
    text.push_str(" planning failed: ");
    text.push_str(reason);
    text
}

/// An edit that was not made.
pub fn refused(operation: &str, reason: &str) -> (text: String)
    ensures
        text@ == operation@ + " refused: "@ + reason@,
{
    let mut text = copy_text(operation);
    text.push_str(" refused: ");
    text.push_str(reason);
    text
}

/// An edit that was made, and whose result could not be written down.
pub fn render_failed(operation: &str, reason: &str) -> (text: String)
    ensures
        text@ == operation@ + " result render failed: "@ + reason@,
{
    let mut text = copy_text(operation);
    text.push_str(" result render failed: ");
    text.push_str(reason);
    text
}

/// The name of the tool that inserts before or after a declaration.
pub fn insert_tool(before: bool) -> (name: &'static str)
    ensures
        name@ == if before {
            "insert_before_symbol"@
        } else {
            "insert_after_symbol"@
        },
{
    if before {
        "insert_before_symbol"
    } else {
        "insert_after_symbol"
    }
}

pub open spec fn number_or(n: Option<u32>, default: u32) -> u32 {
    match n {
        Some(number) => number,
        None => default,
    }
}

fn or_default(n: Option<u32>, default: u32) -> (number: u32)
    ensures
        number == number_or(n, default),
{
    match n {
        Some(number) => number,
        None => default,
    }
}

/// A switch that is off where nothing is said of it.
pub open spec fn is_on(switch: Option<bool>) -> bool {
    switch == Some(true)
}

fn on(switch: Option<bool>) -> (is: bool)
    ensures
        is == is_on(switch),
{
    match switch {
        Some(value) => value,
        None => false,
    }
}

/// The texts of an optional list; none where there is no list.
pub open spec fn listed(list: Option<Vec<String>>) -> Seq<Seq<char>> {
    match list {
        Some(l) => texts(l@),
        None => seq![],
    }
}

fn copy_list(list: &Option<Vec<String>>) -> (copy: Vec<String>)
    ensures
        texts(copy@) == listed(*list),
{
    match list {
        Some(l) => copy_texts(l),
        None => {
            let none: Vec<String> = Vec::new();
            assert(texts(none@) =~= seq![]);
            none
        },
    }
}

/// An optional text as a slice.
pub fn slice_of(text: &Option<String>) -> (slice: Option<&str>)
    ensures
        slice_text(slice) == optional(*text),
{
    match text {
        Some(t) => Some(t.as_str()),
        None => None,
    }
}

impl SearchArgs {
    /// What shapes the search.
    pub fn opts(&self) -> (opts: SearchOpts)
        ensures
            optional(opts.prefer) == optional(self.prefer),
            texts(opts.kinds@) == listed(self.kinds),
            opts.expand == is_on(self.expand),
            optional(opts.scope) == optional(self.scope),
            texts(opts.codebase_ids@) == listed(self.codebase_ids),
    {
        SearchOpts {
            prefer: copy_optional(&self.prefer),
            kinds: copy_list(&self.kinds),
            expand: on(self.expand),
            scope: copy_optional(&self.scope),
            codebase_ids: copy_list(&self.codebase_ids),
        }
    }

    /// How many hits are wanted.
    pub fn limit(&self) -> (top_k: u32)
        ensures
            top_k == number_or(self.top_k, 20),
    {
        or_default(self.top_k, 20)
    }

    /// The domains that are searched; every domain where none is named.
    pub fn domain_list(&self) -> (domains: Vec<String>)
        ensures
            texts(domains@) == listed(self.domains),
    {
        copy_list(&self.domains)
    }
}

impl ReferenceArgs {
    /// The namespace that references are kept from; every one where none is named.
    pub fn wanted_namespace(&self) -> (namespace: Option<&str>)
        ensures
            slice_text(namespace) == optional(self.namespace),
    {
        slice_of(&self.namespace)
    }
}

impl OutlineArgs {
    /// How deep the entries may be nested; every depth where none is named.
    pub fn depth_limit(&self) -> (depth: Option<u32>)
        ensures
            depth == self.max_depth,
    {
        self.max_depth
    }

    /// The kinds that are kept; every kind where none is named.
    pub fn kind_list(&self) -> (kinds: Vec<String>)
        ensures
            texts(kinds@) == listed(self.kinds),
    {
        copy_list(&self.kinds)
    }

    /// Whether each declaration's body is wanted too.
    pub fn wants_bodies(&self) -> (bodies: bool)
        ensures
            bodies == is_on(self.include_body),
    {
        on(self.include_body)
    }
}

impl TraceArgs {
    /// How many calls out the neighbourhood reaches.
    pub fn hops(&self) -> (depth: u32)
        ensures
            depth == number_or(self.depth, 1),
    {
        or_default(self.depth, 1)
    }
}

impl GrepArgs {
    /// The search. A pattern is a regular expression unless it is called
    /// literal, and runs as plain text where that is the same.
    pub fn request(&self) -> (request: GrepRequest)
        ensures
            request.pattern@ == self.pattern@,
            request.regex == (!is_on(self.literal) && exists|i: int|
                0 <= i < self.pattern@.len() && is_regex_char(#[trigger] self.pattern@[i])),
            request.ignore_case == is_on(self.ignore_case),
            slice_text(request.path) == optional(self.path),
            request.max == number_or(self.max, 100),
    {
        GrepRequest {
            pattern: self.pattern.as_str(),
            regex: !on(self.literal) && pattern_needs_regex(self.pattern.as_str()),
            ignore_case: on(self.ignore_case),
            path: slice_of(&self.path),
            max: or_default(self.max, 100),
        }
    }
}

/// A window of source: a range of bytes, a range of lines, or everything.
pub struct Window {
    pub bytes: Option<(u64, u64)>,
    pub lines: Option<(u32, u32)>,
}

/// Why a window is refused.
pub open spec fn window_fault(args: ReadSourceArgs) -> Option<Seq<char>> {
    if args.byte_start is Some != args.byte_end is Some {
        Some("read_source failed: byte_start and byte_end must be supplied together"@)
    } else if args.line_start is Some != args.line_end is Some {
        Some("read_source failed: line_start and line_end must be supplied together"@)
    } else if args.byte_start is Some && args.line_start is Some {
        Some("read_source failed: request either bytes or lines, not both"@)
    } else {
        None
    }
}

impl ReadSourceArgs {
    /// The window that is wanted.
    pub fn window(&self) -> (window: Result<Window, String>)
        ensures
            match window {
                Ok(w) => {
                    &&& window_fault(*self) is None
                    &&& w.bytes == match (self.byte_start, self.byte_end) {
                        (Some(start), Some(end)) => Some((start, end)),
                        _ => None,
                    }
                    &&& w.lines == match (self.line_start, self.line_end) {
                        (Some(start), Some(end)) => Some((start, end)),
                        _ => None,
                    }
                },
                Err(message) => window_fault(*self) == Some(message@),
            },
    {
        let bytes = match (self.byte_start, self.byte_end) {
            (Some(start), Some(end)) => Some((start, end)),
            (None, None) => None,
            _ => return Err(
                copy_text("read_source failed: byte_start and byte_end must be supplied together"),
            ),
        };
        let lines = match (self.line_start, self.line_end) {
            (Some(start), Some(end)) => Some((start, end)),
            (None, None) => None,
            _ => return Err(
                copy_text("read_source failed: line_start and line_end must be supplied together"),
            ),
        };
        if bytes.is_some() && lines.is_some() {
            return Err(copy_text("read_source failed: request either bytes or lines, not both"));
        }
        Ok(Window { bytes, lines })
    }
}

impl SymbolSearchArgs {
    /// The kinds that are kept; every kind where none is named.
    pub fn kind_list(&self) -> (kinds: Vec<String>)
        ensures
            texts(kinds@) == listed(self.kinds),
    {
        copy_list(&self.kinds)
    }

    /// What is searched for, among the given kinds.
    pub fn options<'a>(&'a self, kinds: &'a Vec<String>) -> (options: SymbolSearchOptions<'a>)
        ensures
            options.query@ == self.query@,
            options.mode@ == text_or(optional(self.mode), "Substring"@),
            options.kinds == kinds,
            slice_text(options.path_prefix) == optional(self.path_prefix),
            slice_text(options.project) == optional(self.project),
            slice_text(options.language) == optional(self.language),
            options.limit == number_or(self.limit, 50),
    {
        SymbolSearchOptions {
            query: self.query.as_str(),
            mode: optional_or(&self.mode, "Substring"),
            kinds,
            path_prefix: slice_of(&self.path_prefix),
            project: slice_of(&self.project),
            language: slice_of(&self.language),
            limit: or_default(self.limit, 50),
        }
    }
}

impl TypeHierarchyArgs {
    /// Which relatives are wanted.
    pub fn relatives(&self) -> (direction: &str)
        ensures
            direction@ == text_or(optional(self.direction), "Both"@),
    {
        optional_or(&self.direction, "Both")
    }

    /// How many relations away they may be.
    pub fn hops(&self) -> (depth: u32)
        ensures
            depth == number_or(self.depth, 4),
    {
        or_default(self.depth, 4)
    }
}

impl CallGraphArgs {
    /// Which calls are wanted.
    pub fn relatives(&self) -> (direction: &str)
        ensures
            direction@ == text_or(optional(self.direction), "Both"@),
    {
        optional_or(&self.direction, "Both")
    }

    /// How many calls away they may be.
    pub fn hops(&self) -> (depth: u32)
        ensures
            depth == number_or(self.depth, 2),
    {
        or_default(self.depth, 2)
    }
}

impl AnalysisPageArgs {
    /// The page that is wanted, and how many rows it has.
    pub fn page_and_rows(&self) -> (wanted: (u32, u32))
        ensures
            wanted == (number_or(self.page, 0), number_or(self.page_size, 100)),
    {
        (or_default(self.page, 0), or_default(self.page_size, 100))
    }
}

impl BatchArgs {
    /// Whether references are wanted instead of definitions.
    pub fn wants_references(&self) -> (references: bool)
        ensures
            references == is_on(self.references),
    {
        on(self.references)
    }
}

impl RenameSymbolArgs {
    /// The rename that is planned, and whether the formatter may run after it.
    /// Nothing uncertain is renamed unless that was allowed.
    pub fn request(self) -> (request: (RenameSymbolRequest, bool))
        ensures
            request.0.target == self.target,
            request.0.new_name == self.new_name,
            request.0.include_comments == is_on(self.include_comments),
            request.0.include_strings == is_on(self.include_strings),
            request.0.include_unresolved_text == is_on(self.include_unresolved_text),
            request.0.allow_uncertain == is_on(self.allow_uncertain),
            request.1 == is_on(self.run_formatter),
    {
        let run_formatter = on(self.run_formatter);
        (
            RenameSymbolRequest {
                target: self.target,
                new_name: self.new_name,
                include_comments: on(self.include_comments),
                include_strings: on(self.include_strings),
                include_unresolved_text: on(self.include_unresolved_text),
                allow_uncertain: on(self.allow_uncertain),
            },
            run_formatter,
        )
    }
}

impl SafeDeleteSymbolArgs {
    /// The deletion that is planned, and whether the formatter may run after it.
    pub fn request(self) -> (request: (SafeDeleteSymbolRequest, bool))
        ensures
            request.0.target == self.target,
            request.0.allow_uncertain == is_on(self.allow_uncertain),
            request.0.allow_public_without_known_consumers == is_on(
                self.allow_public_without_known_consumers,
            ),
            request.0.reflection_patterns == self.reflection_patterns,
            request.1 == is_on(self.run_formatter),
    {
        let run_formatter = on(self.run_formatter);
        (
            SafeDeleteSymbolRequest {
                target: self.target,
                allow_uncertain: on(self.allow_uncertain),
                allow_public_without_known_consumers: on(self.allow_public_without_known_consumers),
                reflection_patterns: self.reflection_patterns,
            },
            run_formatter,
        )
    }
}

impl ReplaceBodyArgs {
    /// The replacement that is planned, and whether the formatter may run after
    /// it.
    pub fn request(self) -> (request: (ReplaceSymbolBodyRequest, bool))
        ensures
            request.0.target == self.target,
            request.0.replacement == self.replacement,
            request.1 == is_on(self.run_formatter),
    {
        let run_formatter = on(self.run_formatter);
        (
            ReplaceSymbolBodyRequest { target: self.target, replacement: self.replacement },
            run_formatter,
        )
    }
}

impl InsertSymbolArgs {
    /// The insertion that is planned, and whether the formatter may run after
    /// it.
    pub fn request(self) -> (request: (InsertSymbolRequest, bool))
        ensures
            request.0.target == self.target,
            request.0.source == self.source,
            request.1 == is_on(self.run_formatter),
    {
        let run_formatter = on(self.run_formatter);
        (InsertSymbolRequest { target: self.target, source: self.source }, run_formatter)
    }
}

/// A note on its own lines below an answer.
pub open spec fn note_text(note: Option<Seq<char>>) -> Seq<char> {
    match note {
        Some(text) => "\n\n"@ + text,
        None => ""@,
    }
}

/// The answer of a search with what is to be said of the index and of this
/// program.
pub fn with_notes(answer: String, freshness: &Option<String>, update: &Option<String>) -> (text:
    String)
    ensures
        text@ == answer@ + note_text(optional(*freshness)) + note_text(optional(*update)),
{
    let mut text = answer;
    text.push_str(render_note(freshness).as_str());
    text.push_str(render_note(update).as_str());
    text
}

fn render_note(note: &Option<String>) -> (text: String)
    ensures
        text@ == note_text(optional(*note)),
{
    match note {
        Some(note) => {
            let mut text = copy_text("\n\n");
            text.push_str(note.as_str());
            text
        },
        None => copy_text(""),
    }
}

/// The note that a newer program is published. It is a nudge, so it is given
/// once, and only to a session that asked for the check.
pub struct UpdateNote {
    pub note: Option<String>,
}

impl UpdateNote {
    /// The note, for a session that asked for the check.
    pub fn take(&mut self, update_check: bool) -> (note: Option<String>)
        ensures
            update_check ==> note == old(self).note && final(self).note is None,
            !update_check ==> note is None && *final(self) == *old(self),
    {
        if update_check {
            self.note.take()
        } else {
            None
        }
    }
}

/// What is said of a tool: a reader changes nothing; the index tool changes the index
/// and can be called again; an edit is destructive, and only its undoing can be
/// called again.
pub proof fn law_what_is_said_of_a_tool(name: Seq<char>)
    ensures
        ({
            let edits = name == "rename_symbol"@ || name == "safe_delete_symbol"@ || name
                == "replace_symbol_body"@ || name == "insert_before_symbol"@ || name
                == "insert_after_symbol"@ || name == "undo_edit"@;
            let said = tool_annotations(name);
            &&& name == "index_codebase"@ ==> !said.read_only && said.destructive == Some(false)
                && said.idempotent == Some(true)
            &&& edits && name != "index_codebase"@ ==> !said.read_only && said.destructive == Some(
                true,
            ) && said.idempotent == Some(name == "undo_edit"@)
            &&& !edits && name != "index_codebase"@ ==> said.read_only && said.destructive is None
                && said.idempotent is None
            &&& !said.open_world
        }),
{
    let list = DIRECT_EDIT_TOOLS@;
    assert(list.len() == 6);
    assert(list[0]@ == "rename_symbol"@);
    assert(list[1]@ == "safe_delete_symbol"@);
    assert(list[2]@ == "replace_symbol_body"@);
    assert(list[3]@ == "insert_before_symbol"@);
    assert(list[4]@ == "insert_after_symbol"@);
    assert(list[5]@ == "undo_edit"@);
}

/// Every tool has a page of its own, and nothing else has.
pub proof fn law_every_tool_has_a_page(name: Seq<char>, i: int)
    ensures
        0 <= i < TOOLS@.len() ==> doc_path(TOOLS@[i]@) == Some(
            "docs/tools/"@ + TOOLS@[i]@ + ".md"@,
        ),
        (forall|k: int| 0 <= k < TOOLS@.len() ==> (#[trigger] TOOLS@[k])@ != name) ==> doc_path(
            name,
        ) is None,
{
}

/// A window of a source has both its ends, and is one of bytes or of lines.
pub proof fn law_a_window_has_two_ends(args: ReadSourceArgs)
    ensures
        ({
            let half_bytes = (args.byte_start is Some) != (args.byte_end is Some);
            let half_lines = (args.line_start is Some) != (args.line_end is Some);
            let both = args.byte_start is Some && args.line_start is Some;
            &&& window_fault(args) is None <==> !half_bytes && !half_lines && !both
            &&& half_bytes ==> window_fault(args) == Some(
                "read_source failed: byte_start and byte_end must be supplied together"@,
            )
            &&& !half_bytes && half_lines ==> window_fault(args) == Some(
                "read_source failed: line_start and line_end must be supplied together"@,
            )
            &&& !half_bytes && !half_lines && both ==> window_fault(args) == Some(
                "read_source failed: request either bytes or lines, not both"@,
            )
        }),
{
}

/// What is left out has its default: a number, a switch that is off, no entries and
/// no note. What is given stays, a note below an empty line.
pub proof fn law_what_is_left_out_has_its_default(
    n: u32,
    default: u32,
    on: bool,
    list: Vec<String>,
    note: Seq<char>,
)
    ensures
        number_or(Some(n), default) == n,
        number_or(None, default) == default,
        is_on(Some(on)) == on,
        !is_on(None),
        listed(Some(list)) == Seq::new(list@.len(), |i: int| list@[i]@),
        listed(None).len() == 0,
        note_text(Some(note)) == "\n\n"@ + note,
        note_text(None).len() == 0,
        unavailable_text(note, note) == note + " unavailable — "@ + note,
{
    reveal_strlit("");
}

/// The limits of tools that are not given: twenty hits, one hop of a trace, four of a
/// hierarchy, two of a call graph, and pages of a hundred rows from the first one on.
pub proof fn law_the_limits_of_tools(
    search: &SearchArgs,
    top_k: u32,
    traced: &TraceArgs,
    hops: u32,
    types: &TypeHierarchyArgs,
    levels: u32,
    calls: &CallGraphArgs,
    depth: u32,
    page: &AnalysisPageArgs,
    rows: (u32, u32),
)
    requires
        call_ensures(SearchArgs::limit, (search,), top_k),
        call_ensures(TraceArgs::hops, (traced,), hops),
        call_ensures(TypeHierarchyArgs::hops, (types,), levels),
        call_ensures(CallGraphArgs::hops, (calls,), depth),
        call_ensures(AnalysisPageArgs::page_and_rows, (page,), rows),
    ensures
        top_k == if search.top_k is Some { search.top_k->0 } else { 20 },
        hops == if traced.depth is Some { traced.depth->0 } else { 1 },
        levels == if types.depth is Some { types.depth->0 } else { 4 },
        depth == if calls.depth is Some { calls.depth->0 } else { 2 },
        rows.0 == if page.page is Some { page.page->0 } else { 0 },
        rows.1 == if page.page_size is Some { page.page_size->0 } else { 100 },
{
}

/// A pattern is taken as an expression where it holds a character that only means
/// something there, unless it is to be taken literally.
pub proof fn law_what_is_asked_of_grep(args: &GrepArgs, request: GrepRequest, i: int)
    requires
        call_ensures(GrepArgs::request, (args,), request),
    ensures
        request.pattern@ == args.pattern@,
        args.literal == Some(true) ==> !request.regex,
        args.literal != Some(true) && 0 <= i < args.pattern@.len() && is_regex_char(
            args.pattern@[i],
        ) ==> request.regex,
        request.ignore_case == (args.ignore_case == Some(true)),
        slice_text(request.path) == optional(args.path),
        request.max == if args.max is Some { args.max->0 } else { 100 },
{
}

/// An edit is asked for as it was given, and a switch that is not given is off.
pub proof fn law_edits_are_asked_for_as_given(
    args: RenameSymbolArgs,
    rename: (RenameSymbolRequest, bool),
    deleted: SafeDeleteSymbolArgs,
    delete: (SafeDeleteSymbolRequest, bool),
    replaced: ReplaceBodyArgs,
    replace: (ReplaceSymbolBodyRequest, bool),
    inserted: InsertSymbolArgs,
    insert: (InsertSymbolRequest, bool),
)
    requires
        call_ensures(RenameSymbolArgs::request, (args,), rename),
        call_ensures(SafeDeleteSymbolArgs::request, (deleted,), delete),
        call_ensures(ReplaceBodyArgs::request, (replaced,), replace),
        call_ensures(InsertSymbolArgs::request, (inserted,), insert),
    ensures
        rename.0.target == args.target && rename.0.new_name == args.new_name,
        rename.0.include_comments == (args.include_comments == Some(true)),
        rename.0.include_strings == (args.include_strings == Some(true)),
        rename.0.include_unresolved_text == (args.include_unresolved_text == Some(true)),
        rename.0.allow_uncertain == (args.allow_uncertain == Some(true)),
        rename.1 == (args.run_formatter == Some(true)),
        delete.0.target == deleted.target,
        delete.0.allow_uncertain == (deleted.allow_uncertain == Some(true)),
        delete.0.allow_public_without_known_consumers == (
        deleted.allow_public_without_known_consumers == Some(true)),
        delete.0.reflection_patterns == deleted.reflection_patterns,
        delete.1 == (deleted.run_formatter == Some(true)),
        replace.0.target == replaced.target && replace.0.replacement == replaced.replacement,
        replace.1 == (replaced.run_formatter == Some(true)),
        insert.0.target == inserted.target && insert.0.source == inserted.source,
        insert.1 == (inserted.run_formatter == Some(true)),
{
}

/// A window of a source is the one that is asked for, and a tool is described as it is.
pub proof fn law_windows_are_what_is_asked_for(
    args: &ReadSourceArgs,
    window: Result<Window, String>,
    name: &str,
    said: Annotations,
    page: Option<String>,
)
    requires
        call_ensures(ReadSourceArgs::window, (args,), window),
        call_ensures(annotations, (name,), said),
        call_ensures(tool_doc, (name,), page),
    ensures
        window is Ok <==> window_fault(*args) is None,
        window matches Err(message) ==> window_fault(*args) == Some(message@),
        window matches Ok(w) ==> {
            &&& args.byte_start is Some ==> w.bytes == Some(
                (args.byte_start->0, args.byte_end->0),
            ) && w.lines is None
            &&& args.line_start is Some ==> w.lines == Some(
                (args.line_start->0, args.line_end->0),
            ) && w.bytes is None
            &&& args.byte_start is None && args.line_start is None ==> w.bytes is None
                && w.lines is None
        },
        said == tool_annotations(name@),
        optional(page) == doc_path(name@),
{
}

} // verus!
