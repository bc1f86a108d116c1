//! What the server sends and receives, as plain values.

use vstd::prelude::*;

use crate::score::Score;

verus! {

/// The progress of an index job.
pub struct JobStatus {
    pub files_to_embed: i64,
    pub files_to_delete: i64,
    pub files_embedded: i64,
    pub files_deleted: i64,
    pub files_failed: i64,
    pub chunk_count: Option<i64>,
    pub error: Option<String>,
    pub started_at: Option<String>,
    pub completed_at: Option<String>,
}

/// One file of a manifest.
pub struct ManifestEntry {
    pub path: String,
    pub hash: String,
    pub size: i64,
}

pub struct EntryView {
    pub path: Seq<char>,
    pub hash: Seq<char>,
    pub size: int,
}

impl View for ManifestEntry {
    type V = EntryView;

    open spec fn view(&self) -> EntryView {
        EntryView { path: self.path@, hash: self.hash@, size: self.size as int }
    }
}

/// One file of an upload.
pub struct SyncFileContent {
    pub path: String,
    pub content: String,
    pub hash: Option<String>,
}

/// One hit of a search or of a lookup in the symbol graph.
pub struct SearchHit {
    pub domain_id: String,
    pub id: String,
    pub score: Score,
    pub path: Option<String>,
    pub line_start: Option<u32>,
    pub line_end: Option<u32>,
    pub byte_start: Option<u64>,
    pub byte_end: Option<u64>,
    pub focus_line: Option<u32>,
    pub focus_byte: Option<u64>,
    pub snippet_line_start: Option<u32>,
    pub snippet_line_end: Option<u32>,
    pub snippet_byte_start: Option<u64>,
    pub snippet_byte_end: Option<u64>,
    pub language: Option<String>,
    pub symbol: Option<String>,
    pub qualified_symbol: Option<String>,
    pub enclosing_symbol: Option<String>,
    pub is_write: Option<bool>,
    pub reference_namespace: Option<String>,
    pub reference_kind: Option<String>,
    pub external_target: Option<String>,
    pub codebase_id: Option<String>,
    pub kind: String,
    pub snippet: String,
}

/// One file of a codebase's catalog.
pub struct CodebaseFile {
    pub path: String,
    pub size: i64,
    pub content_hash: Option<String>,
}

/// One page of a list. Pages are counted from zero.
pub struct Page<T> {
    pub items: Vec<T>,
    pub total: u32,
    pub number: u32,
    pub size: u32,
}

pub struct ProjectGroup {
    pub name: String,
    pub kind: String,
    pub root: String,
    pub children: Vec<String>,
}

pub struct Project {
    pub name: String,
    pub kind: String,
    pub root: String,
    pub file_count: u64,
    pub config_file: Option<String>,
}

pub struct ProjectGraph {
    pub groups: Vec<ProjectGroup>,
    pub projects: Vec<Project>,
}

pub struct FileTreeNode {
    pub name: String,
    pub is_directory: bool,
    pub children: Option<Vec<FileTreeNode>>,
}

pub struct GrepMatch {
    pub path: String,
    pub line_number: u32,
    pub line: String,
}

pub struct OutlineEntry {
    pub line_start: u32,
    pub line_end: u32,
    pub kind: String,
    pub symbol: Option<String>,
}

pub struct FileOutline {
    pub path: String,
    pub entries: Vec<OutlineEntry>,
}

pub struct ImportEdge {
    pub from: String,
    pub to: String,
    pub import_path: String,
}

pub struct SymbolEdge {
    pub from_file: String,
    pub name: String,
    pub to_file: String,
    pub moniker: String,
}

pub struct ExternalLink {
    pub from_file: String,
    pub import_path: String,
    pub target_file: String,
    pub target_name: String,
    pub ecosystem: String,
    pub target_package: String,
    pub descriptor: String,
    pub target_codebase_id: String,
    /// The confidence as it is shown.
    pub confidence: String,
}

pub struct SymbolHits {
    pub symbol: String,
    pub hits: Vec<SearchHit>,
}

pub struct TagSchema {
    pub name: String,
    pub data_type: String,
    pub description: String,
}

pub struct DomainDescriptor {
    pub id: String,
    pub display_name: String,
    pub tag_schema: Vec<TagSchema>,
}

/// A symbol's neighbourhood.
pub struct TraceResult {
    pub definition: Vec<SearchHit>,
    pub callers: Vec<SearchHit>,
    pub callees: Vec<SearchHit>,
}

/// A value that servers send as a name or as a number.
pub enum EnumValue {
    Name(String),
    Number(u64),
    /// Anything else, as it is written in JSON.
    Other(String),
}

pub struct CodebaseSummary {
    pub id: String,
    pub slug: String,
    pub display_name: String,
    pub source_kind: EnumValue,
    pub visibility: EnumValue,
    pub revision: Option<String>,
    pub graph_generation: i64,
    pub graph_materialized_generation: i64,
    pub graph_fresh: bool,
}

/// One copy of a codebase.
pub struct CodebaseVersionSummary {
    pub source_id: String,
}

/// A window of a file's content.
pub struct FileContent {
    pub path: String,
    pub content: String,
    pub content_hash: String,
    pub byte_start: u64,
    pub byte_end: u64,
    pub size: u64,
    pub encoding: String,
    pub truncated: bool,
    pub is_binary: bool,
}

pub struct SymbolSearchHit {
    pub path: String,
    pub line_start: u32,
    pub line_end: u32,
    pub qualified_name: String,
    pub kind: String,
    pub language: String,
    pub project: Option<String>,
    /// The score as it is shown.
    pub score: String,
}

pub struct TypeNode {
    pub identity: String,
    pub kind: String,
    pub path: Option<String>,
    pub line_start: Option<u32>,
    pub line_end: Option<u32>,
}

pub struct TypeEdge {
    pub subtype: String,
    pub supertype: String,
    pub relation: String,
    pub origin: String,
    pub depth: u32,
}

pub struct TypeHierarchy {
    pub roots: Vec<String>,
    pub complete: bool,
    pub caveat: Option<String>,
    pub nodes: Vec<TypeNode>,
    pub edges: Vec<TypeEdge>,
}

pub struct CallEdge {
    pub from: String,
    pub to: String,
}

pub struct CallGraph {
    pub nodes: Vec<SearchHit>,
    pub edges: Vec<CallEdge>,
}

pub struct GraphCluster {
    pub index: u32,
    pub size: u32,
    pub hash: Option<String>,
    pub chunks: Vec<SearchHit>,
}

pub struct UnusedDefinition {
    pub definition: SearchHit,
    pub reason: String,
    pub completeness_caveat: String,
}

/// The body of a search request.
pub struct SearchRequestBody {
    pub query: String,
    pub top_k: u32,
    pub codebase_id: Option<String>,
    pub domains: Option<Vec<String>>,
    pub kinds: Option<Vec<String>>,
    pub prefer: Option<String>,
    pub granularity: Option<String>,
}

/// The symbol that an edit is about: a qualified name, or a place in a file.
pub struct SymbolTargetRequest {
    pub qualified_name: Option<String>,
    pub path: Option<String>,
    pub line: Option<u32>,
    pub column: Option<u32>,
}

pub struct RenameSymbolRequest {
    pub target: SymbolTargetRequest,
    pub new_name: String,
    pub include_comments: bool,
    pub include_strings: bool,
    pub include_unresolved_text: bool,
    pub allow_uncertain: bool,
}

pub struct SafeDeleteSymbolRequest {
    pub target: SymbolTargetRequest,
    pub allow_uncertain: bool,
    pub allow_public_without_known_consumers: bool,
    pub reflection_patterns: Option<Vec<String>>,
}

pub struct ReplaceSymbolBodyRequest {
    pub target: SymbolTargetRequest,
    pub replacement: String,
}

pub struct InsertSymbolRequest {
    pub target: SymbolTargetRequest,
    pub source: String,
}

} // verus!
