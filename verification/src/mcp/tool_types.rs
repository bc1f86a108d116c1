//! The inputs of the tools.

use vstd::prelude::*;

use crate::api::SymbolTargetRequest;

verus! {

/// What a search is asked with.
pub struct SearchArgs {
    /// Codebase id or indexed local directory path; the current codebase where absent.
    pub codebase: Option<String>,
    /// Which copy to read: `checkout`, which is the default, or `canonical`.
    pub copy: Option<String>,
    pub query: String,
    pub top_k: Option<u32>,
    pub domains: Option<Vec<String>>,
    pub prefer: Option<String>,
    pub kinds: Option<Vec<String>>,
    pub expand: Option<bool>,
    pub scope: Option<String>,
    pub codebase_ids: Option<Vec<String>>,
}

/// A lookup of one symbol.
pub struct SymbolArgs {
    /// Codebase id or indexed local directory path; the current codebase where absent.
    pub codebase: Option<String>,
    /// Which copy to read: `checkout`, which is the default, or `canonical`.
    pub copy: Option<String>,
    pub symbol: String,
}

/// A lookup of the references to a symbol.
pub struct ReferenceArgs {
    /// Codebase id or indexed local directory path; the current codebase where absent.
    pub codebase: Option<String>,
    pub symbol: String,
    pub namespace: Option<String>,
}

/// A chain of calls between two symbols.
pub struct CallPathArgs {
    /// Codebase id or indexed local directory path; the current codebase where absent.
    pub codebase: Option<String>,
    pub from: String,
    pub to: String,
}

/// Where a value flows to.
pub struct FlowFromArgs {
    /// Codebase id or indexed local directory path; the current codebase where absent.
    pub codebase: Option<String>,
    pub from: String,
}

/// Where a value comes from.
pub struct FlowToArgs {
    /// Codebase id or indexed local directory path; the current codebase where absent.
    pub codebase: Option<String>,
    pub to: String,
}

/// How a value flows between two boundaries.
pub struct FlowBetweenArgs {
    /// Codebase id or indexed local directory path; the current codebase where absent.
    pub codebase: Option<String>,
    pub from: String,
    pub to: String,
}

/// A symbol with its neighbourhood.
pub struct TraceArgs {
    /// Codebase id or indexed local directory path; the current codebase where absent.
    pub codebase: Option<String>,
    /// Which copy to read: `checkout`, which is the default, or `canonical`.
    pub copy: Option<String>,
    pub symbol: String,
    pub depth: Option<u32>,
}

/// A search in file content.
pub struct GrepArgs {
    /// Codebase id or indexed local directory path; the current codebase where absent.
    pub codebase: Option<String>,
    /// Which copy to read: `checkout`, which is the default, or `canonical`.
    pub copy: Option<String>,
    pub pattern: String,
    pub literal: Option<bool>,
    pub ignore_case: Option<bool>,
    pub path: Option<String>,
    pub max: Option<u32>,
}

/// A file's table of contents.
pub struct OutlineArgs {
    /// Codebase id or indexed local directory path; the current codebase where absent.
    pub codebase: Option<String>,
    /// Which copy to read: `checkout`, which is the default, or `canonical`.
    pub copy: Option<String>,
    pub path: String,
    pub max_depth: Option<u32>,
    pub kinds: Option<Vec<String>>,
    pub include_body: Option<bool>,
}

/// A window of source text.
pub struct ReadSourceArgs {
    /// Codebase id or indexed local directory path; the current codebase where absent.
    pub codebase: Option<String>,
    /// Which copy to read: `checkout`, which is the default, or `canonical`.
    pub copy: Option<String>,
    pub path: String,
    pub revision: Option<String>,
    pub byte_start: Option<u64>,
    pub byte_end: Option<u64>,
    pub line_start: Option<u32>,
    pub line_end: Option<u32>,
}

/// A search for declarations.
pub struct SymbolSearchArgs {
    /// Codebase id or indexed local directory path; the current codebase where absent.
    pub codebase: Option<String>,
    /// Which copy to read: `checkout`, which is the default, or `canonical`.
    pub copy: Option<String>,
    pub query: String,
    pub mode: Option<String>,
    pub kinds: Option<Vec<String>>,
    pub path_prefix: Option<String>,
    pub project: Option<String>,
    pub language: Option<String>,
    pub limit: Option<u32>,
}

/// The types around a type.
pub struct TypeHierarchyArgs {
    /// Codebase id or indexed local directory path; the current codebase where absent.
    pub codebase: Option<String>,
    pub symbol: String,
    pub direction: Option<String>,
    pub depth: Option<u32>,
}

/// The calls around a symbol.
pub struct CallGraphArgs {
    /// Codebase id or indexed local directory path; the current codebase where absent.
    pub codebase: Option<String>,
    pub symbol: String,
    pub depth: Option<u32>,
    pub direction: Option<String>,
}

/// A page of an analysis.
pub struct AnalysisPageArgs {
    /// Codebase id or indexed local directory path; the current codebase where absent.
    pub codebase: Option<String>,
    pub page: Option<u32>,
    pub page_size: Option<u32>,
}

/// A rename.
pub struct RenameSymbolArgs {
    /// Codebase id or indexed local directory path; the current codebase where absent.
    pub codebase: Option<String>,
    pub target: SymbolTargetRequest,
    pub new_name: String,
    pub include_comments: Option<bool>,
    pub include_strings: Option<bool>,
    pub include_unresolved_text: Option<bool>,
    pub allow_uncertain: Option<bool>,
    pub run_formatter: Option<bool>,
}

/// A deletion of a symbol that nothing uses.
pub struct SafeDeleteSymbolArgs {
    /// Codebase id or indexed local directory path; the current codebase where absent.
    pub codebase: Option<String>,
    pub target: SymbolTargetRequest,
    pub allow_uncertain: Option<bool>,
    pub allow_public_without_known_consumers: Option<bool>,
    pub reflection_patterns: Option<Vec<String>>,
    pub run_formatter: Option<bool>,
}

/// A replacement of a body.
pub struct ReplaceBodyArgs {
    /// Codebase id or indexed local directory path; the current codebase where absent.
    pub codebase: Option<String>,
    pub target: SymbolTargetRequest,
    pub replacement: String,
    pub run_formatter: Option<bool>,
}

/// An insertion beside a declaration.
pub struct InsertSymbolArgs {
    /// Codebase id or indexed local directory path; the current codebase where absent.
    pub codebase: Option<String>,
    pub target: SymbolTargetRequest,
    pub source: String,
    pub run_formatter: Option<bool>,
}

/// An edit to undo.
pub struct UndoEditArgs {
    /// Codebase id or indexed local directory path; the current codebase where absent.
    pub codebase: Option<String>,
    pub edit_id: String,
}

/// A range of lines.
pub struct ExpandArgs {
    /// Codebase id or indexed local directory path; the current codebase where absent.
    pub codebase: Option<String>,
    pub path: String,
    pub line_start: u32,
    pub line_end: u32,
}

/// A place in a file.
pub struct SymbolAtPositionArgs {
    /// Codebase id or indexed local directory path; the current codebase where absent.
    pub codebase: Option<String>,
    pub path: String,
    pub line: u32,
    pub column: Option<u32>,
}

/// Many symbols at once.
pub struct BatchArgs {
    /// Codebase id or indexed local directory path; the current codebase where absent.
    pub codebase: Option<String>,
    pub symbols: Vec<String>,
    pub references: Option<bool>,
}

/// A codebase alone.
pub struct NoArgs {
    /// Codebase id or indexed local directory path; the current codebase where absent.
    pub codebase: Option<String>,
}

/// Nothing.
pub struct EmptyArgs {}

/// A part of the file catalog.
pub struct ListFilesArgs {
    /// Codebase id or indexed local directory path; the current codebase where absent.
    pub codebase: Option<String>,
    /// Which copy to read: `checkout`, which is the default, or `canonical`.
    pub copy: Option<String>,
    pub path: Option<String>,
    pub page: Option<u32>,
    pub page_size: Option<u32>,
}

/// A directory to index.
pub struct IndexCodebaseArgs {
    pub path: Option<String>,
}

/// Whether a character means something in a regular expression.
pub open spec fn is_regex_char(c: char) -> bool {
    ||| c == '.'
    ||| c == '^'
    ||| c == '$'
    ||| c == '*'
    ||| c == '+'
    ||| c == '?'
    ||| c == '('
    ||| c == ')'
    ||| c == '['
    ||| c == ']'
    ||| c == '{'
    ||| c == '}'
    ||| c == '|'
    ||| c == '\\'
}

fn regex_char(c: char) -> (means: bool)
    ensures
        means == is_regex_char(c),
{
    c == '.' || c == '^' || c == '$' || c == '*' || c == '+' || c == '?' || c == '(' || c == ')' || c
        == '[' || c == ']' || c == '{' || c == '}' || c == '|' || c == '\\'
}

/// Whether a pattern has to run through the regular expressions. One without
/// such a character matches the same either way, and the search for plain text
/// is faster.
pub fn pattern_needs_regex(pattern: &str) -> (needs: bool)
    ensures
        needs == exists|i: int| 0 <= i < pattern@.len() && is_regex_char(#[trigger] pattern@[i]),
{
    let chars = crate::text::chars_of(pattern);
    let mut i: usize = 0;
    while i < chars.len()
        invariant
            i <= chars@.len(),
            chars@ == pattern@,
            forall|k: int| 0 <= k < i ==> !is_regex_char(#[trigger] pattern@[k]),
        decreases chars@.len() - i,
    {
        if regex_char(chars[i]) {
            assert(is_regex_char(pattern@[i as int]));
            return true;
        }
        i = i + 1;
    }
    false
}

/// A file that an edit changed.
pub struct AppliedFile {
    pub path: String,
    pub content_hash: String,
}

/// What an edit on disk came to.
pub struct ApplyOutcome {
    pub plan_id: String,
    pub operation: String,
    pub changed_files: Vec<AppliedFile>,
    pub already_applied: bool,
    pub already_undone: bool,
    pub watcher_active: bool,
    pub sync_state: String,
}

/// What a caller is told of an edit: an id to undo it by, and not the plan.
pub struct EditActionOutcome<'a> {
    pub edit_id: &'a str,
    pub operation: &'a str,
    pub changed_files: &'a Vec<AppliedFile>,
    pub already_applied: bool,
    pub already_undone: bool,
    pub watcher_active: bool,
    pub sync_state: &'a str,
}

/// What a caller is told of an edit.
pub fn edit_action<'a>(outcome: &'a ApplyOutcome) -> (action: EditActionOutcome<'a>)
    ensures
        action.edit_id@ == outcome.plan_id@,
        action.operation@ == outcome.operation@,
        *action.changed_files == outcome.changed_files,
        action.already_applied == outcome.already_applied,
        action.already_undone == outcome.already_undone,
        action.watcher_active == outcome.watcher_active,
        action.sync_state@ == outcome.sync_state@,
{
    EditActionOutcome {
        edit_id: outcome.plan_id.as_str(),
        operation: outcome.operation.as_str(),
        changed_files: &outcome.changed_files,
        already_applied: outcome.already_applied,
        already_undone: outcome.already_undone,
        watcher_active: outcome.watcher_active,
        sync_state: outcome.sync_state.as_str(),
    }
}

/// Which characters make a pattern a regular expression.
pub proof fn law_which_characters_make_an_expression(c: char)
    ensures
        is_regex_char(c) <==> seq![
            '.',
            '^',
            '$',
            '*',
            '+',
            '?',
            '(',
            ')',
            '[',
            ']',
            '{',
            '}',
            '|',
            '\\',
        ].contains(c),
{
    let all = seq!['.', '^', '$', '*', '+', '?', '(', ')', '[', ']', '{', '}', '|', '\\'];
    assert(all[0] == '.' && all[1] == '^' && all[2] == '$' && all[3] == '*' && all[4] == '+'
        && all[5] == '?' && all[6] == '(' && all[7] == ')' && all[8] == '[' && all[9] == ']'
        && all[10] == '{' && all[11] == '}' && all[12] == '|' && all[13] == '\\');
}

} // verus!
