//! Answers of the symbol graph as text.

use vstd::prelude::*;

use crate::api::{
    FileOutline, GrepMatch, OutlineEntry, SearchHit, SearchRequestBody, SymbolHits, TraceResult,
};
use crate::query::render::{
    boundaries_text, compact_text, hit_location, hit_on_a_line,
    law_a_compact_list_has_a_line_for_each_hit, local_path, location_text, lookup_text,
    render_boundaries, render_compact, render_hits, shown_path, slice_text,
};
use crate::text::{
    contains, contains_text, copy_text, decimal, decimal_text, lemma_in_a_row,
    lemma_rendered_is_a_row, lemma_rendered_next, lemma_rendered_none, lists, lower_text, lowercase,
    optional, optional_or, rendered, same, text_or, texts, trim_end, trim_tail,
};

verus! {

/// A call that failed, as its caller sees it.
pub open spec fn failed_text(operation: Seq<char>, error: Seq<char>) -> Seq<char> {
    operation + " failed: "@ + error
}

pub fn failed(operation: &str, error: &str) -> (text: String)
    ensures
        text@ == failed_text(operation@, error@),
{
    let mut text = copy_text(operation);
    text.push_str(" failed: ");
    text.push_str(error);
    text
}

/// What a lookup of one symbol leads to.
pub enum Answer {
    /// The answer.
    Text(String),
    /// Nothing was found: search for names that are near, with [`near_miss`].
    Suggest(&'static str),
}

impl Answer {
    pub open spec fn says(self, text: Seq<char>) -> bool {
        self matches Answer::Text(t) && t@ == text
    }

    pub open spec fn suggests(self, what: Seq<char>) -> bool {
        self matches Answer::Suggest(w) && w@ == what
    }
}

/// A symbol's definition with its direct callers and callees.
pub open spec fn trace_text(symbol: Seq<char>, found: TraceResult, root: Option<&str>) -> Seq<char> {
    "definition of `"@ + symbol + "`:\n"@ + lookup_text(found.definition@, ""@, root)
        + "\ncallers ("@ + decimal(found.callers@.len()) + "):\n"@ + compact_text(
        found.callers@,
        "  (none)"@,
        slice_text(root),
    ) + "\ncallees ("@ + decimal(found.callees@.len()) + "):\n"@ + compact_text(
        found.callees@,
        "  (none)"@,
        slice_text(root),
    )
}

/// A symbol's neighbourhood in one answer.
pub fn trace(reply: &Result<TraceResult, String>, symbol: &str, root: Option<&str>) -> (answer:
    Answer)
    ensures
        match reply {
            Err(e) => answer.says(failed_text("trace"@, e@)),
            Ok(found) => if found.definition@.len() == 0 {
                answer.suggests("definition"@)
            } else {
                answer.says(trace_text(symbol@, *found, root))
            },
        },
{
    match reply {
        Err(e) => Answer::Text(failed("trace", e.as_str())),
        Ok(found) => {
            if found.definition.len() == 0 {
                return Answer::Suggest("definition");
            }
            let mut out = copy_text("definition of `");
            out.push_str(symbol);
            out.push_str("`:\n");
            out.push_str(render_hits(&found.definition, "", root).as_str());
            out.push_str("\ncallers (");
            out.push_str(decimal_text(found.callers.len() as u64).as_str());
            out.push_str("):\n");
            out.push_str(render_compact(&found.callers, "  (none)", root).as_str());
            out.push_str("\ncallees (");
            out.push_str(decimal_text(found.callees.len() as u64).as_str());
            out.push_str("):\n");
            out.push_str(render_compact(&found.callees, "  (none)", root).as_str());
            Answer::Text(out)
        },
    }
}

/// The definitions of a symbol.
pub fn find_definition(reply: &Result<Vec<SearchHit>, String>, root: Option<&str>) -> (answer:
    Answer)
    ensures
        match reply {
            Err(e) => answer.says(failed_text("find_definition"@, e@)),
            Ok(hits) => if hits@.len() == 0 {
                answer.suggests("definition"@)
            } else {
                answer.says(lookup_text(hits@, ""@, root))
            },
        },
{
    match reply {
        Err(e) => Answer::Text(failed("find_definition", e.as_str())),
        Ok(hits) => if hits.len() == 0 {
            Answer::Suggest("definition")
        } else {
            Answer::Text(render_hits(hits, "", root))
        },
    }
}

/// The references to a symbol.
pub fn find_references(reply: &Result<Vec<SearchHit>, String>, root: Option<&str>) -> (answer:
    Answer)
    ensures
        match reply {
            Err(e) => answer.says(failed_text("find_references"@, e@)),
            Ok(hits) => if hits@.len() == 0 {
                answer.suggests("references"@)
            } else {
                answer.says(lookup_text(hits@, ""@, root))
            },
        },
{
    match reply {
        Err(e) => Answer::Text(failed("find_references", e.as_str())),
        Ok(hits) => if hits.len() == 0 {
            Answer::Suggest("references")
        } else {
            Answer::Text(render_hits(hits, "", root))
        },
    }
}

/// A lookup whose empty answer has a message of its own.
pub open spec fn hits_or(
    operation: Seq<char>,
    reply: Result<Vec<SearchHit>, String>,
    empty: Seq<char>,
    root: Option<&str>,
) -> Seq<char> {
    match reply {
        Ok(hits) => lookup_text(hits@, empty, root),
        Err(e) => failed_text(operation, e@),
    }
}

fn answer_hits(
    operation: &str,
    reply: &Result<Vec<SearchHit>, String>,
    empty: &str,
    root: Option<&str>,
) -> (text: String)
    ensures
        text@ == hits_or(operation@, *reply, empty@, root),
{
    match reply {
        Ok(hits) => render_hits(hits, empty, root),
        Err(e) => failed(operation, e.as_str()),
    }
}

/// A message about one symbol, in backticks.
pub open spec fn about(before: Seq<char>, symbol: Seq<char>) -> Seq<char> {
    before + "`"@ + symbol + "`"@
}

pub(crate) fn message_about(before: &str, symbol: &str) -> (text: String)
    ensures
        text@ == about(before@, symbol@),
{
    let mut text = copy_text(before);
    text.push_str("`");
    text.push_str(symbol);
    text.push_str("`");
    text
}

/// A message about two symbols, in backticks.
pub open spec fn from_to(before: Seq<char>, from: Seq<char>, to: Seq<char>) -> Seq<char> {
    before + " from `"@ + from + "` to `"@ + to + "`"@
}

fn message_from_to(before: &str, from: &str, to: &str) -> (text: String)
    ensures
        text@ == from_to(before@, from@, to@),
{
    let mut text = copy_text(before);
    text.push_str(" from `");
    text.push_str(from);
    text.push_str("` to `");
    text.push_str(to);
    text.push_str("`");
    text
}

/// The definitions that call a symbol.
pub fn who_calls(reply: &Result<Vec<SearchHit>, String>, symbol: &str, root: Option<&str>) -> (text:
    String)
    ensures
        text@ == hits_or("who_calls"@, *reply, about("nothing calls "@, symbol@), root),
{
    answer_hits("who_calls", reply, message_about("nothing calls ", symbol).as_str(), root)
}

/// The types that implement a trait or an interface.
pub fn implementations_of(
    reply: &Result<Vec<SearchHit>, String>,
    symbol: &str,
    root: Option<&str>,
) -> (text: String)
    ensures
        text@ == hits_or(
            "implementations_of"@,
            *reply,
            about("no implementations of "@, symbol@),
            root,
        ),
{
    answer_hits(
        "implementations_of",
        reply,
        message_about("no implementations of ", symbol).as_str(),
        root,
    )
}

/// A shortest chain of calls between two symbols.
pub fn call_path(
    reply: &Result<Vec<SearchHit>, String>,
    from: &str,
    to: &str,
    root: Option<&str>,
) -> (text: String)
    ensures
        text@ == hits_or("call_path"@, *reply, from_to("no call path"@, from@, to@), root),
{
    answer_hits("call_path", reply, message_from_to("no call path", from, to).as_str(), root)
}

/// The chunks that a value flows through between two boundaries.
pub fn flows_between(
    reply: &Result<Vec<SearchHit>, String>,
    from: &str,
    to: &str,
    root: Option<&str>,
) -> (text: String)
    ensures
        text@ == hits_or("flows_between"@, *reply, from_to("no value flow"@, from@, to@), root),
{
    answer_hits("flows_between", reply, message_from_to("no value flow", from, to).as_str(), root)
}

/// A range of lines in a file.
pub open spec fn range_text(path: Seq<char>, line_start: u32, line_end: u32) -> Seq<char> {
    path + ":"@ + decimal(line_start as nat) + "-"@ + decimal(line_end as nat)
}

fn lines_of(path: &str, line_start: u32, line_end: u32) -> (text: String)
    ensures
        text@ == range_text(path@, line_start, line_end),
{
    let mut text = copy_text(path);
    text.push_str(":");
    text.push_str(decimal_text(line_start as u64).as_str());
    text.push_str("-");
    text.push_str(decimal_text(line_end as u64).as_str());
    text
}

/// The chunks that overlap a range of lines.
pub fn expand_chunk(
    reply: &Result<Vec<SearchHit>, String>,
    path: &str,
    line_start: u32,
    line_end: u32,
    root: Option<&str>,
) -> (text: String)
    ensures
        text@ == hits_or(
            "expand_chunk"@,
            *reply,
            "no indexed chunks overlap "@ + range_text(path@, line_start, line_end),
            root,
        ),
{
    let mut empty = copy_text("no indexed chunks overlap ");
    empty.push_str(lines_of(path, line_start, line_end).as_str());
    answer_hits("expand_chunk", reply, empty.as_str(), root)
}

/// The boundaries that a value entering at `from` flows out to.
pub fn reaches(reply: &Result<Vec<String>, String>, from: &str) -> (text: String)
    ensures
        text@ == match reply {
            Ok(boundaries) => boundaries_text(
                boundaries@,
                about("no boundary flow reached from "@, from@),
            ),
            Err(e) => failed_text("reaches"@, e@),
        },
{
    match reply {
        Ok(boundaries) => render_boundaries(
            boundaries,
            message_about("no boundary flow reached from ", from).as_str(),
        ),
        Err(e) => failed("reaches", e.as_str()),
    }
}

/// The boundaries whose entering value reaches `to`.
pub fn flows_into(reply: &Result<Vec<String>, String>, to: &str) -> (text: String)
    ensures
        text@ == match reply {
            Ok(boundaries) => boundaries_text(boundaries@, about("nothing flows into "@, to@)),
            Err(e) => failed_text("flows_into"@, e@),
        },
{
    match reply {
        Ok(boundaries) => render_boundaries(
            boundaries,
            message_about("nothing flows into ", to).as_str(),
        ),
        Err(e) => failed("flows_into", e.as_str()),
    }
}

/// A match on its line.
pub open spec fn match_line(root: Option<Seq<char>>) -> spec_fn(GrepMatch) -> Seq<char> {
    |m: GrepMatch|
        shown_path(root, m.path@) + ":"@ + decimal(m.line_number as nat) + ": "@ + trim_end(m.line@)
            + "\n"@
}

/// The matches of a search in file content.
pub open spec fn matches_text(
    pattern: Seq<char>,
    found: Seq<GrepMatch>,
    root: Option<Seq<char>>,
) -> Seq<char> {
    if found.len() == 0 {
        about("no matches for "@, pattern)
    } else {
        rendered(found, match_line(root)) + "("@ + decimal(found.len()) + " match"@ + (if found.len()
            == 1 {
            ""@
        } else {
            "es"@
        }) + ")\n"@
    }
}

/// The lines that match a pattern.
pub fn grep(reply: &Result<Vec<GrepMatch>, String>, pattern: &str, root: Option<&str>) -> (text:
    String)
    ensures
        text@ == match reply {
            Ok(found) => matches_text(pattern@, found@, slice_text(root)),
            Err(e) => failed_text("grep"@, e@),
        },
{
    let found = match reply {
        Ok(found) => found,
        Err(e) => return failed("grep", e.as_str()),
    };
    if found.len() == 0 {
        return message_about("no matches for ", pattern);
    }
    let ghost line = match_line(slice_text(root));
    let mut out = String::new();
    let mut i: usize = 0;
    proof {
        lemma_rendered_none(found@, line);
    }
    while i < found.len()
        invariant
            i <= found@.len(),
            line == match_line(slice_text(root)),
            out@ == rendered(found@.take(i as int), line),
        decreases found@.len() - i,
    {
        let mut text = local_path(root, found[i].path.as_str());
        text.push_str(":");
        text.push_str(decimal_text(found[i].line_number as u64).as_str());
        text.push_str(": ");
        text.push_str(trim_tail(found[i].line.as_str()));
        text.push_str("\n");
        out.push_str(text.as_str());
        proof {
            lemma_rendered_next(found@, line, i as int);
        }
        i = i + 1;
    }
    assert(found@.take(i as int) =~= found@);
    out.push_str("(");
    out.push_str(decimal_text(found.len() as u64).as_str());
    out.push_str(" match");
    if found.len() == 1 {
        out.push_str("");
    } else {
        out.push_str("es");
    }
    out.push_str(")\n");
    out
}

/// A chunk of a file on its line.
pub open spec fn outline_line() -> spec_fn(OutlineEntry) -> Seq<char> {
    |e: OutlineEntry|
        "  "@ + decimal(e.line_start as nat) + "-"@ + decimal(e.line_end as nat) + "  "@ + e.kind@
            + " "@ + text_or(optional(e.symbol), "-"@) + "\n"@
}

/// A file's table of contents.
pub fn file_outline(reply: &Result<FileOutline, String>, path: &str, root: Option<&str>) -> (text:
    String)
    ensures
        text@ == match reply {
            Ok(outline) => if outline.entries@.len() == 0 {
                path@ + " is indexed but has no chunks"@
            } else {
                shown_path(slice_text(root), outline.path@) + "\n"@ + rendered(
                    outline.entries@,
                    outline_line(),
                )
            },
            Err(e) => failed_text("file_outline"@, e@),
        },
{
    let outline = match reply {
        Ok(outline) => outline,
        Err(e) => return failed("file_outline", e.as_str()),
    };
    if outline.entries.len() == 0 {
        let mut text = copy_text(path);
        text.push_str(" is indexed but has no chunks");
        return text;
    }
    let entries = &outline.entries;
    let mut body = String::new();
    let mut i: usize = 0;
    proof {
        lemma_rendered_none(entries@, outline_line());
    }
    while i < entries.len()
        invariant
            i <= entries@.len(),
            body@ == rendered(entries@.take(i as int), outline_line()),
        decreases entries@.len() - i,
    {
        let mut text = copy_text("  ");
        text.push_str(decimal_text(entries[i].line_start as u64).as_str());
        text.push_str("-");
        text.push_str(decimal_text(entries[i].line_end as u64).as_str());
        text.push_str("  ");
        text.push_str(entries[i].kind.as_str());
        text.push_str(" ");
        text.push_str(optional_or(&entries[i].symbol, "-"));
        text.push_str("\n");
        body.push_str(text.as_str());
        proof {
            lemma_rendered_next(entries@, outline_line(), i as int);
        }
        i = i + 1;
    }
    assert(entries@.take(i as int) =~= entries@);
    let mut out = local_path(root, outline.path.as_str());
    out.push_str("\n");
    out.push_str(body.as_str());
    out
}

/// A place in a file: a line, with a column where one was given.
pub open spec fn place_text(path: Seq<char>, line: u32, column: Option<u32>) -> Seq<char> {
    path + ":"@ + decimal(line as nat) + (match column {
        Some(at) => ":"@ + decimal(at as nat),
        None => ""@,
    })
}

/// The symbol at a place in a file.
pub fn symbol_at_position(
    reply: Result<Option<SearchHit>, String>,
    path: &str,
    line: u32,
    column: Option<u32>,
    root: Option<&str>,
) -> (text: String)
    ensures
        text@ == match reply {
            Ok(Some(hit)) => lookup_text(seq![hit], ""@, root),
            Ok(None) => "(no symbol at "@ + place_text(path@, line, column) + ")"@,
            Err(e) => failed_text("symbol_at_position"@, e@),
        },
{
    match reply {
        Ok(Some(hit)) => {
            let ghost only = hit;
            let mut hits: Vec<SearchHit> = Vec::new();
            hits.push(hit);
            assert(hits@ =~= seq![only]);
            render_hits(&hits, "", root)
        },
        Ok(None) => {
            let mut place = copy_text(path);
            place.push_str(":");
            place.push_str(decimal_text(line as u64).as_str());
            let at = match column {
                Some(at) => {
                    let mut text = copy_text(":");
                    text.push_str(decimal_text(at as u64).as_str());
                    text
                },
                None => copy_text(""),
            };
            place.push_str(at.as_str());
            let mut text = copy_text("(no symbol at ");
            text.push_str(place.as_str());
            text.push_str(")");
            text
        },
        Err(e) => failed("symbol_at_position", e.as_str()),
    }
}

/// What a batch looks up of each symbol.
pub open spec fn batch_kind(references: bool) -> Seq<char> {
    if references {
        "references"@
    } else {
        "definitions"@
    }
}

/// A hit of a batch on its line; a hit without lines begins and ends at zero.
pub open spec fn batch_hit_line(root: Option<Seq<char>>) -> spec_fn(SearchHit) -> Seq<char> {
    |hit: SearchHit|
        "  "@ + shown_path(root, text_or(optional(hit.path), "?"@)) + ":"@ + decimal(
            number_or_zero(hit.line_start) as nat,
        ) + "-"@ + decimal(number_or_zero(hit.line_end) as nat) + "\n"@
}

pub open spec fn number_or_zero(n: Option<u32>) -> u32 {
    match n {
        Some(number) => number,
        None => 0,
    }
}

pub fn or_zero(n: Option<u32>) -> (number: u32)
    ensures
        number == number_or_zero(n),
{
    match n {
        Some(number) => number,
        None => 0,
    }
}

/// One symbol of a batch with its hits.
pub open spec fn batch_block(references: bool, root: Option<Seq<char>>) -> spec_fn(
    SymbolHits,
) -> Seq<char> {
    |found: SymbolHits|
        if found.hits@.len() == 0 {
            found.symbol@ + " — no "@ + batch_kind(references) + "\n"@
        } else {
            found.symbol@ + " ("@ + decimal(found.hits@.len()) + " "@ + batch_kind(references)
                + "):\n"@ + rendered(found.hits@, batch_hit_line(root))
        }
}

fn render_batch_hits(hits: &Vec<SearchHit>, root: Option<&str>) -> (out: String)
    ensures
        out@ == rendered(hits@, batch_hit_line(slice_text(root))),
{
    let ghost line = batch_hit_line(slice_text(root));
    let mut out = String::new();
    let mut i: usize = 0;
    proof {
        lemma_rendered_none(hits@, line);
    }
    while i < hits.len()
        invariant
            i <= hits@.len(),
            line == batch_hit_line(slice_text(root)),
            out@ == rendered(hits@.take(i as int), line),
        decreases hits@.len() - i,
    {
        let mut text = copy_text("  ");
        text.push_str(local_path(root, optional_or(&hits[i].path, "?")).as_str());
        text.push_str(":");
        text.push_str(decimal_text(or_zero(hits[i].line_start) as u64).as_str());
        text.push_str("-");
        text.push_str(decimal_text(or_zero(hits[i].line_end) as u64).as_str());
        text.push_str("\n");
        out.push_str(text.as_str());
        proof {
            lemma_rendered_next(hits@, line, i as int);
        }
        i = i + 1;
    }
    assert(hits@.take(i as int) =~= hits@);
    out
}

/// What is answered where a batch names no symbol, before anything is asked.
pub fn batch_without_symbols(symbols: &Vec<String>) -> (text: Option<String>)
    ensures
        optional(text) == if symbols@.len() == 0 {
            Some("(no symbols requested)"@)
        } else {
            None
        },
{
    if symbols.len() == 0 {
        Some(copy_text("(no symbols requested)"))
    } else {
        None
    }
}

/// Many symbols in one answer: the definitions of each, or its references.
pub fn batch_lookup(
    reply: &Result<Vec<SymbolHits>, String>,
    references: bool,
    root: Option<&str>,
) -> (text: String)
    ensures
        text@ == match reply {
            Ok(results) => rendered(results@, batch_block(references, slice_text(root))),
            Err(e) => failed_text("batch_lookup"@, e@),
        },
{
    let results = match reply {
        Ok(results) => results,
        Err(e) => return failed("batch_lookup", e.as_str()),
    };
    let kind = if references {
        "references"
    } else {
        "definitions"
    };
    let ghost block = batch_block(references, slice_text(root));
    let mut out = String::new();
    let mut i: usize = 0;
    proof {
        lemma_rendered_none(results@, block);
    }
    while i < results.len()
        invariant
            i <= results@.len(),
            kind@ == batch_kind(references),
            block == batch_block(references, slice_text(root)),
            out@ == rendered(results@.take(i as int), block),
        decreases results@.len() - i,
    {
        let found = &results[i];
        let mut text = copy_text(found.symbol.as_str());
        if found.hits.len() == 0 {
            text.push_str(" — no ");
            text.push_str(kind);
            text.push_str("\n");
        } else {
            text.push_str(" (");
            text.push_str(decimal_text(found.hits.len() as u64).as_str());
            text.push_str(" ");
            text.push_str(kind);
            text.push_str("):\n");
            text.push_str(render_batch_hits(&found.hits, root).as_str());
        }
        out.push_str(text.as_str());
        proof {
            lemma_rendered_next(results@, block, i as int);
        }
        i = i + 1;
    }
    assert(results@.take(i as int) =~= results@);
    out
}

/// How many near names are suggested at most.
pub const MAX_SUGGESTIONS: usize = 5;

/// How many hits are searched for near names.
pub const NEAR_MISS_HITS: u32 = 10;

/// The search for names that are near a symbol.
pub fn near_miss_body(symbol: &str, codebase_id: Option<&str>) -> (body: SearchRequestBody)
    ensures
        body.query@ == symbol@,
        body.top_k == NEAR_MISS_HITS,
        optional(body.codebase_id) == slice_text(codebase_id),
        body.domains is None,
        body.kinds is None,
        body.prefer is None,
        body.granularity is None,
{
    let codebase_id = match codebase_id {
        Some(id) => Some(copy_text(id)),
        None => None,
    };
    SearchRequestBody {
        query: copy_text(symbol),
        top_k: NEAR_MISS_HITS,
        codebase_id,
        domains: None,
        kinds: None,
        prefer: None,
        granularity: None,
    }
}

/// Whether a name is another one than the symbol, and one of the two holds the
/// other, whatever their case.
pub open spec fn is_near(name: Seq<char>, symbol: Seq<char>) -> bool {
    &&& name != symbol
    &&& contains_text(lower_text(name), lower_text(symbol)) || contains_text(
        lower_text(symbol),
        lower_text(name),
    )
}

/// The names of hits that have one.
pub open spec fn names(hits: Seq<SearchHit>) -> Seq<Seq<char>> {
    hits.map_values(|hit: SearchHit| text_or(optional(hit.symbol), ""@))
}

/// The hits that are suggested: those with near names, each name once, and only
/// the first few.
pub open spec fn suggested(hits: Seq<SearchHit>, symbol: Seq<char>) -> Seq<SearchHit>
    decreases hits.len(),
{
    if hits.len() == 0 {
        seq![]
    } else {
        let before = suggested(hits.drop_last(), symbol);
        let hit = hits.last();
        if before.len() < MAX_SUGGESTIONS && (hit.symbol matches Some(name) && is_near(name@, symbol)
            && !names(before).contains(name@)) {
            before.push(hit)
        } else {
            before
        }
    }
}

/// A suggestion on its line.
pub open spec fn suggestion_line(root: Option<Seq<char>>) -> spec_fn(SearchHit) -> Seq<char> {
    |hit: SearchHit|
        "  `"@ + text_or(optional(hit.symbol), ""@) + "`  "@ + location_text(hit, root) + "\n"@
}

/// What is answered where a symbol was not found.
pub open spec fn miss_text(
    hits: Option<Seq<SearchHit>>,
    symbol: Seq<char>,
    what: Seq<char>,
    root: Option<Seq<char>>,
) -> Seq<char> {
    let miss = "no "@ + what + " found for `"@ + symbol + "`"@;
    match hits {
        Some(found) if suggested(found, symbol).len() > 0 => miss + ". Did you mean:\n"@ + rendered(
            suggested(found, symbol),
            suggestion_line(root),
        ),
        _ => miss,
    }
}

pub open spec fn found_hits(reply: Result<Vec<SearchHit>, String>) -> Option<Seq<SearchHit>> {
    match reply {
        Ok(hits) => Some(hits@),
        Err(_) => None,
    }
}

/// A symbol that was not found, with names that are near it where a search has
/// any. A search that failed only takes the suggestions away.
pub fn near_miss(
    reply: &Result<Vec<SearchHit>, String>,
    symbol: &str,
    what: &str,
    root: Option<&str>,
) -> (text: String)
    ensures
        text@ == miss_text(found_hits(*reply), symbol@, what@, slice_text(root)),
{
    let mut miss = copy_text("no ");
    miss.push_str(what);
    miss.push_str(" found for `");
    miss.push_str(symbol);
    miss.push_str("`");
    let hits = match reply {
        Ok(hits) => hits,
        Err(_) => return miss,
    };
    let needle = lowercase(symbol);
    let ghost line = suggestion_line(slice_text(root));
    let ghost mut chosen: Seq<SearchHit> = seq![];
    let mut seen: Vec<String> = Vec::new();
    let mut list = String::new();
    let mut i: usize = 0;
    proof {
        lemma_rendered_none(chosen, line);
        assert(chosen.take(0) =~= chosen);
        assert(hits@.take(0) =~= seq![]);
        assert(texts(seen@) =~= names(chosen));
    }
    while i < hits.len()
        invariant
            i <= hits@.len(),
            needle@ == lower_text(symbol@),
            line == suggestion_line(slice_text(root)),
            chosen == suggested(hits@.take(i as int), symbol@),
            texts(seen@) == names(chosen),
            chosen.len() == seen@.len(),
            list@ == rendered(chosen, line),
        decreases hits@.len() - i,
    {
        let hit = &hits[i];
        assert(hits@.take(i + 1).drop_last() =~= hits@.take(i as int));
        match &hit.symbol {
            Some(name) => {
                let lower = lowercase(name.as_str());
                if seen.len() < MAX_SUGGESTIONS && !same(name.as_str(), symbol) && (contains(
                    lower.as_str(),
                    needle.as_str(),
                ) || contains(needle.as_str(), lower.as_str())) && !lists(&seen, name.as_str()) {
                    let mut text = copy_text("  `");
                    text.push_str(name.as_str());
                    text.push_str("`  ");
                    text.push_str(hit_location(hit, root).as_str());
                    text.push_str("\n");
                    list.push_str(text.as_str());
                    seen.push(copy_text(name.as_str()));
                    proof {
                        let more = chosen.push(*hit);
                        lemma_rendered_next(more, line, chosen.len() as int);
                        assert(more.take(chosen.len() as int) =~= chosen);
                        assert(more.take(chosen.len() as int + 1) =~= more);
                        assert(names(more) =~= names(chosen).push(name@));
                        assert(texts(seen@) =~= names(more));
                        chosen = more;
                    }
                }
            },
            None => {},
        }
        i = i + 1;
    }
    assert(hits@.take(i as int) =~= hits@);
    if seen.len() == 0 {
        miss
    } else {
        miss.push_str(". Did you mean:\n");
        miss.push_str(list.as_str());
        miss
    }
}

/// Suggestions are few, name each name once, and never name the symbol that was
/// not found.
pub proof fn law_suggestions_are_few_and_distinct(hits: Seq<SearchHit>, symbol: Seq<char>)
    ensures
        suggested(hits, symbol).len() <= MAX_SUGGESTIONS,
        names(suggested(hits, symbol)).no_duplicates(),
        !names(suggested(hits, symbol)).contains(symbol),
    decreases hits.len(),
{
    if hits.len() > 0 {
        law_suggestions_are_few_and_distinct(hits.drop_last(), symbol);
        let before = suggested(hits.drop_last(), symbol);
        let all = suggested(hits, symbol);
        if all.len() > before.len() {
            assert(names(all) =~= names(before).push(hits.last().symbol->0@));
            assert forall|a: int, b: int|
                0 <= a < names(all).len() && 0 <= b < names(all).len() && a != b implies names(
                all,
            )[a] != names(all)[b] by {
                let last = names(before).len() as int;
                assert(a < last ==> names(before).contains(names(all)[a])) by {
                    if a < last {
                        assert(names(before)[a] == names(all)[a]);
                    }
                }
                assert(b < last ==> names(before).contains(names(all)[b])) by {
                    if b < last {
                        assert(names(before)[b] == names(all)[b]);
                    }
                }
                if a < last && b < last {
                    assert(names(before)[a] != names(before)[b]);
                }
            }
            if names(all).contains(symbol) {
                let k = choose|k: int| 0 <= k < names(all).len() && names(all)[k] == symbol;
                if k < names(before).len() {
                    assert(names(before)[k] == symbol);
                }
            }
        }
    }
}

/// A list on one line for each hit, or the word for none.
pub open spec fn listed(hits: Seq<SearchHit>, root: Option<Seq<char>>) -> Seq<char> {
    if hits.len() == 0 {
        "  (none)\n"@
    } else {
        Seq::new(hits.len(), |i: int| hit_on_a_line(hits[i], root)).flatten()
    }
}

proof fn lemma_listed(hits: Seq<SearchHit>, root: Option<Seq<char>>)
    ensures
        compact_text(hits, "  (none)"@, root) == listed(hits, root),
{
    law_a_compact_list_has_a_line_for_each_hit(hits, "  (none)"@, root);
    reveal_strlit("  (none)");
    reveal_strlit("\n");
    reveal_strlit("  (none)\n");
    assert("  (none)\n"@ =~= "  (none)"@ + "\n"@);
}

/// A trace shows the definition, then the callers, one line for each, and then the
/// callees, one line for each, with how many there are of both.
pub proof fn law_a_trace_lists_callers_and_callees(
    symbol: Seq<char>,
    found: TraceResult,
    root: Option<&str>,
)
    ensures
        trace_text(symbol, found, root) == "definition of `"@ + symbol + "`:\n"@ + lookup_text(
            found.definition@,
            ""@,
            root,
        ) + "\ncallers ("@ + decimal(found.callers@.len()) + "):\n"@ + listed(
            found.callers@,
            slice_text(root),
        ) + "\ncallees ("@ + decimal(found.callees@.len()) + "):\n"@ + listed(
            found.callees@,
            slice_text(root),
        ),
{
    lemma_listed(found.callers@, slice_text(root));
    lemma_listed(found.callees@, slice_text(root));
}

/// What a trace says of callees depends on the callees alone: two traces with the
/// same callees end with the same section, which lists them. In the same way, what
/// stands before the callers depends on the definition alone.
pub proof fn law_a_trace_keeps_callers_and_callees_apart(
    symbol: Seq<char>,
    one: TraceResult,
    other: TraceResult,
    root: Option<&str>,
)
    ensures
        one.callees@ == other.callees@ ==> {
            let section = "\ncallees ("@ + decimal(one.callees@.len()) + "):\n"@ + listed(
                one.callees@,
                slice_text(root),
            );
            &&& section.is_suffix_of(trace_text(symbol, one, root))
            &&& section.is_suffix_of(trace_text(symbol, other, root))
        },
        one.definition@ == other.definition@ && one.callers@ == other.callers@ ==> {
            let beginning = "definition of `"@ + symbol + "`:\n"@ + lookup_text(
                one.definition@,
                ""@,
                root,
            ) + "\ncallers ("@ + decimal(one.callers@.len()) + "):\n"@ + listed(
                one.callers@,
                slice_text(root),
            );
            &&& beginning.is_prefix_of(trace_text(symbol, one, root))
            &&& beginning.is_prefix_of(trace_text(symbol, other, root))
        },
{
    lemma_trace_ends(symbol, one, root);
    lemma_trace_ends(symbol, other, root);
}

proof fn lemma_trace_ends(symbol: Seq<char>, found: TraceResult, root: Option<&str>)
    ensures
        ("\ncallees ("@ + decimal(found.callees@.len()) + "):\n"@ + listed(
            found.callees@,
            slice_text(root),
        )).is_suffix_of(trace_text(symbol, found, root)),
        ("definition of `"@ + symbol + "`:\n"@ + lookup_text(found.definition@, ""@, root)
            + "\ncallers ("@ + decimal(found.callers@.len()) + "):\n"@ + listed(
            found.callers@,
            slice_text(root),
        )).is_prefix_of(trace_text(symbol, found, root)),
{
    law_a_trace_lists_callers_and_callees(symbol, found, root);
    let a = "definition of `"@ + symbol + "`:\n"@ + lookup_text(found.definition@, ""@, root)
        + "\ncallers ("@ + decimal(found.callers@.len()) + "):\n"@ + listed(
        found.callers@,
        slice_text(root),
    );
    let b = "\ncallees ("@;
    let c = decimal(found.callees@.len());
    let d = "):\n"@;
    let e = listed(found.callees@, slice_text(root));
    let whole = trace_text(symbol, found, root);
    let tail = b + c + d + e;
    assert(whole == a + b + c + d + e);
    assert(a + b + c + d + e =~= a + tail);
    assert((a + tail).subrange(a.len() as int, (a + tail).len() as int) =~= tail);
    assert((a + tail).subrange(0, a.len() as int) =~= a);
}

/// An answer to a lookup shows the hits, a message of its own where there are none,
/// and the reason where the call failed.
pub proof fn law_a_lookup_answers_with_its_hits(
    operation: Seq<char>,
    hits: Vec<SearchHit>,
    reason: String,
    empty: Seq<char>,
    root: Option<&str>,
)
    ensures
        hits@.len() == 0 ==> hits_or(operation, Ok(hits), empty, root) == empty,
        hits@.len() > 0 ==> hits_or(operation, Ok(hits), empty, root) == lookup_text(
            hits@,
            ""@,
            root,
        ),
        hits_or(operation, Err(reason), empty, root) == operation + " failed: "@ + reason@,
        failed_text(operation, reason@) == operation + " failed: "@ + reason@,
        about(operation, empty) == operation + "`"@ + empty + "`"@,
        from_to(operation, reason@, empty) == operation + " from `"@ + reason@ + "` to `"@ + empty
            + "`"@,
{
}

/// A range and a place in a file are written with their path, lines and column.
pub proof fn law_places_are_written_out(path: Seq<char>, first: u32, last: u32)
    ensures
        range_text(path, first, last) == path + ":"@ + decimal(first as nat) + "-"@ + decimal(
            last as nat,
        ),
        place_text(path, first, None) == path + ":"@ + decimal(first as nat),
        place_text(path, first, Some(last)) == path + ":"@ + decimal(first as nat) + ":"@ + decimal(
            last as nat,
        ),
        number_or_zero(None) == 0,
        number_or_zero(Some(first)) == first,
        batch_kind(true) == "references"@,
        batch_kind(false) == "definitions"@,
{
    reveal_strlit("");
    lemma_in_a_row(path + ":"@ + decimal(first as nat), ":"@, decimal(last as nat));
    assert(path + ":"@ + decimal(first as nat) + ""@ =~= path + ":"@ + decimal(first as nat));
}

/// The matches of a search are shown one on each line, with path, line number and
/// the line without the white space behind it, and with how many there are.
pub proof fn law_every_match_is_shown(
    pattern: Seq<char>,
    found: Seq<GrepMatch>,
    root: Option<Seq<char>>,
)
    ensures
        found.len() == 0 ==> matches_text(pattern, found, root) == "no matches for "@ + "`"@
            + pattern + "`"@,
        found.len() > 0 ==> matches_text(pattern, found, root) == Seq::new(
            found.len(),
            |i: int|
                shown_path(root, found[i].path@) + ":"@ + decimal(found[i].line_number as nat)
                    + ": "@ + trim_end(found[i].line@) + "\n"@,
        ).flatten() + "("@ + decimal(found.len()) + " match"@ + (if found.len() == 1 {
            ""@
        } else {
            "es"@
        }) + ")\n"@,
{
    lemma_rendered_is_a_row(found, match_line(root));
    assert(Seq::new(found.len(), |i: int| match_line(root)(found[i])) =~= Seq::new(
        found.len(),
        |i: int|
            shown_path(root, found[i].path@) + ":"@ + decimal(found[i].line_number as nat) + ": "@
                + trim_end(found[i].line@) + "\n"@,
    ));
}

/// Which names are suggested for a symbol that was not found: those of hits whose
/// name is another one that holds the symbol, or that the symbol holds, whatever the
/// case; and as long as there are fewer than five, every such name.
pub proof fn law_suggestions_are_near(hits: Seq<SearchHit>, symbol: Seq<char>)
    ensures
        forall|k: int|
            0 <= k < suggested(hits, symbol).len() ==> {
                let hit = #[trigger] suggested(hits, symbol)[k];
                &&& hits.contains(hit)
                &&& hit.symbol is Some
                &&& hit.symbol->0@ != symbol
                &&& contains_text(lower_text(hit.symbol->0@), lower_text(symbol)) || contains_text(
                    lower_text(symbol),
                    lower_text(hit.symbol->0@),
                )
            },
        suggested(hits, symbol).len() < 5 ==> forall|j: int|
            #![trigger hits[j]]
            0 <= j < hits.len() && hits[j].symbol is Some && hits[j].symbol->0@ != symbol && (
            contains_text(lower_text(hits[j].symbol->0@), lower_text(symbol)) || contains_text(
                lower_text(symbol),
                lower_text(hits[j].symbol->0@),
            )) ==> names(suggested(hits, symbol)).contains(hits[j].symbol->0@),
    decreases hits.len(),
{
    if hits.len() > 0 {
        let fewer = hits.drop_last();
        law_suggestions_are_near(fewer, symbol);
        let before = suggested(fewer, symbol);
        let all = suggested(hits, symbol);
        assert forall|k: int| 0 <= k < all.len() implies hits.contains(#[trigger] all[k])
            && all[k].symbol is Some && all[k].symbol->0@ != symbol && (contains_text(
            lower_text(all[k].symbol->0@),
            lower_text(symbol),
        ) || contains_text(lower_text(symbol), lower_text(all[k].symbol->0@))) by {
            if k < before.len() {
                assert(all[k] == before[k]);
                assert(fewer.contains(before[k]));
                let j = choose|j: int| 0 <= j < fewer.len() && fewer[j] == before[k];
                assert(hits[j] == all[k]);
            } else {
                assert(hits[hits.len() - 1] == all[k]);
            }
        }
        if all.len() < 5 {
            if all.len() > before.len() {
                assert(names(all) =~= names(before).push(hits.last().symbol->0@));
            }
            assert forall|j: int|
                #![trigger hits[j]]
                0 <= j < hits.len() && hits[j].symbol is Some && hits[j].symbol->0@ != symbol && (
                contains_text(lower_text(hits[j].symbol->0@), lower_text(symbol)) || contains_text(
                    lower_text(symbol),
                    lower_text(hits[j].symbol->0@),
                )) implies names(all).contains(hits[j].symbol->0@) by {
                if j < fewer.len() {
                    assert(fewer[j] == hits[j]);
                    let i = names(before).index_of(hits[j].symbol->0@);
                    assert(names(all)[i] == names(before)[i]);
                } else if all.len() > before.len() {
                    assert(names(all)[before.len() as int] == hits[j].symbol->0@);
                }
            }
        }
    }
}

/// What is said of a symbol that was not found: what was looked for, and the names
/// that are near with where they are, where there are any.
pub proof fn law_a_miss_says_what_was_looked_for(
    hits: Option<Seq<SearchHit>>,
    symbol: Seq<char>,
    what: Seq<char>,
    root: Option<Seq<char>>,
)
    ensures
        hits is None ==> miss_text(hits, symbol, what, root) == "no "@ + what + " found for `"@
            + symbol + "`"@,
        hits matches Some(found) ==> {
            let near = suggested(found, symbol);
            miss_text(hits, symbol, what, root) == if near.len() == 0 {
                "no "@ + what + " found for `"@ + symbol + "`"@
            } else {
                "no "@ + what + " found for `"@ + symbol + "`"@ + ". Did you mean:\n"@ + Seq::new(
                    near.len(),
                    |i: int|
                        "  `"@ + text_or(optional(near[i].symbol), ""@) + "`  "@ + location_text(
                            near[i],
                            root,
                        ) + "\n"@,
                ).flatten()
            }
        },
{
    if hits is Some {
        let near = suggested(hits->0, symbol);
        lemma_rendered_is_a_row(near, suggestion_line(root));
        assert(Seq::new(near.len(), |i: int| suggestion_line(root)(near[i])) =~= Seq::new(
            near.len(),
            |i: int|
                "  `"@ + text_or(optional(near[i].symbol), ""@) + "`  "@ + location_text(
                    near[i],
                    root,
                ) + "\n"@,
        ));
    }
}

/// An outline has one line for each chunk: its lines, its kind and its symbol.
pub proof fn law_an_outline_shows_every_chunk(items: Seq<OutlineEntry>)
    ensures
        rendered(items, outline_line()) == Seq::new(
            items.len(),
            |i: int| "  "@ + decimal(items[i].line_start as nat) + "-"@
                + decimal(items[i].line_end as nat) + "  "@ + items[i].kind@ + " "@
                + (if items[i].symbol is Some { items[i].symbol->0@ } else { "-"@ }) + "\n"@,
        ).flatten(),
{
    lemma_rendered_is_a_row(items, outline_line());
    assert(Seq::new(items.len(), |i: int| outline_line()(items[i])) =~= Seq::new(
        items.len(),
        |i: int| "  "@ + decimal(items[i].line_start as nat) + "-"@
            + decimal(items[i].line_end as nat) + "  "@ + items[i].kind@ + " "@
            + (if items[i].symbol is Some { items[i].symbol->0@ } else { "-"@ }) + "\n"@,
    ));
}

/// The hits of a symbol in a batch have one line each: path, first and last line.
pub proof fn law_a_batch_shows_every_hit(items: Seq<SearchHit>, root: Option<Seq<char>>)
    ensures
        rendered(items, batch_hit_line(root)) == Seq::new(
            items.len(),
            |i: int| "  "@
                + shown_path(root, if items[i].path is Some { items[i].path->0@ } else { "?"@ })
                    + ":"@
                    + decimal((if items[i].line_start is Some { items[i].line_start->0 } else { 0u32 }) as nat)
                    + "-"@
                    + decimal((if items[i].line_end is Some { items[i].line_end->0 } else { 0u32 }) as nat)
                    + "\n"@,
        ).flatten(),
{
    lemma_rendered_is_a_row(items, batch_hit_line(root));
    assert(Seq::new(items.len(), |i: int| batch_hit_line(root)(items[i])) =~= Seq::new(
        items.len(),
        |i: int| "  "@
            + shown_path(root, if items[i].path is Some { items[i].path->0@ } else { "?"@ })
            + ":"@
            + decimal((if items[i].line_start is Some { items[i].line_start->0 } else { 0u32 }) as nat)
                + "-"@
                + decimal((if items[i].line_end is Some { items[i].line_end->0 } else { 0u32 }) as nat)
                + "\n"@,
    ));
}

/// A batch shows every symbol, with its hits below it, or that it has none.
pub proof fn law_a_batch_shows_every_symbol(
    items: Seq<SymbolHits>,
    references: bool,
    root: Option<Seq<char>>,
)
    ensures
        rendered(items, batch_block(references, root)) == Seq::new(
            items.len(),
            |i: int| if items[i].hits@.len() == 0 { items[i].symbol@ + " — no "@
                + (if references { "references"@ } else { "definitions"@ })
                + "\n"@ } else { items[i].symbol@ + " ("@ + decimal(items[i].hits@.len())
                + " "@ + (if references { "references"@ } else { "definitions"@ }) + "):\n"@
                + rendered(items[i].hits@, batch_hit_line(root)) },
        ).flatten(),
{
    lemma_rendered_is_a_row(items, batch_block(references, root));
    assert(Seq::new(items.len(), |i: int| batch_block(references, root)(items[i])) =~= Seq::new(
        items.len(),
        |i: int| if items[i].hits@.len() == 0 { items[i].symbol@ + " — no "@
            + (if references { "references"@ } else { "definitions"@ })
            + "\n"@ } else { items[i].symbol@ + " ("@ + decimal(items[i].hits@.len()) + " "@
            + (if references { "references"@ } else { "definitions"@ }) + "):\n"@
            + rendered(items[i].hits@, batch_hit_line(root)) },
    ));
}

/// A call of `trace` on a symbol that is found lists its callers as callers and its
/// callees as callees, each with their number and on a line of its own.
pub proof fn law_tracing_lists_callers_and_callees(
    reply: &Result<TraceResult, String>,
    symbol: &str,
    root: Option<&str>,
    answer: Answer,
)
    requires
        call_ensures(trace, (reply, symbol, root), answer),
    ensures
        reply matches Err(e) ==> (answer matches Answer::Text(text) && text@ == "trace"@
            + " failed: "@ + e@),
        reply matches Ok(found) ==> {
            &&& found.definition@.len() == 0 ==> (answer matches Answer::Suggest(what) && what@
                == "definition"@)
            &&& found.definition@.len() > 0 ==> (answer matches Answer::Text(text) && text@
                == "definition of `"@ + symbol@ + "`:\n"@ + lookup_text(
                found.definition@,
                ""@,
                root,
            ) + "\ncallers ("@ + decimal(found.callers@.len()) + "):\n"@ + listed(
                found.callers@,
                slice_text(root),
            ) + "\ncallees ("@ + decimal(found.callees@.len()) + "):\n"@ + listed(
                found.callees@,
                slice_text(root),
            ))
        },
{
    if reply is Ok {
        law_a_trace_lists_callers_and_callees(symbol@, reply->Ok_0, root);
    }
}

/// Definitions and references that are found are shown; where there are none, near
/// names are suggested; and a failure is told under the name of the lookup.
pub proof fn law_definitions_and_references_are_shown(
    reply: &Result<Vec<SearchHit>, String>,
    root: Option<&str>,
    definition: Answer,
    references: Answer,
)
    requires
        call_ensures(find_definition, (reply, root), definition),
        call_ensures(find_references, (reply, root), references),
    ensures
        match reply {
            Ok(hits) => if hits@.len() == 0 {
                &&& definition matches Answer::Suggest(what) && what@ == "definition"@
                &&& references matches Answer::Suggest(what) && what@ == "references"@
            } else {
                &&& definition matches Answer::Text(text) && text@ == lookup_text(hits@, ""@, root)
                &&& references matches Answer::Text(text) && text@ == lookup_text(hits@, ""@, root)
            },
            Err(e) => {
                &&& definition matches Answer::Text(text) && text@ == "find_definition"@
                    + " failed: "@ + e@
                &&& references matches Answer::Text(text) && text@ == "find_references"@
                    + " failed: "@ + e@
            },
        },
{
}

/// Relations that are found are shown, all of them; where there are none, the answer
/// says of what.
pub proof fn law_relations_are_shown(
    reply: &Result<Vec<SearchHit>, String>,
    one: &str,
    other: &str,
    root: Option<&str>,
    callers: String,
    implementations: String,
    path: String,
    flow: String,
)
    requires
        call_ensures(who_calls, (reply, one, root), callers),
        call_ensures(implementations_of, (reply, one, root), implementations),
        call_ensures(call_path, (reply, one, other, root), path),
        call_ensures(flows_between, (reply, one, other, root), flow),
    ensures
        match reply {
            Ok(hits) => if hits@.len() == 0 {
                &&& callers@ == "nothing calls "@ + "`"@ + one@ + "`"@
                &&& implementations@ == "no implementations of "@ + "`"@ + one@ + "`"@
                &&& path@ == "no call path"@ + " from `"@ + one@ + "` to `"@ + other@ + "`"@
                &&& flow@ == "no value flow"@ + " from `"@ + one@ + "` to `"@ + other@ + "`"@
            } else {
                &&& callers@ == lookup_text(hits@, ""@, root)
                &&& implementations@ == lookup_text(hits@, ""@, root)
                &&& path@ == lookup_text(hits@, ""@, root)
                &&& flow@ == lookup_text(hits@, ""@, root)
            },
            Err(e) => {
                &&& callers@ == "who_calls"@ + " failed: "@ + e@
                &&& implementations@ == "implementations_of"@ + " failed: "@ + e@
                &&& path@ == "call_path"@ + " failed: "@ + e@
                &&& flow@ == "flows_between"@ + " failed: "@ + e@
            },
        },
{
}

/// Matches, boundaries, outlines and the symbol at a place are shown where there are
/// any; where there are none the answer says where it looked.
pub proof fn law_what_is_found_is_shown(
    found: &Result<Vec<GrepMatch>, String>,
    boundaries: &Result<Vec<String>, String>,
    outline: &Result<FileOutline, String>,
    pattern: &str,
    root: Option<&str>,
    matches_shown: String,
    reached: String,
    flowing: String,
    outlined: String,
)
    requires
        call_ensures(grep, (found, pattern, root), matches_shown),
        call_ensures(reaches, (boundaries, pattern), reached),
        call_ensures(flows_into, (boundaries, pattern), flowing),
        call_ensures(file_outline, (outline, pattern, root), outlined),
    ensures
        match found {
            Ok(list) => matches_shown@ == matches_text(pattern@, list@, slice_text(root)),
            Err(e) => matches_shown@ == "grep"@ + " failed: "@ + e@,
        },
        match boundaries {
            Ok(list) => if list@.len() == 0 {
                &&& reached@ == "no boundary flow reached from "@ + "`"@ + pattern@ + "`"@ + "\n"@
                &&& flowing@ == "nothing flows into "@ + "`"@ + pattern@ + "`"@ + "\n"@
            } else {
                reached@ == boundaries_text(list@, ""@) && flowing@ == boundaries_text(list@, ""@)
            },
            Err(e) => reached@ == "reaches"@ + " failed: "@ + e@ && flowing@ == "flows_into"@
                + " failed: "@ + e@,
        },
        match outline {
            Ok(list) => if list.entries@.len() == 0 {
                outlined@ == pattern@ + " is indexed but has no chunks"@
            } else {
                outlined@ == shown_path(slice_text(root), list.path@) + "\n"@ + rendered(
                    list.entries@,
                    outline_line(),
                )
            },
            Err(e) => outlined@ == "file_outline"@ + " failed: "@ + e@,
        },
{
}

/// No more than five names are suggested, and none of them twice.
pub proof fn law_suggestions_are_few(hits: Seq<SearchHit>, symbol: Seq<char>)
    ensures
        suggested(hits, symbol).len() <= 5,
        names(suggested(hits, symbol)).no_duplicates(),
    decreases hits.len(),
{
    if hits.len() > 0 {
        law_suggestions_are_few(hits.drop_last(), symbol);
        let before = suggested(hits.drop_last(), symbol);
        let all = suggested(hits, symbol);
        if all != before {
            assert(names(all) =~= names(before).push(names(all).last()));
        }
    }
}

/// A symbol that is missed is told with the names near it; a chunk, the symbol at a
/// place and a batch are shown, or what was asked for is named.
pub proof fn law_misses_places_and_batches_are_told(
    reply: &Result<Vec<SearchHit>, String>,
    symbol: &str,
    what: &str,
    root: Option<&str>,
    missed: String,
    first: u32,
    last: u32,
    expanded: String,
    hit: Result<Option<SearchHit>, String>,
    column: Option<u32>,
    placed: String,
    results: &Result<Vec<SymbolHits>, String>,
    references: bool,
    batch: String,
)
    requires
        call_ensures(near_miss, (reply, symbol, what, root), missed),
        call_ensures(expand_chunk, (reply, symbol, first, last, root), expanded),
        call_ensures(symbol_at_position, (hit, symbol, first, column, root), placed),
        call_ensures(batch_lookup, (results, references, root), batch),
    ensures
        missed@ == miss_text(
            match reply {
                Ok(hits) => Some(hits@),
                Err(_) => None,
            },
            symbol@,
            what@,
            slice_text(root),
        ),
        match reply {
            Ok(hits) => expanded@ == if hits@.len() == 0 {
                "no indexed chunks overlap "@ + range_text(symbol@, first, last)
            } else {
                lookup_text(hits@, ""@, root)
            },
            Err(e) => expanded@ == "expand_chunk"@ + " failed: "@ + e@,
        },
        match hit {
            Ok(Some(found)) => placed@ == lookup_text(seq![found], ""@, root),
            Ok(None) => placed@ == "(no symbol at "@ + place_text(symbol@, first, column) + ")"@,
            Err(e) => placed@ == "symbol_at_position"@ + " failed: "@ + e@,
        },
        match results {
            Ok(list) => batch@ == rendered(list@, batch_block(references, slice_text(root))),
            Err(e) => batch@ == "batch_lookup"@ + " failed: "@ + e@,
        },
{
}

} // verus!
