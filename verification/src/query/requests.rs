//! What the tools ask the server: paths, parameters and bodies.

use vstd::prelude::*;
use vstd::string::*;

use crate::api::SearchRequestBody;
use crate::query::render::slice_text;
use crate::text::{
    ascii_lowercase, copy_text, copy_texts, decimal, decimal_text, lower_ascii, optional, same,
    texts, trim, trimmed,
};

verus! {

/// Whether a byte stands for itself in a URL.
pub open spec fn is_unreserved(b: u8) -> bool {
    ||| 65 <= b <= 90
    ||| 97 <= b <= 122
    ||| 48 <= b <= 57
    ||| b == 45
    ||| b == 95
    ||| b == 46
    ||| b == 126
}

/// The upper-case character that writes one hexadecimal digit.
pub open spec fn upper_hex_digit(d: nat) -> char {
    if d < 10 {
        ('0' as u32 + d) as char
    } else {
        ('A' as u32 + (d - 10)) as char
    }
}

/// A byte in a URL: itself, or a percent sign and two hexadecimal digits.
pub open spec fn encoded_byte(b: u8) -> Seq<char> {
    if is_unreserved(b) {
        seq![b as char]
    } else {
        seq!['%', upper_hex_digit(b as nat / 16), upper_hex_digit(b as nat % 16)]
    }
}

/// Bytes in a URL.
pub open spec fn percent_encoded(bytes: Seq<u8>) -> Seq<char>
    decreases bytes.len(),
{
    if bytes.len() == 0 {
        seq![]
    } else {
        percent_encoded(bytes.drop_last()) + encoded_byte(bytes.last())
    }
}

/// A text in a URL.
pub open spec fn url_text(s: Seq<char>) -> Seq<char> {
    percent_encoded(vstd::utf8::encode_utf8(s))
}

fn upper_hex_char(d: u8) -> (c: char)
    requires
        d < 16,
    ensures
        c == upper_hex_digit(d as nat),
{
    if d < 10 {
        (48u8 + d) as char
    } else {
        (55u8 + d) as char
    }
}

/// Percent-encodes a text.
pub fn urlencode(s: &str) -> (out: String)
    ensures
        out@ == url_text(s@),
{
    let bytes = s.as_bytes();
    let mut out = String::new();
    let mut i: usize = 0;
    assert(bytes@.take(0) =~= Seq::<u8>::empty());
    while i < bytes.len()
        invariant
            i <= bytes@.len(),
            out@ == percent_encoded(bytes@.take(i as int)),
        decreases bytes@.len() - i,
    {
        let b: u8 = bytes[i];
        let ghost before = out@;
        assert(bytes@.take(i + 1).drop_last() =~= bytes@.take(i as int));
        if (65 <= b && b <= 90) || (97 <= b && b <= 122) || (48 <= b && b <= 57) || b == 45 || b
            == 95 || b == 46 || b == 126 {
            out.push(b as char);
        } else {
            out.push('%');
            out.push(upper_hex_char(b / 16));
            out.push(upper_hex_char(b % 16));
        }
        assert(out@ =~= before + encoded_byte(b));
        i = i + 1;
    }
    assert(bytes@.take(i as int) =~= bytes@);
    out
}

/// Whether a character can stand in a URL as it is.
pub open spec fn is_url_char(c: char) -> bool {
    ||| 'A' <= c <= 'Z'
    ||| 'a' <= c <= 'z'
    ||| '0' <= c <= '9'
    ||| c == '-'
    ||| c == '_'
    ||| c == '.'
    ||| c == '~'
    ||| c == '%'
}

/// An encoded text holds nothing that ends a parameter or begins another one.
pub proof fn law_encoded_texts_stay_one_parameter(bytes: Seq<u8>, i: int)
    requires
        0 <= i < percent_encoded(bytes).len(),
    ensures
        is_url_char(percent_encoded(bytes)[i]),
    decreases bytes.len(),
{
    let before = percent_encoded(bytes.drop_last());
    if i < before.len() {
        law_encoded_texts_stay_one_parameter(bytes.drop_last(), i);
    } else {
        let b = bytes.last();
        assert(percent_encoded(bytes)[i] == encoded_byte(b)[i - before.len()]);
        if is_unreserved(b) {
            assert(encoded_byte(b)[0] == b as char);
        }
    }
}

/// The server's name of a ranking preference; a typo means no preference.
pub open spec fn preference(s: Seq<char>) -> Option<Seq<char>> {
    let name = lower_ascii(trimmed(s));
    if name == "code"@ {
        Some("Code"@)
    } else if name == "docs"@ || name == "doc"@ {
        Some("Docs"@)
    } else {
        None
    }
}

pub fn normalize_prefer(s: &str) -> (name: Option<&'static str>)
    ensures
        slice_text(name) == preference(s@),
{
    let lower = ascii_lowercase(trim(s));
    if same(lower.as_str(), "code") {
        Some("Code")
    } else if same(lower.as_str(), "docs") || same(lower.as_str(), "doc") {
        Some("Docs")
    } else {
        None
    }
}

/// Options that shape a search beyond the query.
pub struct SearchOpts {
    /// Ranking bias; unrecognised means unbiased.
    pub prefer: Option<String>,
    /// Restrict to these chunk kinds.
    pub kinds: Vec<String>,
    /// Ask for full enclosing-symbol bodies.
    pub expand: bool,
    /// The scope lens of the server, where one is named.
    pub scope: Option<String>,
    /// The codebases to search, where some are named.
    pub codebase_ids: Vec<String>,
}

/// The texts of an optional list.
pub open spec fn optional_texts(list: Option<Vec<String>>) -> Option<Seq<Seq<char>>> {
    match list {
        Some(l) => Some(texts(l@)),
        None => None,
    }
}

/// The texts of a list, or nothing for an empty one.
pub open spec fn unless_empty(list: Seq<Seq<char>>) -> Option<Seq<Seq<char>>> {
    if list.len() == 0 {
        None
    } else {
        Some(list)
    }
}

fn copy_unless_empty(list: &Vec<String>) -> (copy: Option<Vec<String>>)
    ensures
        optional_texts(copy) == unless_empty(texts(list@)),
{
    if list.len() == 0 {
        None
    } else {
        Some(copy_texts(list))
    }
}

/// The body of a search. The server applies the options; none of them set is a
/// plain search.
pub fn search_body(
    query: &str,
    top_k: u32,
    codebase_id: Option<&str>,
    domains: &Vec<String>,
    opts: &SearchOpts,
) -> (body: SearchRequestBody)
    ensures
        body.query@ == query@,
        body.top_k == top_k,
        optional(body.codebase_id) == slice_text(codebase_id),
        optional_texts(body.domains) == unless_empty(texts(domains@)),
        optional_texts(body.kinds) == unless_empty(texts(opts.kinds@)),
        optional(body.prefer) == match opts.prefer {
            Some(prefer) => preference(prefer@),
            None => None,
        },
        optional(body.granularity) == if opts.expand {
            Some("Symbol"@)
        } else {
            None
        },
{
    let codebase_id = match codebase_id {
        Some(id) => Some(copy_text(id)),
        None => None,
    };
    let prefer = match &opts.prefer {
        Some(prefer) => match normalize_prefer(prefer.as_str()) {
            Some(name) => Some(copy_text(name)),
            None => None,
        },
        None => None,
    };
    let granularity = if opts.expand {
        Some(copy_text("Symbol"))
    } else {
        None
    };
    SearchRequestBody {
        query: copy_text(query),
        top_k,
        codebase_id,
        domains: copy_unless_empty(domains),
        kinds: copy_unless_empty(&opts.kinds),
        prefer,
        granularity,
    }
}

/// A path below a codebase.
pub open spec fn codebase_path(codebase: Seq<char>, tail: Seq<char>) -> Seq<char> {
    "/v1/codebases/"@ + codebase + tail
}

pub fn below_codebase(codebase: &str, tail: &str) -> (url: String)
    ensures
        url@ == codebase_path(codebase@, tail@),
{
    let mut url = copy_text("/v1/codebases/");
    url.push_str(codebase);
    url.push_str(tail);
    url
}

/// A path below a codebase with one encoded parameter.
pub open spec fn lookup_path(codebase: Seq<char>, tail: Seq<char>, value: Seq<char>) -> Seq<char> {
    codebase_path(codebase, tail) + url_text(value)
}

fn lookup(codebase: &str, tail: &str, value: &str) -> (url: String)
    ensures
        url@ == lookup_path(codebase@, tail@, value@),
{
    let mut url = below_codebase(codebase, tail);
    url.push_str(urlencode(value).as_str());
    url
}

pub fn trace_url(codebase: &str, symbol: &str, depth: u32) -> (url: String)
    ensures
        url@ == lookup_path(codebase@, "/graph/trace?symbol="@, symbol@) + "&depth="@ + decimal(
            depth as nat,
        ),
{
    let mut url = lookup(codebase, "/graph/trace?symbol=", symbol);
    url.push_str("&depth=");
    url.push_str(decimal_text(depth as u64).as_str());
    url
}

pub fn definitions_url(codebase: &str, symbol: &str) -> (url: String)
    ensures
        url@ == lookup_path(codebase@, "/graph/definitions?symbol="@, symbol@),
{
    lookup(codebase, "/graph/definitions?symbol=", symbol)
}

pub fn references_url(codebase: &str, symbol: &str) -> (url: String)
    ensures
        url@ == lookup_path(codebase@, "/graph/references?symbol="@, symbol@),
{
    lookup(codebase, "/graph/references?symbol=", symbol)
}

pub fn who_calls_url(codebase: &str, symbol: &str) -> (url: String)
    ensures
        url@ == lookup_path(codebase@, "/graph/who-calls?symbol="@, symbol@),
{
    lookup(codebase, "/graph/who-calls?symbol=", symbol)
}

pub fn implementations_url(codebase: &str, symbol: &str) -> (url: String)
    ensures
        url@ == lookup_path(codebase@, "/graph/implementations?symbol="@, symbol@),
{
    lookup(codebase, "/graph/implementations?symbol=", symbol)
}

pub fn call_path_url(codebase: &str, from: &str, to: &str) -> (url: String)
    ensures
        url@ == lookup_path(codebase@, "/graph/call-path?from="@, from@) + "&to="@ + url_text(to@),
{
    let mut url = lookup(codebase, "/graph/call-path?from=", from);
    url.push_str("&to=");
    url.push_str(urlencode(to).as_str());
    url
}

pub fn reaches_url(codebase: &str, from: &str) -> (url: String)
    ensures
        url@ == lookup_path(codebase@, "/graph/flow/reaches?from="@, from@),
{
    lookup(codebase, "/graph/flow/reaches?from=", from)
}

pub fn flows_into_url(codebase: &str, to: &str) -> (url: String)
    ensures
        url@ == lookup_path(codebase@, "/graph/flow/into?to="@, to@),
{
    lookup(codebase, "/graph/flow/into?to=", to)
}

pub fn flows_between_url(codebase: &str, from: &str, to: &str) -> (url: String)
    ensures
        url@ == lookup_path(codebase@, "/graph/flow/between?from="@, from@) + "&to="@ + url_text(
            to@,
        ),
{
    let mut url = lookup(codebase, "/graph/flow/between?from=", from);
    url.push_str("&to=");
    url.push_str(urlencode(to).as_str());
    url
}

pub open spec fn flag(b: bool) -> Seq<char> {
    if b {
        "true"@
    } else {
        "false"@
    }
}

pub(crate) fn flag_text(b: bool) -> (text: &'static str)
    ensures
        text@ == flag(b),
{
    if b {
        "true"
    } else {
        "false"
    }
}

/// What is asked of a search in file content.
pub struct GrepRequest<'a> {
    pub pattern: &'a str,
    pub regex: bool,
    pub ignore_case: bool,
    pub path: Option<&'a str>,
    pub max: u32,
}

pub fn grep_url(codebase: &str, request: &GrepRequest) -> (url: String)
    ensures
        url@ == lookup_path(codebase@, "/grep?pattern="@, request.pattern@) + "&regex="@ + flag(
            request.regex,
        ) + "&ignoreCase="@ + flag(request.ignore_case) + "&max="@ + decimal(request.max as nat) + (
        match request.path {
            Some(path) if path@.len() > 0 => "&path="@ + url_text(path@),
            _ => ""@,
        }),
{
    let mut url = lookup(codebase, "/grep?pattern=", request.pattern);
    url.push_str("&regex=");
    url.push_str(flag_text(request.regex));
    url.push_str("&ignoreCase=");
    url.push_str(flag_text(request.ignore_case));
    url.push_str("&max=");
    url.push_str(decimal_text(request.max as u64).as_str());
    let narrowed = match request.path {
        Some(path) if !path.is_empty() => {
            let mut text = copy_text("&path=");
            text.push_str(urlencode(path).as_str());
            text
        },
        _ => copy_text(""),
    };
    url.push_str(narrowed.as_str());
    url
}

pub fn outline_url(codebase: &str, path: &str) -> (url: String)
    ensures
        url@ == lookup_path(codebase@, "/graph/outline?path="@, path@),
{
    lookup(codebase, "/graph/outline?path=", path)
}

pub fn expand_url(codebase: &str, path: &str, line_start: u32, line_end: u32) -> (url: String)
    ensures
        url@ == lookup_path(codebase@, "/graph/expand?path="@, path@) + "&lineStart="@ + decimal(
            line_start as nat,
        ) + "&lineEnd="@ + decimal(line_end as nat),
{
    let mut url = lookup(codebase, "/graph/expand?path=", path);
    url.push_str("&lineStart=");
    url.push_str(decimal_text(line_start as u64).as_str());
    url.push_str("&lineEnd=");
    url.push_str(decimal_text(line_end as u64).as_str());
    url
}

/// One page of the file catalog; pages are counted from zero.
pub fn files_url(codebase: &str, page: u32, page_size: u32) -> (url: String)
    ensures
        url@ == codebase_path(codebase@, "/files?page="@) + decimal(page as nat) + "&pageSize="@
            + decimal(page_size as nat),
{
    let mut url = below_codebase(codebase, "/files?page=");
    url.push_str(decimal_text(page as u64).as_str());
    url.push_str("&pageSize=");
    url.push_str(decimal_text(page_size as u64).as_str());
    url
}

/// One page of a list endpoint, which may have parameters of its own.
pub fn page_url(base: &str, page: u32, page_size: u32) -> (url: String)
    ensures
        url@ == base@ + (if base@.contains('?') {
            "&"@
        } else {
            "?"@
        }) + "page="@ + decimal(page as nat) + "&pageSize="@ + decimal(page_size as nat),
{
    let mut url = copy_text(base);
    if crate::text::contains_char(base, '?') {
        url.push_str("&");
    } else {
        url.push_str("?");
    }
    url.push_str("page=");
    url.push_str(decimal_text(page as u64).as_str());
    url.push_str("&pageSize=");
    url.push_str(decimal_text(page_size as u64).as_str());
    url
}

pub fn job_url(job_id: &str) -> (url: String)
    ensures
        url@ == "/v1/jobs/"@ + job_id@,
{
    let mut url = copy_text("/v1/jobs/");
    url.push_str(job_id);
    url
}

pub fn position_url(codebase: &str, path: &str, line: u32, column: Option<u32>) -> (url: String)
    ensures
        url@ == lookup_path(codebase@, "/graph/symbol-at-position?path="@, path@) + "&line="@
            + decimal(line as nat) + (match column {
            Some(at) => "&column="@ + decimal(at as nat),
            None => ""@,
        }),
{
    let mut url = lookup(codebase, "/graph/symbol-at-position?path=", path);
    url.push_str("&line=");
    url.push_str(decimal_text(line as u64).as_str());
    let at = match column {
        Some(at) => {
            let mut text = copy_text("&column=");
            text.push_str(decimal_text(at as u64).as_str());
            text
        },
        None => copy_text(""),
    };
    url.push_str(at.as_str());
    url
}

/// The endpoint that plans an edit.
pub fn edit_url(codebase: &str, operation: &str) -> (url: String)
    ensures
        url@ == codebase_path(codebase@, "/edits/"@ + operation@),
{
    let mut tail = copy_text("/edits/");
    tail.push_str(operation);
    below_codebase(codebase, tail.as_str())
}

/// The endpoint that plans a rename.
pub fn plan_rename(codebase: &str) -> (url: String)
    ensures
        url@ == codebase_path(codebase@, "/edits/"@ + "rename"@),
{
    edit_url(codebase, "rename")
}

/// The endpoint that plans the deletion of a symbol that nothing uses.
pub fn plan_safe_delete(codebase: &str) -> (url: String)
    ensures
        url@ == codebase_path(codebase@, "/edits/"@ + "safe-delete"@),
{
    edit_url(codebase, "safe-delete")
}

/// The endpoint that plans the replacement of a body.
pub fn plan_replace_body(codebase: &str) -> (url: String)
    ensures
        url@ == codebase_path(codebase@, "/edits/"@ + "replace-body"@),
{
    edit_url(codebase, "replace-body")
}

/// The endpoint that plans an insertion before or after a declaration.
pub fn plan_insert(codebase: &str, before: bool) -> (url: String)
    ensures
        url@ == codebase_path(
            codebase@,
            "/edits/"@ + if before {
                "insert-before"@
            } else {
                "insert-after"@
            },
        ),
{
    if before {
        edit_url(codebase, "insert-before")
    } else {
        edit_url(codebase, "insert-after")
    }
}

/// What a search for symbols is about.
pub struct SymbolSearchOptions<'a> {
    pub query: &'a str,
    pub mode: &'a str,
    pub kinds: &'a Vec<String>,
    pub path_prefix: Option<&'a str>,
    pub project: Option<&'a str>,
    pub language: Option<&'a str>,
    pub limit: u32,
}

/// A number moved into a range.
pub open spec fn within(n: u32, low: u32, high: u32) -> u32 {
    if n < low {
        low
    } else if n > high {
        high
    } else {
        n
    }
}

pub fn bounded(n: u32, low: u32, high: u32) -> (m: u32)
    requires
        low <= high,
    ensures
        m == within(n, low, high),
        low <= m <= high,
{
    if n < low {
        low
    } else if n > high {
        high
    } else {
        n
    }
}

/// One of the wanted kinds, as a parameter.
pub open spec fn kind_parameter() -> spec_fn(String) -> Seq<char> {
    |kind: String| "&kinds="@ + url_text(kind@)
}

/// A parameter that is left out where it has no value.
pub open spec fn optional_parameter(name: Seq<char>, value: Option<Seq<char>>) -> Seq<char> {
    match value {
        Some(text) if text.len() > 0 => "&"@ + name + "="@ + url_text(text),
        _ => ""@,
    }
}

fn parameter(name: &str, value: Option<&str>) -> (text: String)
    ensures
        text@ == optional_parameter(name@, slice_text(value)),
{
    match value {
        Some(given) if !given.is_empty() => {
            let mut text = copy_text("&");
            text.push_str(name);
            text.push_str("=");
            text.push_str(urlencode(given).as_str());
            text
        },
        _ => copy_text(""),
    }
}

pub fn symbols_url(codebase: &str, options: &SymbolSearchOptions) -> (url: String)
    ensures
        url@ == lookup_path(codebase@, "/graph/symbols?query="@, options.query@) + "&mode="@
            + url_text(options.mode@) + "&limit="@ + decimal(within(options.limit, 1, 500) as nat)
            + crate::text::rendered(options.kinds@, kind_parameter()) + optional_parameter(
            "pathPrefix"@,
            slice_text(options.path_prefix),
        ) + optional_parameter("project"@, slice_text(options.project)) + optional_parameter(
            "language"@,
            slice_text(options.language),
        ),
{
    let mut url = lookup(codebase, "/graph/symbols?query=", options.query);
    url.push_str("&mode=");
    url.push_str(urlencode(options.mode).as_str());
    url.push_str("&limit=");
    url.push_str(decimal_text(bounded(options.limit, 1, 500) as u64).as_str());
    let mut kinds = String::new();
    let mut i: usize = 0;
    proof {
        crate::text::lemma_rendered_none(options.kinds@, kind_parameter());
    }
    while i < options.kinds.len()
        invariant
            i <= options.kinds@.len(),
            kinds@ == crate::text::rendered(options.kinds@.take(i as int), kind_parameter()),
        decreases options.kinds@.len() - i,
    {
        let mut text = copy_text("&kinds=");
        text.push_str(urlencode(options.kinds[i].as_str()).as_str());
        kinds.push_str(text.as_str());
        proof {
            crate::text::lemma_rendered_next(options.kinds@, kind_parameter(), i as int);
        }
        i = i + 1;
    }
    assert(options.kinds@.take(i as int) =~= options.kinds@);
    url.push_str(kinds.as_str());
    url.push_str(parameter("pathPrefix", options.path_prefix).as_str());
    url.push_str(parameter("project", options.project).as_str());
    url.push_str(parameter("language", options.language).as_str());
    url
}

pub fn type_hierarchy_url(codebase: &str, symbol: &str, direction: &str, depth: u32) -> (url:
    String)
    ensures
        url@ == lookup_path(codebase@, "/graph/type-hierarchy?symbol="@, symbol@) + "&direction="@
            + url_text(direction@) + "&depth="@ + decimal(within(depth, 1, 16) as nat),
{
    let mut url = lookup(codebase, "/graph/type-hierarchy?symbol=", symbol);
    url.push_str("&direction=");
    url.push_str(urlencode(direction).as_str());
    url.push_str("&depth=");
    url.push_str(decimal_text(bounded(depth, 1, 16) as u64).as_str());
    url
}

pub fn call_graph_url(codebase: &str, symbol: &str, depth: u32, direction: &str) -> (url: String)
    ensures
        url@ == lookup_path(codebase@, "/graph/call-graph?symbol="@, symbol@) + "&depth="@ + decimal(
            within(depth, 1, 10) as nat,
        ) + "&direction="@ + url_text(direction@),
{
    let mut url = lookup(codebase, "/graph/call-graph?symbol=", symbol);
    url.push_str("&depth=");
    url.push_str(decimal_text(bounded(depth, 1, 10) as u64).as_str());
    url.push_str("&direction=");
    url.push_str(urlencode(direction).as_str());
    url
}

pub fn unused_url(codebase: &str, page: u32, page_size: u32) -> (url: String)
    ensures
        url@ == codebase_path(codebase@, "/graph/unused?page="@) + decimal(page as nat)
            + "&pageSize="@ + decimal(within(page_size, 1, 500) as nat),
{
    let mut url = below_codebase(codebase, "/graph/unused?page=");
    url.push_str(decimal_text(page as u64).as_str());
    url.push_str("&pageSize=");
    url.push_str(decimal_text(bounded(page_size, 1, 500) as u64).as_str());
    url
}

/// What is read of a file's content: a window in bytes, in lines, or all of it.
pub fn content_url(
    codebase: &str,
    path: &str,
    revision: Option<&str>,
    byte_range: Option<(u64, u64)>,
    line_range: Option<(u32, u32)>,
) -> (url: String)
    ensures
        url@ == lookup_path(codebase@, "/files/content?path="@, path@) + (match revision {
            Some(hash) => "&revision="@ + url_text(hash@),
            None => ""@,
        }) + (match byte_range {
            Some((start, end)) => "&byteStart="@ + decimal(start as nat) + "&byteEnd="@ + decimal(
                end as nat,
            ),
            None => ""@,
        }) + (match line_range {
            Some((start, end)) => "&lineStart="@ + decimal(start as nat) + "&lineEnd="@ + decimal(
                end as nat,
            ),
            None => ""@,
        }),
{
    let mut url = lookup(codebase, "/files/content?path=", path);
    let pinned = match revision {
        Some(hash) => {
            let mut text = copy_text("&revision=");
            text.push_str(urlencode(hash).as_str());
            text
        },
        None => copy_text(""),
    };
    url.push_str(pinned.as_str());
    let bytes = match byte_range {
        Some((start, end)) => {
            let mut text = copy_text("&byteStart=");
            text.push_str(decimal_text(start).as_str());
            text.push_str("&byteEnd=");
            text.push_str(decimal_text(end).as_str());
            text
        },
        None => copy_text(""),
    };
    url.push_str(bytes.as_str());
    let lines = match line_range {
        Some((start, end)) => {
            let mut text = copy_text("&lineStart=");
            text.push_str(decimal_text(start as u64).as_str());
            text.push_str("&lineEnd=");
            text.push_str(decimal_text(end as u64).as_str());
            text
        },
        None => copy_text(""),
    };
    url.push_str(lines.as_str());
    url
}

/// How many codebases one page lists.
pub const CODEBASE_PAGE_SIZE: u32 = 500;

/// The codebases that hold a copy of a local source.
pub fn source_url(source_id: &str) -> (url: String)
    ensures
        url@ == "/v1/codebases?sourceId="@ + url_text(source_id@) + "&page=0&pageSize="@ + decimal(
            CODEBASE_PAGE_SIZE as nat,
        ),
{
    let mut url = copy_text("/v1/codebases?sourceId=");
    url.push_str(urlencode(source_id).as_str());
    url.push_str("&page=0&pageSize=");
    url.push_str(decimal_text(CODEBASE_PAGE_SIZE as u64).as_str());
    url
}

/// A page of the visible codebases.
pub fn codebases_url(page: u32) -> (url: String)
    ensures
        url@ == "/v1/codebases?page="@ + decimal(page as nat) + "&pageSize="@ + decimal(
            CODEBASE_PAGE_SIZE as nat,
        ),
{
    let mut url = copy_text("/v1/codebases?page=");
    url.push_str(decimal_text(page as u64).as_str());
    url.push_str("&pageSize=");
    url.push_str(decimal_text(CODEBASE_PAGE_SIZE as u64).as_str());
    url
}

/// A text in a URL can be told from every other one: what stands for itself is
/// written as it is, and every other byte as a percent sign with its two digits, so
/// that one more byte adds exactly that.
pub proof fn law_a_text_is_encoded_byte_by_byte(bytes: Seq<u8>, b: u8)
    ensures
        percent_encoded(seq![]) == Seq::<char>::empty(),
        ({
            let plain = 65 <= b <= 90 || 97 <= b <= 122 || 48 <= b <= 57 || b == 45 || b == 95 || b
                == 46 || b == 126;
            let all = percent_encoded(bytes.push(b));
            let before = percent_encoded(bytes);
            &&& before.is_prefix_of(all)
            &&& plain ==> all.len() == before.len() + 1 && all.last() as u32 == b as u32
            &&& !plain ==> {
                let n = all.len() as int;
                &&& n == before.len() + 3
                &&& all[n - 3] == '%'
                &&& crate::digest::hex_value(all[n - 2]) == b as int / 16
                &&& crate::digest::hex_value(all[n - 1]) == b as int % 16
            }
        }),
{
    let all = percent_encoded(bytes.push(b));
    assert(bytes.push(b).drop_last() =~= bytes);
    let before = percent_encoded(bytes);
    assert(all =~= before + encoded_byte(b));
    assert(all.subrange(0, before.len() as int) =~= before);
    let (h, l) = (b as nat / 16, b as nat % 16);
    assert(h < 16 && l < 16);
}

/// A ranking preference is known by its name in any case and with white space around
/// it; anything else is no preference.
pub proof fn law_preferences_are_known_by_name(s: Seq<char>)
    ensures
        ({
            let name = lower_ascii(trimmed(s));
            &&& preference(s) == Some("Code"@) <==> name == "code"@
            &&& preference(s) == Some("Docs"@) <==> name == "docs"@ || name == "doc"@
            &&& preference(s) is None <==> name != "code"@ && name != "docs"@ && name != "doc"@
        }),
{
    reveal_strlit("code");
    reveal_strlit("docs");
    reveal_strlit("doc");
    reveal_strlit("Code");
    reveal_strlit("Docs");
    assert("code"@[0] == 'c' && "docs"@[0] == 'd' && "doc"@[0] == 'd');
    assert("Code"@[0] == 'C' && "Docs"@[0] == 'D');
}

/// A path of a request lies below its codebase and ends with the encoded value.
pub proof fn law_requests_stay_below_their_codebase(
    codebase: Seq<char>,
    tail: Seq<char>,
    value: Seq<char>,
)
    ensures
        codebase_path(codebase, tail) == "/v1/codebases/"@ + codebase + tail,
        lookup_path(codebase, tail, value) == "/v1/codebases/"@ + codebase + tail + percent_encoded(
            vstd::utf8::encode_utf8(value),
        ),
        flag(true) == "true"@,
        flag(false) == "false"@,
        unless_empty(seq![]) is None,
        value.len() == 0 ==> optional_parameter(tail, Some(value)).len() == 0,
        optional_parameter(tail, None).len() == 0,
        value.len() > 0 ==> optional_parameter(tail, Some(value)) == "&"@ + tail + "="@
            + percent_encoded(vstd::utf8::encode_utf8(value)),
{
    reveal_strlit("");
}

/// A number that is moved into a range stays as close to itself as the range allows,
/// and a list that is not empty is sent as it is.
pub proof fn law_numbers_are_moved_into_range(n: u32, low: u32, high: u32, list: Seq<Seq<char>>)
    requires
        low <= high,
    ensures
        low <= within(n, low, high) <= high,
        low <= n <= high ==> within(n, low, high) == n,
        n < low ==> within(n, low, high) == low,
        n > high ==> within(n, low, high) == high,
        list.len() > 0 ==> unless_empty(list) == Some(list),
{
}

/// Every wanted kind is asked for, each as a parameter of its own.
pub proof fn law_every_kind_is_asked_for(items: Seq<String>)
    ensures
        crate::text::rendered(items, kind_parameter()) == Seq::new(
            items.len(),
            |i: int| "&kinds="@ + percent_encoded(vstd::utf8::encode_utf8(items[i]@)),
        ).flatten(),
{
    crate::text::lemma_rendered_is_a_row(items, kind_parameter());
    assert(Seq::new(items.len(), |i: int| kind_parameter()(items[i])) =~= Seq::new(
        items.len(),
        |i: int| "&kinds="@ + percent_encoded(vstd::utf8::encode_utf8(items[i]@)),
    ));
}

/// Where a lookup of a symbol is sent: below its codebase, to the endpoint of the
/// lookup, with the encoded symbol.
pub proof fn law_where_lookups_are_sent(
    codebase: &str,
    symbol: &str,
    depth: u32,
    definitions: String,
    references: String,
    callers: String,
    implementations: String,
    traced: String,
)
    requires
        call_ensures(definitions_url, (codebase, symbol), definitions),
        call_ensures(references_url, (codebase, symbol), references),
        call_ensures(who_calls_url, (codebase, symbol), callers),
        call_ensures(implementations_url, (codebase, symbol), implementations),
        call_ensures(trace_url, (codebase, symbol, depth), traced),
    ensures
        ({
            let base = "/v1/codebases/"@ + codebase@;
            let name = percent_encoded(vstd::utf8::encode_utf8(symbol@));
            &&& definitions@ == base + "/graph/definitions?symbol="@ + name
            &&& references@ == base + "/graph/references?symbol="@ + name
            &&& callers@ == base + "/graph/who-calls?symbol="@ + name
            &&& implementations@ == base + "/graph/implementations?symbol="@ + name
            &&& traced@ == base + "/graph/trace?symbol="@ + name + "&depth="@ + decimal(
                depth as nat,
            )
        }),
{
}

/// Where a path between two places is asked for: with both, from the first to the
/// second.
pub proof fn law_where_paths_are_asked_for(
    codebase: &str,
    from: &str,
    to: &str,
    path: String,
    flow: String,
    reached: String,
    flowing: String,
)
    requires
        call_ensures(call_path_url, (codebase, from, to), path),
        call_ensures(flows_between_url, (codebase, from, to), flow),
        call_ensures(reaches_url, (codebase, from), reached),
        call_ensures(flows_into_url, (codebase, to), flowing),
    ensures
        ({
            let base = "/v1/codebases/"@ + codebase@;
            let one = percent_encoded(vstd::utf8::encode_utf8(from@));
            let other = percent_encoded(vstd::utf8::encode_utf8(to@));
            &&& path@ == base + "/graph/call-path?from="@ + one + "&to="@ + other
            &&& flow@ == base + "/graph/flow/between?from="@ + one + "&to="@ + other
            &&& reached@ == base + "/graph/flow/reaches?from="@ + one
            &&& flowing@ == base + "/graph/flow/into?to="@ + other
        }),
{
}

/// Where pages and files are asked for, and where edits are planned.
pub proof fn law_where_pages_are_asked_for(
    codebase: &str,
    page: u32,
    rows: u32,
    job: &str,
    files: String,
    unused_page: String,
    status: String,
    rename: String,
    delete: String,
    replace: String,
    before: String,
    after: String,
)
    requires
        call_ensures(files_url, (codebase, page, rows), files),
        call_ensures(unused_url, (codebase, page, rows), unused_page),
        call_ensures(job_url, (job,), status),
        call_ensures(plan_rename, (codebase,), rename),
        call_ensures(plan_safe_delete, (codebase,), delete),
        call_ensures(plan_replace_body, (codebase,), replace),
        call_ensures(plan_insert, (codebase, true), before),
        call_ensures(plan_insert, (codebase, false), after),
    ensures
        ({
            let base = "/v1/codebases/"@ + codebase@;
            let some = if rows < 1 {
                1
            } else if rows > 500 {
                500
            } else {
                rows
            };
            &&& files@ == base + "/files?page="@ + decimal(page as nat) + "&pageSize="@ + decimal(
                rows as nat,
            )
            &&& unused_page@ == base + "/graph/unused?page="@ + decimal(page as nat)
                + "&pageSize="@ + decimal(some as nat)
            &&& status@ == "/v1/jobs/"@ + job@
            &&& rename@ == base + ("/edits/"@ + "rename"@)
            &&& delete@ == base + ("/edits/"@ + "safe-delete"@)
            &&& replace@ == base + ("/edits/"@ + "replace-body"@)
            &&& before@ == base + ("/edits/"@ + "insert-before"@)
            &&& after@ == base + ("/edits/"@ + "insert-after"@)
        }),
{
}

/// What a search asks for is what was wanted: its query and number, its codebase, the
/// domains and kinds where there are any, the known preference, and whole symbols
/// where hits are to be expanded.
pub proof fn law_a_search_asks_for_what_was_wanted(
    query: &str,
    top_k: u32,
    codebase_id: Option<&str>,
    domains: &Vec<String>,
    opts: &SearchOpts,
    body: SearchRequestBody,
)
    requires
        call_ensures(search_body, (query, top_k, codebase_id, domains, opts), body),
    ensures
        body.query@ == query@ && body.top_k == top_k,
        optional(body.codebase_id) == slice_text(codebase_id),
        domains@.len() == 0 ==> body.domains is None,
        domains@.len() > 0 ==> (body.domains matches Some(list) && texts(list@) == texts(
            domains@,
        )),
        opts.kinds@.len() == 0 ==> body.kinds is None,
        opts.kinds@.len() > 0 ==> (body.kinds matches Some(list) && texts(list@) == texts(
            opts.kinds@,
        )),
        opts.prefer is None ==> body.prefer is None,
        opts.prefer matches Some(prefer) ==> optional(body.prefer) == preference(prefer@),
        opts.expand ==> (body.granularity matches Some(unit) && unit@ == "Symbol"@),
        !opts.expand ==> body.granularity is None,
{
}

/// What is asked of a file's content and of grep: each with its path and with the limits
/// that are given.
pub proof fn law_where_contents_are_asked_for(
    codebase: &str,
    path: &str,
    revision: Option<&str>,
    bytes: Option<(u64, u64)>,
    lines: Option<(u32, u32)>,
    content: String,
    request: &GrepRequest,
    grepped: String,
)
    requires
        call_ensures(content_url, (codebase, path, revision, bytes, lines), content),
        call_ensures(grep_url, (codebase, request), grepped),
    ensures
        ({
            let base = "/v1/codebases/"@ + codebase@;
            let text = |s: Seq<char>| percent_encoded(vstd::utf8::encode_utf8(s));
            &&& content@ == base + "/files/content?path="@ + text(path@) + (match revision {
                Some(hash) => "&revision="@ + text(hash@),
                None => ""@,
            }) + (match bytes {
                Some((start, end)) => "&byteStart="@ + decimal(start as nat) + "&byteEnd="@
                    + decimal(end as nat),
                None => ""@,
            }) + (match lines {
                Some((start, end)) => "&lineStart="@ + decimal(start as nat) + "&lineEnd="@
                    + decimal(end as nat),
                None => ""@,
            })
            &&& grepped@ == base + "/grep?pattern="@ + text(request.pattern@) + "&regex="@ + (
            if request.regex { "true"@ } else { "false"@ }) + "&ignoreCase="@ + (
            if request.ignore_case { "true"@ } else { "false"@ }) + "&max="@ + decimal(
                request.max as nat,
            ) + (if request.path is Some && request.path->0@.len() > 0 {
                "&path="@ + text(request.path->0@)
            } else {
                ""@
            })
        }),
{
}

} // verus!
