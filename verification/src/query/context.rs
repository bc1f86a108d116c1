//! Codebases, the context that a session works in, and source text.

use vstd::prelude::*;

use crate::api::{CodebaseSummary, CodebaseVersionSummary, EnumValue, FileContent, Page};
use crate::digest::{content_hash, hash_text};
use crate::paths::{is_under, PathName};
use crate::query::lookups::{failed, failed_text};
use crate::query::render::{local_path, shown_path, slice_text};
use crate::query::requests::{flag, flag_text};
use crate::text::{
    copy_text, decimal, decimal_text, decoded, lemma_rendered_is_a_row, lemma_rendered_next,
    lemma_rendered_none, lists,
    optional, optional_or, rendered, same, signed_decimal, signed_text, text_of_bytes, text_or,
    texts,
};

verus! {

/// How many pages of codebases are read at most.
pub const MAX_CODEBASE_PAGES: u32 = 100;

/// The ids of codebases.
pub open spec fn ids(codebases: Seq<CodebaseSummary>) -> Seq<Seq<char>> {
    codebases.map_values(|c: CodebaseSummary| c.id@)
}

/// The codebases that hold a copy of a source; none where the server cannot
/// answer.
pub fn codebases_for_source(reply: &Result<Page<CodebaseSummary>, String>) -> (list: Vec<String>)
    ensures
        texts(list@) == match reply {
            Ok(page) => ids(page.items@),
            Err(_) => seq![],
        },
{
    let mut list: Vec<String> = Vec::new();
    match reply {
        Ok(page) => {
            let mut i: usize = 0;
            while i < page.items.len()
                invariant
                    i <= page.items@.len(),
                    list@.len() == i,
                    forall|k: int| 0 <= k < i ==> (#[trigger] list@[k])@ == page.items@[k].id@,
                decreases page.items@.len() - i,
            {
                list.push(copy_text(page.items[i].id.as_str()));
                i = i + 1;
            }
            assert(texts(list@) =~= ids(page.items@));
        },
        Err(_) => {
            assert(texts(list@) =~= seq![]);
        },
    }
    list
}

/// Whether one of a codebase's copies is that of a source.
pub open spec fn holds_copy(copies: Seq<CodebaseVersionSummary>, source_id: Seq<char>) -> bool {
    exists|i: int| 0 <= i < copies.len() && (#[trigger] copies[i]).source_id@ == source_id
}

/// How a codebase's copies relate to a checkout.
pub open spec fn copies_text(
    reply: Result<Vec<CodebaseVersionSummary>, String>,
    source_id: Seq<char>,
) -> Seq<char> {
    match reply {
        Err(_) => "unknown"@,
        Ok(copies) => if holds_copy(copies@, source_id) {
            if copies@.len() == 1 {
                "this checkout"@
            } else {
                "this checkout, of "@ + decimal(copies@.len())
            }
        } else if copies@.len() == 0 {
            "none"@
        } else {
            decimal(copies@.len()) + " other copy/copies"@
        },
    }
}

pub fn describe_copies(reply: &Result<Vec<CodebaseVersionSummary>, String>, source_id: &str) -> (text:
    String)
    ensures
        text@ == copies_text(*reply, source_id@),
{
    let copies = match reply {
        Ok(copies) => copies,
        Err(_) => return copy_text("unknown"),
    };
    let mut mine = false;
    let mut i: usize = 0;
    while i < copies.len()
        invariant
            i <= copies@.len(),
            mine <==> exists|k: int|
                0 <= k < i && (#[trigger] copies@[k]).source_id@ == source_id@,
        decreases copies@.len() - i,
    {
        if same(copies[i].source_id.as_str(), source_id) {
            mine = true;
        }
        i = i + 1;
    }
    let count: usize = copies.len();
    if mine {
        if count == 1 {
            copy_text("this checkout")
        } else {
            let mut text = copy_text("this checkout, of ");
            text.push_str(decimal_text(count as u64).as_str());
            text
        }
    } else if count == 0 {
        copy_text("none")
    } else {
        let mut text = decimal_text(count as u64);
        text.push_str(" other copy/copies");
        text
    }
}

/// A value that is sent as a name or as a number, by its name where it has one.
pub open spec fn label_text(value: EnumValue, numeric: Seq<&str>) -> Seq<char> {
    match value {
        EnumValue::Name(name) => name@,
        EnumValue::Number(n) => if n < numeric.len() {
            numeric[n as int]@
        } else {
            decimal(n as nat)
        },
        EnumValue::Other(json) => json@,
    }
}

pub fn enum_label(value: &EnumValue, numeric: &[&str]) -> (text: String)
    ensures
        text@ == label_text(*value, numeric@),
{
    match value {
        EnumValue::Name(name) => copy_text(name.as_str()),
        EnumValue::Number(n) => if *n < numeric.len() as u64 {
            copy_text(numeric[*n as usize])
        } else {
            decimal_text(*n)
        },
        EnumValue::Other(json) => copy_text(json.as_str()),
    }
}

/// The names of where a codebase's source comes from.
pub open spec fn source_kinds() -> Seq<&'static str> {
    seq!["Local", "Vcs"]
}

/// The names of who sees a codebase.
pub open spec fn visibilities() -> Seq<&'static str> {
    seq!["Personal", "Organization", "Global"]
}

/// A codebase as it is listed.
pub open spec fn codebase_block(mine: Seq<Seq<char>>) -> spec_fn(CodebaseSummary) -> Seq<char> {
    |c: CodebaseSummary|
        c.id@ + "  "@ + c.slug@ + "  "@ + (if c.display_name@.len() == 0 {
            "-"@
        } else {
            c.display_name@
        }) + "\n  source="@ + label_text(c.source_kind, source_kinds()) + " access="@ + label_text(
            c.visibility,
            visibilities(),
        ) + " revision="@ + text_or(optional(c.revision), "-"@) + " graph="@ + signed_decimal(
            c.graph_generation as int,
        ) + "/"@ + signed_decimal(c.graph_materialized_generation as int) + " fresh="@ + flag(
            c.graph_fresh,
        ) + " this_checkout="@ + flag(mine.contains(c.id@)) + "\n"@
}

/// The visible codebases; `mine` holds the ids of those with a copy of this
/// checkout.
pub fn list_codebases(reply: &Result<Vec<CodebaseSummary>, String>, mine: &Vec<String>) -> (text:
    String)
    ensures
        text@ == match reply {
            Ok(codebases) => if codebases@.len() == 0 {
                "no visible codebases"@
            } else {
                rendered(codebases@, codebase_block(texts(mine@)))
            },
            Err(e) => failed_text("list_codebases"@, e@),
        },
{
    let codebases = match reply {
        Ok(codebases) => codebases,
        Err(e) => return failed("list_codebases", e.as_str()),
    };
    if codebases.len() == 0 {
        return copy_text("no visible codebases");
    }
    let kinds: [&'static str; 2] = ["Local", "Vcs"];
    let access: [&'static str; 3] = ["Personal", "Organization", "Global"];
    assert(kinds@ =~= source_kinds());
    assert(access@ =~= visibilities());
    let ghost block = codebase_block(texts(mine@));
    let mut out = String::new();
    let mut i: usize = 0;
    proof {
        lemma_rendered_none(codebases@, block);
    }
    while i < codebases.len()
        invariant
            i <= codebases@.len(),
            kinds@ == source_kinds(),
            access@ == visibilities(),
            block == codebase_block(texts(mine@)),
            out@ == rendered(codebases@.take(i as int), block),
        decreases codebases@.len() - i,
    {
        let c = &codebases[i];
        let mut text = copy_text(c.id.as_str());
        text.push_str("  ");
        text.push_str(c.slug.as_str());
        text.push_str("  ");
        if c.display_name.as_str().is_empty() {
            text.push_str("-");
        } else {
            text.push_str(c.display_name.as_str());
        }
        text.push_str("\n  source=");
        text.push_str(enum_label(&c.source_kind, &kinds).as_str());
        text.push_str(" access=");
        text.push_str(enum_label(&c.visibility, &access).as_str());
        text.push_str(" revision=");
        text.push_str(optional_or(&c.revision, "-"));
        text.push_str(" graph=");
        text.push_str(signed_text(c.graph_generation).as_str());
        text.push_str("/");
        text.push_str(signed_text(c.graph_materialized_generation).as_str());
        text.push_str(" fresh=");
        text.push_str(flag_text(c.graph_fresh));
        text.push_str(" this_checkout=");
        text.push_str(flag_text(lists(mine, c.id.as_str())));
        text.push_str("\n");
        out.push_str(text.as_str());
        proof {
            lemma_rendered_next(codebases@, block, i as int);
        }
        i = i + 1;
    }
    assert(codebases@.take(i as int) =~= codebases@);
    out
}

/// What comes after a page of codebases was read.
pub enum CodebaseWalk {
    /// The next page is needed.
    More(Codebases),
    /// The codebases.
    Done(Vec<CodebaseSummary>),
}

/// A bounded walk over the visible codebases.
pub struct Codebases {
    all: Vec<CodebaseSummary>,
    page: u32,
}

/// Whether the page that was read is the last one: it holds nothing, or it and
/// the pages before it hold every row.
pub open spec fn is_last_codebase_page(number: u32, size: u32, total: u32) -> bool {
    size == 0 || (number + 1) * size >= total
}

impl Codebases {
    pub closed spec fn wf(self) -> bool {
        self.page < MAX_CODEBASE_PAGES
    }

    pub closed spec fn collected(self) -> Seq<CodebaseSummary> {
        self.all@
    }

    pub closed spec fn next_page(self) -> u32 {
        self.page
    }

    pub fn new() -> (walk: Codebases)
        ensures
            walk.wf(),
            walk.collected() == Seq::<CodebaseSummary>::empty(),
            walk.next_page() == 0,
    {
        Codebases { all: Vec::new(), page: 0 }
    }

    /// The page that is needed next.
    pub fn page(&self) -> (page: u32)
        ensures
            page == self.next_page(),
    {
        self.page
    }

    /// Reads the page that was needed.
    pub fn take(self, page: Page<CodebaseSummary>) -> (walk: CodebaseWalk)
        requires
            self.wf(),
        ensures
            match walk {
                CodebaseWalk::More(next) => {
                    &&& next.wf()
                    &&& next.collected() == self.collected() + page.items@
                    &&& next.next_page() == self.next_page() + 1
                    &&& !is_last_codebase_page(page.number, page.size, page.total)
                },
                CodebaseWalk::Done(all) => {
                    &&& all@ == self.collected() + page.items@
                    &&& is_last_codebase_page(page.number, page.size, page.total)
                        || self.next_page() + 1 == MAX_CODEBASE_PAGES
                },
            },
    {
        let Codebases { mut all, page: at } = self;
        let Page { mut items, total, number, size } = page;
        all.append(&mut items);
        assert(0 <= (number + 1) * size <= u128::MAX) by (nonlinear_arith)
            requires
                0 <= number <= u32::MAX,
                0 <= size <= u32::MAX,
        ;
        let consumed: u128 = (number as u128 + 1) * (size as u128);
        if size == 0 || consumed >= total as u128 || at + 1 == MAX_CODEBASE_PAGES {
            CodebaseWalk::Done(all)
        } else {
            CodebaseWalk::More(Codebases { all, page: at + 1 })
        }
    }
}

/// What is known of the context that a session works in.
pub struct ContextReport {
    pub server: String,
    pub tenant: Option<String>,
    pub codebase: Option<String>,
    pub root: Option<String>,
    /// The identity of the local source.
    pub source: Option<String>,
    pub watcher_active: bool,
    /// The bound codebase, where there is one.
    pub summary: Result<CodebaseSummary, String>,
    /// The copies of the bound codebase.
    pub copies: Result<Vec<CodebaseVersionSummary>, String>,
    pub last_job_id: Option<String>,
}

/// The state of the bound codebase.
pub open spec fn binding_text(report: ContextReport) -> Seq<char> {
    match report.summary {
        Ok(summary) => "\nindexed revision "@ + text_or(optional(summary.revision), "-"@)
            + "\ngraph generation "@ + signed_decimal(summary.graph_generation as int) + "/"@
            + signed_decimal(summary.graph_materialized_generation as int) + "\ngraph fresh "@ + flag(
            summary.graph_fresh,
        ) + "\nserver checkout binding "@ + copies_text(
            report.copies,
            text_or(optional(report.source), "(none)"@),
        ),
        Err(e) => "\ngraph/index state unavailable: "@ + e@,
    }
}

/// The context that a session works in.
pub open spec fn context_text(report: ContextReport) -> Seq<char> {
    "server "@ + report.server@ + "\ntenant "@ + text_or(optional(report.tenant), "(unset)"@)
        + "\ncodebase "@ + text_or(optional(report.codebase), "(unbound)"@) + "\ncheckout root "@
        + text_or(optional(report.root), "(none)"@) + "\nsource identity "@ + text_or(
        optional(report.source),
        "(none)"@,
    ) + "\nwatcher "@ + (if report.watcher_active {
        "active"@
    } else {
        "inactive"@
    }) + (if text_or(optional(report.codebase), "(unbound)"@) != "(unbound)"@ {
        binding_text(report)
    } else {
        ""@
    }) + (match report.last_job_id {
        Some(job) => "\nlast session sync job "@ + job@,
        None => ""@,
    })
}

fn render_binding(report: &ContextReport) -> (text: String)
    ensures
        text@ == binding_text(*report),
{
    match &report.summary {
        Ok(summary) => {
            let mut text = copy_text("\nindexed revision ");
            text.push_str(optional_or(&summary.revision, "-"));
            text.push_str("\ngraph generation ");
            text.push_str(signed_text(summary.graph_generation).as_str());
            text.push_str("/");
            text.push_str(signed_text(summary.graph_materialized_generation).as_str());
            text.push_str("\ngraph fresh ");
            text.push_str(flag_text(summary.graph_fresh));
            text.push_str("\nserver checkout binding ");
            text.push_str(
                describe_copies(&report.copies, optional_or(&report.source, "(none)")).as_str(),
            );
            text
        },
        Err(e) => {
            let mut text = copy_text("\ngraph/index state unavailable: ");
            text.push_str(e.as_str());
            text
        },
    }
}

pub fn current_context(report: &ContextReport) -> (text: String)
    ensures
        text@ == context_text(*report),
{
    let mut text = copy_text("server ");
    text.push_str(report.server.as_str());
    text.push_str("\ntenant ");
    text.push_str(optional_or(&report.tenant, "(unset)"));
    text.push_str("\ncodebase ");
    text.push_str(optional_or(&report.codebase, "(unbound)"));
    text.push_str("\ncheckout root ");
    text.push_str(optional_or(&report.root, "(none)"));
    text.push_str("\nsource identity ");
    text.push_str(optional_or(&report.source, "(none)"));
    text.push_str("\nwatcher ");
    if report.watcher_active {
        text.push_str("active");
    } else {
        text.push_str("inactive");
    }
    let binding = if !same(optional_or(&report.codebase, "(unbound)"), "(unbound)") {
        render_binding(report)
    } else {
        copy_text("")
    };
    text.push_str(binding.as_str());
    let job = match &report.last_job_id {
        Some(job) => {
            let mut text = copy_text("\nlast session sync job ");
            text.push_str(job.as_str());
            text
        },
        None => copy_text(""),
    };
    text.push_str(job.as_str());
    text
}

/// Bytes as text in base64, with padding.
pub uninterp spec fn base64_text(bytes: Seq<u8>) -> Seq<char>;

/// `encode` of `base64`'s standard engine: the text that writes the bytes in
/// the standard alphabet with padding. It depends on the bytes alone.
#[verifier::external_body]
fn encode_base64(bytes: &[u8]) -> (text: String)
    ensures
        text@ == base64_text(bytes@),
{
    base64::Engine::encode(&base64::engine::general_purpose::STANDARD, bytes)
}

/// The window of a local file that stands for what the server sent: the file is
/// below the root, its bytes have the hash that the server reports, and they
/// hold the window.
pub open spec fn local_window(
    root: Seq<Seq<u8>>,
    target: Seq<Seq<u8>>,
    bytes: Seq<u8>,
    content: FileContent,
) -> Option<Seq<char>> {
    if is_under(target, root) && content_hash(bytes) == content.content_hash@ && content.byte_start
        <= content.byte_end <= bytes.len() {
        let window = bytes.subrange(content.byte_start as int, content.byte_end as int);
        if content.is_binary {
            Some(base64_text(window))
        } else {
            decoded(window)
        }
    } else {
        None
    }
}

/// The window of a local file, where the file is what the index holds. `root`
/// and `target` are resolved paths, and `bytes` is the target's content.
pub fn verified_local_window(
    root: &PathName,
    target: &PathName,
    bytes: &[u8],
    content: &FileContent,
) -> (text: Option<String>)
    ensures
        optional(text) == local_window(root@, target@, bytes@, *content),
{
    if !target.under(root) {
        return None;
    }
    if !same(hash_text(bytes).as_str(), content.content_hash.as_str()) {
        return None;
    }
    if content.byte_start > content.byte_end || content.byte_end > bytes.len() as u64 {
        return None;
    }
    let window = vstd::slice::slice_subrange(
        bytes,
        content.byte_start as usize,
        content.byte_end as usize,
    );
    if content.is_binary {
        Some(encode_base64(window))
    } else {
        text_of_bytes(window)
    }
}

/// Source text with where it came from.
pub open spec fn source_text(
    content: FileContent,
    local: Option<Seq<char>>,
    root: Option<Seq<char>>,
) -> Seq<char> {
    shown_path(root, content.path@) + "\nrevision "@ + content.content_hash@ + "\nbytes "@ + decimal(
        content.byte_start as nat,
    ) + "-"@ + decimal(content.byte_end as nat) + " of "@ + decimal(content.size as nat)
        + "\nencoding "@ + content.encoding@ + "\nsource "@ + (if local is Some {
        "verified-local"@
    } else {
        "content-plane"@
    }) + (if content.truncated {
        " (truncated)"@
    } else {
        ""@
    }) + "\n\n"@ + text_or(local, content.content@)
}

/// Source text: the local file's where it was verified, and the server's
/// otherwise.
pub fn read_source(
    reply: &Result<FileContent, String>,
    local: &Option<String>,
    root: Option<&str>,
) -> (text: String)
    ensures
        text@ == match reply {
            Ok(content) => source_text(*content, optional(*local), slice_text(root)),
            Err(e) => failed_text("read_source"@, e@),
        },
{
    let content = match reply {
        Ok(content) => content,
        Err(e) => return failed("read_source", e.as_str()),
    };
    let mut text = local_path(root, content.path.as_str());
    text.push_str("\nrevision ");
    text.push_str(content.content_hash.as_str());
    text.push_str("\nbytes ");
    text.push_str(decimal_text(content.byte_start).as_str());
    text.push_str("-");
    text.push_str(decimal_text(content.byte_end).as_str());
    text.push_str(" of ");
    text.push_str(decimal_text(content.size).as_str());
    text.push_str("\nencoding ");
    text.push_str(content.encoding.as_str());
    text.push_str("\nsource ");
    if local.is_some() {
        text.push_str("verified-local");
    } else {
        text.push_str("content-plane");
    }
    if content.truncated {
        text.push_str(" (truncated)");
    } else {
        text.push_str("");
    }
    text.push_str("\n\n");
    text.push_str(optional_or(local, content.content.as_str()));
    text
}

/// Source text that is shown as the local file's is what the index holds: the
/// file lies in the checkout, and its content has the hash that is shown.
pub proof fn law_local_source_is_what_the_index_holds(
    root: Seq<Seq<u8>>,
    target: Seq<Seq<u8>>,
    bytes: Seq<u8>,
    content: FileContent,
)
    requires
        local_window(root, target, bytes, content) is Some,
    ensures
        is_under(target, root),
        content_hash(bytes) == content.content_hash@,
        !content.is_binary ==> vstd::utf8::encode_utf8(
            local_window(root, target, bytes, content)->0,
        ) == bytes.subrange(content.byte_start as int, content.byte_end as int),
{
    let window = bytes.subrange(content.byte_start as int, content.byte_end as int);
    if !content.is_binary {
        vstd::utf8::decode_utf8_encode_utf8(window);
    }
}

/// How the copies of a codebase relate to a checkout: whether one of them is that of
/// the checkout, and how many there are.
pub proof fn law_copies_tell_whether_this_checkout_is_one(
    copies: Vec<CodebaseVersionSummary>,
    reason: String,
    source_id: Seq<char>,
)
    ensures
        ({
            let mine = exists|i: int|
                0 <= i < copies@.len() && (#[trigger] copies@[i]).source_id@ == source_id;
            let n = copies@.len();
            &&& mine && n == 1 ==> copies_text(Ok(copies), source_id) == "this checkout"@
            &&& mine && n > 1 ==> copies_text(Ok(copies), source_id) == "this checkout, of "@
                + decimal(n)
            &&& !mine && n == 0 ==> copies_text(Ok(copies), source_id) == "none"@
            &&& !mine && n > 0 ==> copies_text(Ok(copies), source_id) == decimal(n)
                + " other copy/copies"@
            &&& copies_text(Err(reason), source_id) == "unknown"@
        }),
{
}

/// A value that is sent as a name, as a number or as anything else is shown by its
/// name where it has one, and otherwise as it is.
pub proof fn law_values_are_shown_by_name(name: String, n: u64, json: String)
    ensures
        label_text(EnumValue::Name(name), source_kinds()) == name@,
        label_text(EnumValue::Number(0), source_kinds()) == "Local"@,
        label_text(EnumValue::Number(1), source_kinds()) == "Vcs"@,
        n > 1 ==> label_text(EnumValue::Number(n), source_kinds()) == decimal(n as nat),
        label_text(EnumValue::Number(0), visibilities()) == "Personal"@,
        label_text(EnumValue::Number(1), visibilities()) == "Organization"@,
        label_text(EnumValue::Number(2), visibilities()) == "Global"@,
        n > 2 ==> label_text(EnumValue::Number(n), visibilities()) == decimal(n as nat),
        label_text(EnumValue::Other(json), visibilities()) == json@,
{
}

/// Every visible codebase is listed with its names, its source and access, its
/// revision, its graph, and whether it has a copy of this checkout.
pub proof fn law_every_codebase_is_listed(items: Seq<CodebaseSummary>, mine: Seq<Seq<char>>)
    ensures
        rendered(items, codebase_block(mine)) == Seq::new(
            items.len(),
            |i: int| items[i].id@ + "  "@ + items[i].slug@ + "  "@
                + (if items[i].display_name@.len() == 0 { "-"@ } else { items[i].display_name@ })
                    + "\n  source="@ + label_text(items[i].source_kind, source_kinds())
                    + " access="@ + label_text(items[i].visibility, visibilities())
                    + " revision="@
                    + (if items[i].revision is Some { items[i].revision->0@ } else { "-"@ })
                    + " graph="@ + signed_decimal(items[i].graph_generation as int) + "/"@
                    + signed_decimal(items[i].graph_materialized_generation as int)
                    + " fresh="@ + (if items[i].graph_fresh { "true"@ } else { "false"@ })
                    + " this_checkout="@
                    + (if mine.contains(items[i].id@) { "true"@ } else { "false"@ }) + "\n"@,
        ).flatten(),
{
    lemma_rendered_is_a_row(items, codebase_block(mine));
    assert(Seq::new(items.len(), |i: int| codebase_block(mine)(items[i])) =~= Seq::new(
        items.len(),
        |i: int| items[i].id@ + "  "@ + items[i].slug@ + "  "@
            + (if items[i].display_name@.len() == 0 { "-"@ } else { items[i].display_name@ })
            + "\n  source="@ + label_text(items[i].source_kind, source_kinds()) + " access="@
            + label_text(items[i].visibility, visibilities()) + " revision="@
            + (if items[i].revision is Some { items[i].revision->0@ } else { "-"@ })
            + " graph="@ + signed_decimal(items[i].graph_generation as int) + "/"@
            + signed_decimal(items[i].graph_materialized_generation as int) + " fresh="@
            + (if items[i].graph_fresh { "true"@ } else { "false"@ }) + " this_checkout="@
            + (if mine.contains(items[i].id@) { "true"@ } else { "false"@ }) + "\n"@,
    ));
}

/// A walk over codebases goes on exactly while a page has rows and the pages so far
/// do not hold every row.
pub proof fn law_codebases_are_read_to_their_end(number: u32, size: u32, total: u32)
    ensures
        !is_last_codebase_page(number, size, total) <==> size > 0 && size * (number + 1) < total,
{
    assert(size * (number + 1) == (number + 1) * size) by (nonlinear_arith);
}

/// What is said of the context of a session: its server, tenant, codebase, checkout
/// and source, whether the checkout is watched, the state of the codebase where the
/// session is bound to one, and the last job.
pub proof fn law_a_context_names_everything(report: ContextReport)
    ensures
        ({
            let codebase = match report.codebase {
                Some(id) => id@,
                None => "(unbound)"@,
            };
            let source = match report.source {
                Some(id) => id@,
                None => "(none)"@,
            };
            let state = match report.summary {
                Ok(summary) => "\nindexed revision "@ + (match summary.revision {
                    Some(revision) => revision@,
                    None => "-"@,
                }) + "\ngraph generation "@ + signed_decimal(summary.graph_generation as int)
                    + "/"@ + signed_decimal(summary.graph_materialized_generation as int)
                    + "\ngraph fresh "@ + (if summary.graph_fresh { "true"@ } else { "false"@ })
                    + "\nserver checkout binding "@ + copies_text(report.copies, source),
                Err(e) => "\ngraph/index state unavailable: "@ + e@,
            };
            context_text(report) == "server "@ + report.server@ + "\ntenant "@ + (
            match report.tenant {
                Some(tenant) => tenant@,
                None => "(unset)"@,
            }) + "\ncodebase "@ + codebase + "\ncheckout root "@ + (match report.root {
                Some(root) => root@,
                None => "(none)"@,
            }) + "\nsource identity "@ + source + "\nwatcher "@ + (if report.watcher_active {
                "active"@
            } else {
                "inactive"@
            }) + (if codebase != "(unbound)"@ { state } else { ""@ }) + (match report.last_job_id {
                Some(job) => "\nlast session sync job "@ + job@,
                None => ""@,
            })
        }),
{
}

/// When a local file stands for what the server sent: exactly where it lies in the
/// checkout, its bytes have the reported hash, and they hold the window, as a text
/// unless the content is binary. The text is then that window.
pub proof fn law_a_verified_window_is_used(
    root: Seq<Seq<u8>>,
    target: Seq<Seq<u8>>,
    bytes: Seq<u8>,
    content: FileContent,
)
    ensures
        ({
            let fits = root.is_prefix_of(target) && content_hash(bytes) == content.content_hash@
                && content.byte_start <= content.byte_end && content.byte_end <= bytes.len();
            let window = bytes.subrange(content.byte_start as int, content.byte_end as int);
            &&& !fits ==> local_window(root, target, bytes, content) is None
            &&& fits && content.is_binary ==> local_window(root, target, bytes, content) == Some(
                base64_text(window),
            )
            &&& fits && !content.is_binary ==> local_window(root, target, bytes, content) == (
            if vstd::utf8::valid_utf8(window) {
                Some(vstd::utf8::decode_utf8(window))
            } else {
                None
            })
        }),
{
}

/// Source text is shown with its path, its revision, which bytes of how many it is,
/// its encoding, where it came from and whether it was cut; the local text is shown
/// where there is one, and the server's otherwise.
pub proof fn law_source_is_shown_with_where_it_came_from(
    content: FileContent,
    local: Seq<char>,
    root: Option<Seq<char>>,
)
    ensures
        ({
            let head = shown_path(root, content.path@) + "\nrevision "@ + content.content_hash@
                + "\nbytes "@ + decimal(content.byte_start as nat) + "-"@ + decimal(
                content.byte_end as nat,
            ) + " of "@ + decimal(content.size as nat) + "\nencoding "@ + content.encoding@
                + "\nsource "@;
            let cut = if content.truncated { " (truncated)"@ } else { ""@ };
            &&& source_text(content, Some(local), root) == head + "verified-local"@ + cut + "\n\n"@
                + local
            &&& source_text(content, None, root) == head + "content-plane"@ + cut + "\n\n"@
                + content.content@
        }),
{
}

/// A walk over codebases gathers those of every page, and ends on the last one or at
/// its limit.
pub proof fn law_codebases_are_gathered_over_the_pages(
    before: Codebases,
    page: Page<CodebaseSummary>,
    walk: CodebaseWalk,
)
    requires
        call_ensures(Codebases::take, (before, page), walk),
    ensures
        ({
            let last = page.size == 0 || page.size * (page.number + 1) >= page.total;
            match walk {
                CodebaseWalk::More(next) => {
                    &&& !last
                    &&& next.collected() == before.collected() + page.items@
                    &&& next.next_page() == before.next_page() + 1
                },
                CodebaseWalk::Done(all) => {
                    &&& all@ == before.collected() + page.items@
                    &&& last || before.next_page() + 1 == MAX_CODEBASE_PAGES
                },
            }
        }),
{
    law_codebases_are_read_to_their_end(page.number, page.size, page.total);
}

/// Codebases, contexts and sources are shown as their texts say, and failures under the
/// name of the call.
pub proof fn law_contexts_and_sources_are_shown(
    codebases: &Result<Vec<CodebaseSummary>, String>,
    mine: &Vec<String>,
    listed_text: String,
    content: &Result<FileContent, String>,
    local: &Option<String>,
    root: Option<&str>,
    source: String,
    report: &ContextReport,
    context: String,
)
    requires
        call_ensures(list_codebases, (codebases, mine), listed_text),
        call_ensures(read_source, (content, local, root), source),
        call_ensures(current_context, (report,), context),
    ensures
        match codebases {
            Ok(all) => if all@.len() == 0 {
                listed_text@ == "no visible codebases"@
            } else {
                listed_text@ == rendered(
                    all@,
                    codebase_block(Seq::new(mine@.len(), |i: int| mine@[i]@)),
                )
            },
            Err(e) => listed_text@ == "list_codebases"@ + " failed: "@ + e@,
        },
        match content {
            Ok(found) => source@ == source_text(*found, optional(*local), slice_text(root)),
            Err(e) => source@ == "read_source"@ + " failed: "@ + e@,
        },
        context@ == context_text(*report),
{
    assert(texts(mine@) =~= Seq::new(mine@.len(), |i: int| mine@[i]@));
}

/// A local file is used in place of what the server sent only where it is verified.
pub proof fn law_only_verified_files_are_used(
    root: &PathName,
    target: &PathName,
    bytes: &[u8],
    content: &FileContent,
    text: Option<String>,
)
    requires
        call_ensures(verified_local_window, (root, target, bytes, content), text),
    ensures
        text is Some ==> root@.is_prefix_of(target@) && content_hash(bytes@)
            == content.content_hash@ && content.byte_start <= content.byte_end && content.byte_end
            <= bytes@.len(),
        text matches Some(shown) && !content.is_binary ==> vstd::utf8::encode_utf8(text->0@)
            == bytes@.subrange(content.byte_start as int, content.byte_end as int),
{
    law_a_verified_window_is_used(root@, target@, bytes@, *content);
    if text is Some && !content.is_binary {
        let window = bytes@.subrange(content.byte_start as int, content.byte_end as int);
        vstd::utf8::decode_utf8_encode_utf8(window);
    }
}

} // verus!
