//! The file catalog: listing it, summing it up, and holding local files to it.

use vstd::prelude::*;

use crate::api::{CodebaseFile, JobStatus, Page, SearchHit};
use crate::query::lookups::{failed, failed_text};
use crate::query::render::{
    file_line, hits_text, job_text, local_path, render_hits_inner, render_job, slice_text,
    HitContext, HitStyle,
};
use crate::query::requests::{bounded, within};
use crate::sorting::{byte_keys, is_sorted_order, lemma_sorted_order_is_unique, sorted_indices, sorted_order};
use crate::text::{
    contains, contains_text, copy_text, decimal, decimal_text, lemma_rendered_next,
    lemma_rendered_none, lists, lower_text, lowercase, optional, rendered, same, signed_decimal,
    signed_text, texts, wide_decimal_text,
};
use crate::textmap::TextMap;

verus! {

/// How many rows the server puts on a page at most.
pub const FILES_PAGE_MAX: u32 = 1000;

/// Shown when the catalog has no rows at all.
pub const EMPTY_CATALOG: &'static str = "(no files in the catalog for this codebase — indexing is probably still running (check `sync_status`) or nothing has been synced yet. The catalog and the search index are filled by the same sync, so this should not stay empty while `search_codebase` returns hits — if it does, that's an inconsistency to investigate, not an expected state.)";

/// Whether a path holds a needle, whatever the path's case.
pub open spec fn path_matches(needle: Seq<char>) -> spec_fn(CodebaseFile) -> bool {
    |file: CodebaseFile| contains_text(lower_text(file.path@), needle)
}

/// The files whose path holds a needle.
pub open spec fn matching(files: Seq<CodebaseFile>, needle: Seq<char>) -> Seq<CodebaseFile> {
    files.filter(path_matches(needle))
}

/// The bytes of each file's path.
pub open spec fn path_keys(files: Seq<CodebaseFile>) -> Seq<Seq<u8>> {
    files.map_values(|file: CodebaseFile| vstd::utf8::encode_utf8(file.path@))
}

/// The files in the order of their paths.
pub open spec fn in_path_order(files: Seq<CodebaseFile>) -> Seq<CodebaseFile> {
    sorted_indices(path_keys(files)).map_values(|index: usize| files[index as int])
}

/// Files in the order of their paths, one on each line.
fn render_sorted(files: &Vec<CodebaseFile>, root: Option<&str>) -> (out: String)
    ensures
        out@ == rendered(in_path_order(files@), file_line(slice_text(root))),
{
    let mut paths: Vec<String> = Vec::new();
    let mut i: usize = 0;
    while i < files.len()
        invariant
            i <= files@.len(),
            paths@.len() == i,
            forall|k: int| 0 <= k < i ==> (#[trigger] paths@[k])@ == files@[k].path@,
        decreases files@.len() - i,
    {
        paths.push(copy_text(files[i].path.as_str()));
        i = i + 1;
    }
    assert(byte_keys(paths@) =~= path_keys(files@));
    let order = sorted_order(&paths);
    let ghost all = in_path_order(files@);
    let ghost line = file_line(slice_text(root));
    proof {
        lemma_sorted_order_is_unique(path_keys(files@), order@);
        lemma_rendered_none(all, line);
    }
    let mut out = String::new();
    let mut i: usize = 0;
    while i < order.len()
        invariant
            i <= order@.len(),
            all == in_path_order(files@),
            order@ == sorted_indices(path_keys(files@)),
            is_sorted_order(path_keys(files@), order@),
            line == file_line(slice_text(root)),
            out@ == rendered(all.take(i as int), line),
        decreases order@.len() - i,
    {
        let at: usize = order[i];
        let mut text = local_path(root, files[at].path.as_str());
        text.push_str("  (");
        text.push_str(signed_text(files[at].size).as_str());
        text.push_str(" bytes)\n");
        out.push_str(text.as_str());
        proof {
            assert(all[i as int] == files@[at as int]);
            lemma_rendered_next(all, line, i as int);
        }
        i = i + 1;
    }
    assert(all.take(i as int) =~= all);
    out
}

/// The files of a page whose path holds a needle.
fn keep_matching(files: Vec<CodebaseFile>, needle: &str, kept: &mut Vec<CodebaseFile>)
    ensures
        final(kept)@ == old(kept)@ + matching(files@, needle@),
{
    let ghost before = kept@;
    let ghost test = path_matches(needle@);
    let ghost all = files@;
    proof {
        reveal(Seq::filter);
        assert(all.take(0).filter(test) =~= seq![]);
        assert(before + all.take(0).filter(test) =~= before);
    }
    for file in iter: files
        invariant
            iter.seq() == all,
            test == path_matches(needle@),
            kept@ == before + all.take(iter.index()).filter(test),
    {
        let ghost k = iter.index();
        let ghost so_far = all.take(k);
        let keep = contains(lowercase(file.path.as_str()).as_str(), needle);
        proof {
            assert(all.take(k + 1) =~= so_far.push(all[k]));
            so_far.lemma_filter_push(all[k], test);
        }
        if keep {
            kept.push(file);
            assert(kept@ =~= before + so_far.filter(test).push(all[k]));
        }
    }
    assert(all.take(all.len() as int) =~= all);
}

/// What comes after a page of the catalog was read.
pub enum Listing {
    /// The next page is needed.
    More,
    /// The listing.
    Done(String),
}

impl Listing {
    pub open spec fn says(self, text: Seq<char>) -> bool {
        self matches Listing::Done(t) && t@ == text
    }
}

/// What is asked of the catalog: every file whose path holds a text, or one
/// page.
pub struct FileListing {
    filter: Option<String>,
    needle: String,
    page: u32,
    page_size: u32,
    matches: Vec<CodebaseFile>,
}

/// The files that hold a filter, in the order of their paths.
pub open spec fn filtered_text(
    filter: Seq<char>,
    found: Seq<CodebaseFile>,
    total: u32,
    root: Option<Seq<char>>,
) -> Seq<char> {
    if total == 0 {
        EMPTY_CATALOG@
    } else if found.len() == 0 {
        "(no indexed files match `"@ + filter + "` — searched all "@ + decimal(total as nat)
            + " catalogued files)"@
    } else {
        rendered(in_path_order(found), file_line(root)) + "("@ + decimal(found.len()) + " of "@
            + decimal(total as nat) + " files match `"@ + filter + "`)\n"@
    }
}

/// One page of the catalog, with how to go on where it is not the last one.
pub open spec fn page_text(
    found: Page<CodebaseFile>,
    page: u32,
    page_size: u32,
    root: Option<Seq<char>>,
) -> Seq<char> {
    let start = page * page_size;
    let end = start + found.items@.len();
    if found.total == 0 {
        EMPTY_CATALOG@
    } else if found.items@.len() == 0 {
        "(page "@ + decimal(page as nat) + " is past the end — "@ + decimal(found.total as nat)
            + " files span pages 0–"@ + decimal(((found.total - 1) / page_size as int) as nat)
            + " at pageSize "@ + decimal(page_size as nat) + ")"@
    } else {
        rendered(in_path_order(found.items@), file_line(root)) + "(rows "@ + decimal(
            (start + 1) as nat,
        ) + "–"@ + decimal(end as nat) + " of "@ + decimal(found.total as nat) + (if end
            < found.total {
            "; pass page="@ + decimal((page + 1) as nat) + " for the next "@ + decimal(
                page_size as nat,
            )
        } else {
            ""@
        }) + ")\n"@
    }
}

/// Whether a walk over full pages is done with the page that it read.
pub open spec fn is_last_page(page: u32, rows: nat, total: u32) -> bool {
    rows == 0 || (page + 1) * FILES_PAGE_MAX >= total
}

fn last_page(page: u32, rows: usize, total: u32) -> (last: bool)
    ensures
        last == is_last_page(page, rows as nat, total),
{
    assert(0 <= (page + 1) * FILES_PAGE_MAX <= u64::MAX) by (nonlinear_arith)
        requires
            0 <= page <= u32::MAX,
            0 <= FILES_PAGE_MAX <= 1000,
    ;
    rows == 0 || (page as u64 + 1) * (FILES_PAGE_MAX as u64) >= total as u64
}

/// Lists the catalog: with a filter, the files of the whole catalog whose path
/// holds it; without one, a single page.
pub fn list_files(filter: Option<&str>, page: Option<u32>, page_size: Option<u32>) -> (listing:
    FileListing)
    ensures
        listing.wf(),
        listing.filter_text() == slice_text(filter),
        listing.found() == Seq::<CodebaseFile>::empty(),
        listing.next_page() == if filter is None && page is Some {
            page->0
        } else {
            0
        },
        listing.rows() == if filter is None && page_size is Some {
            within(page_size->0, 1, FILES_PAGE_MAX)
        } else {
            FILES_PAGE_MAX
        },
{
    match filter {
        Some(raw) => FileListing {
            filter: Some(copy_text(raw)),
            needle: lowercase(raw),
            page: 0,
            page_size: FILES_PAGE_MAX,
            matches: Vec::new(),
        },
        None => {
            let rows: u32 = match page_size {
                Some(n) => bounded(n, 1, FILES_PAGE_MAX),
                None => FILES_PAGE_MAX,
            };
            let first: u32 = match page {
                Some(n) => n,
                None => 0,
            };
            FileListing {
                filter: None,
                needle: copy_text(""),
                page: first,
                page_size: rows,
                matches: Vec::new(),
            }
        },
    }
}

impl FileListing {
    pub closed spec fn filter_text(self) -> Option<Seq<char>> {
        optional(self.filter)
    }

    /// The matching files of the pages that were read.
    pub closed spec fn found(self) -> Seq<CodebaseFile> {
        self.matches@
    }

    pub closed spec fn next_page(self) -> u32 {
        self.page
    }

    pub closed spec fn rows(self) -> u32 {
        self.page_size
    }

    pub closed spec fn wf(self) -> bool {
        &&& 1 <= self.page_size <= FILES_PAGE_MAX
        &&& self.filter matches Some(raw) ==> {
            &&& self.needle@ == lower_text(raw@)
            &&& self.page_size == FILES_PAGE_MAX
            &&& self.page * FILES_PAGE_MAX <= u32::MAX
        }
    }

    /// The page that is needed next.
    pub fn page(&self) -> (page: u32)
        ensures
            page == self.next_page(),
    {
        self.page
    }

    /// How many rows a page holds.
    pub fn page_size(&self) -> (rows: u32)
        ensures
            rows == self.rows(),
    {
        self.page_size
    }

    /// Reads the page that was needed.
    pub fn take(&mut self, reply: Result<Page<CodebaseFile>, String>, root: Option<&str>) -> (listing:
        Listing)
        requires
            old(self).wf(),
        ensures
            final(self).wf(),
            final(self).filter_text() == old(self).filter_text(),
            final(self).rows() == old(self).rows(),
            match reply {
                Err(e) => {
                    &&& listing.says(failed_text("list_files"@, e@))
                    &&& *final(self) == *old(self)
                },
                Ok(page) => match old(self).filter_text() {
                    None => {
                        &&& listing.says(
                            page_text(page, old(self).next_page(), old(self).rows(), slice_text(root)),
                        )
                        &&& *final(self) == *old(self)
                    },
                    Some(filter) => {
                        &&& final(self).found() == old(self).found() + matching(
                            page.items@,
                            lower_text(filter),
                        )
                        &&& if is_last_page(old(self).next_page(), page.items@.len(), page.total) {
                            &&& listing.says(
                                filtered_text(
                                    filter,
                                    final(self).found(),
                                    page.total,
                                    slice_text(root),
                                ),
                            )
                            &&& final(self).next_page() == old(self).next_page()
                        } else {
                            &&& listing is More
                            &&& final(self).next_page() == old(self).next_page() + 1
                        }
                    },
                },
            },
    {
        let page = match reply {
            Ok(page) => page,
            Err(e) => return Listing::Done(failed("list_files", e.as_str())),
        };
        if self.filter.is_none() {
            return Listing::Done(render_page(&page, self.page, self.page_size, root));
        }
        let rows: usize = page.items.len();
        let total: u32 = page.total;
        keep_matching(page.items, self.needle.as_str(), &mut self.matches);
        if !last_page(self.page, rows, total) {
            self.page = self.page + 1;
            return Listing::More;
        }
        match &self.filter {
            Some(filter) => Listing::Done(render_filtered(filter.as_str(), &self.matches, total, root)),
            None => Listing::More,
        }
    }
}

fn render_filtered(filter: &str, found: &Vec<CodebaseFile>, total: u32, root: Option<&str>) -> (text:
    String)
    ensures
        text@ == filtered_text(filter@, found@, total, slice_text(root)),
{
    if total == 0 {
        return copy_text(EMPTY_CATALOG);
    }
    if found.len() == 0 {
        let mut text = copy_text("(no indexed files match `");
        text.push_str(filter);
        text.push_str("` — searched all ");
        text.push_str(decimal_text(total as u64).as_str());
        text.push_str(" catalogued files)");
        return text;
    }
    let mut text = render_sorted(found, root);
    text.push_str("(");
    text.push_str(decimal_text(found.len() as u64).as_str());
    text.push_str(" of ");
    text.push_str(decimal_text(total as u64).as_str());
    text.push_str(" files match `");
    text.push_str(filter);
    text.push_str("`)\n");
    text
}

fn render_page(found: &Page<CodebaseFile>, page: u32, page_size: u32, root: Option<&str>) -> (text:
    String)
    requires
        page_size >= 1,
    ensures
        text@ == page_text(*found, page, page_size, slice_text(root)),
{
    if found.total == 0 {
        return copy_text(EMPTY_CATALOG);
    }
    if found.items.len() == 0 {
        let last: u32 = (found.total - 1) / page_size;
        let mut text = copy_text("(page ");
        text.push_str(decimal_text(page as u64).as_str());
        text.push_str(" is past the end — ");
        text.push_str(decimal_text(found.total as u64).as_str());
        text.push_str(" files span pages 0–");
        text.push_str(decimal_text(last as u64).as_str());
        text.push_str(" at pageSize ");
        text.push_str(decimal_text(page_size as u64).as_str());
        text.push_str(")");
        return text;
    }
    assert(0 <= page * page_size <= u32::MAX * u32::MAX) by (nonlinear_arith)
        requires
            0 <= page <= u32::MAX,
            0 <= page_size <= u32::MAX,
    ;
    let start: u128 = page as u128 * page_size as u128;
    let end: u128 = start + found.items.len() as u128;
    let mut text = render_sorted(&found.items, root);
    text.push_str("(rows ");
    text.push_str(wide_decimal_text(start + 1).as_str());
    text.push_str("–");
    text.push_str(wide_decimal_text(end).as_str());
    text.push_str(" of ");
    text.push_str(decimal_text(found.total as u64).as_str());
    let more = if end < found.total as u128 {
        let mut more = copy_text("; pass page=");
        more.push_str(decimal_text(page as u64 + 1).as_str());
        more.push_str(" for the next ");
        more.push_str(decimal_text(page_size as u64).as_str());
        more
    } else {
        copy_text("")
    };
    text.push_str(more.as_str());
    text.push_str(")\n");
    text
}

/// The rows of one full page of a catalog.
pub open spec fn page_rows(catalog: Seq<CodebaseFile>, page: nat) -> Seq<CodebaseFile> {
    let start = page * FILES_PAGE_MAX;
    let end = start + FILES_PAGE_MAX;
    catalog.subrange(
        if start <= catalog.len() { start } else { catalog.len() as int },
        if end <= catalog.len() { end } else { catalog.len() as int },
    )
}

/// The matching files of the first `pages` pages of a catalog.
pub open spec fn gathered(catalog: Seq<CodebaseFile>, needle: Seq<char>, pages: nat) -> Seq<
    CodebaseFile,
>
    decreases pages,
{
    if pages == 0 {
        seq![]
    } else {
        gathered(catalog, needle, (pages - 1) as nat) + matching(
            page_rows(catalog, (pages - 1) as nat),
            needle,
        )
    }
}

proof fn lemma_gathered(catalog: Seq<CodebaseFile>, needle: Seq<char>, pages: nat)
    ensures
        gathered(catalog, needle, pages) == matching(
            catalog.take(
                if pages * FILES_PAGE_MAX <= catalog.len() {
                    pages * FILES_PAGE_MAX
                } else {
                    catalog.len() as int
                },
            ),
            needle,
        ),
    decreases pages,
{
    let test = path_matches(needle);
    if pages == 0 {
        reveal(Seq::filter);
        assert(catalog.take(0).filter(test) =~= seq![]);
    } else {
        let before = (pages - 1) as nat;
        lemma_gathered(catalog, needle, before);
        let start = if before * FILES_PAGE_MAX <= catalog.len() {
            before * FILES_PAGE_MAX
        } else {
            catalog.len() as int
        };
        let end = if pages * FILES_PAGE_MAX <= catalog.len() {
            pages * FILES_PAGE_MAX
        } else {
            catalog.len() as int
        };
        Seq::filter_distributes_over_add(catalog.take(start), page_rows(catalog, before), test);
        assert(catalog.take(start) + page_rows(catalog, before) =~= catalog.take(end));
    }
}

/// A filter spans the whole catalog: a walk over its pages is done as soon as
/// it has read every row, and has found every file that matches by then.
pub proof fn law_a_filter_spans_the_whole_catalog(
    catalog: Seq<CodebaseFile>,
    needle: Seq<char>,
    page: u32,
)
    requires
        catalog.len() <= u32::MAX,
        is_last_page(page, page_rows(catalog, page as nat).len(), catalog.len() as u32),
    ensures
        gathered(catalog, needle, (page + 1) as nat) == matching(catalog, needle),
{
    lemma_gathered(catalog, needle, (page + 1) as nat);
    assert(catalog.take(catalog.len() as int) =~= catalog);
}

/// Whether a hit is stale: its local file differs from what the index holds,
/// or is gone while the index still refers to it.
pub open spec fn differs(indexed: Seq<char>, local: Option<Seq<char>>) -> bool {
    local != Some(indexed)
}

pub fn is_stale(indexed: &str, local: Option<&str>) -> (stale: bool)
    ensures
        stale == differs(indexed@, slice_text(local)),
{
    match local {
        Some(hash) => !same(hash, indexed),
        None => true,
    }
}

/// Whether a hit's path is among the hits of a search.
pub open spec fn is_hit_path(hits: Seq<SearchHit>, path: Seq<char>) -> bool {
    exists|i: int| 0 <= i < hits.len() && optional(#[trigger] hits[i].path) == Some(path)
}

/// Whether a path is called stale: it is the path of a hit, the catalog has a
/// hash for it, and the local file does not have that hash.
pub open spec fn is_flagged(
    path: Seq<char>,
    hits: Seq<SearchHit>,
    catalog: Map<Seq<char>, Option<String>>,
    local: Map<Seq<char>, String>,
) -> bool {
    &&& is_hit_path(hits, path)
    &&& catalog.dom().contains(path)
    &&& catalog[path] matches Some(indexed) && differs(
        indexed@,
        if local.dom().contains(path) {
            Some(local[path]@)
        } else {
            None
        },
    )
}

/// The paths of the hits whose local file no longer matches the index. Without
/// a local checkout or a catalog there is nothing to compare, and a path without
/// a recorded hash is not flagged.
pub fn staleness(
    root: Option<&str>,
    hits: &Vec<SearchHit>,
    catalog: &Result<TextMap<Option<String>>, String>,
    local: &TextMap<String>,
) -> (stale: Vec<String>)
    requires
        catalog matches Ok(hashes) ==> hashes.wf(),
        local.wf(),
    ensures
        texts(stale@).no_duplicates(),
        forall|path: Seq<char>| #[trigger]
            texts(stale@).contains(path) <==> root is Some && (catalog matches Ok(hashes)
                && is_flagged(path, hits@, hashes@, local@)),
{
    let mut stale: Vec<String> = Vec::new();
    assert(texts(stale@) =~= Seq::<Seq<char>>::empty());
    if root.is_none() {
        return stale;
    }
    let hashes = match catalog {
        Ok(hashes) => hashes,
        Err(_) => return stale,
    };
    let mut i: usize = 0;
    while i < hits.len()
        invariant
            i <= hits@.len(),
            hashes.wf(),
            local.wf(),
            texts(stale@).no_duplicates(),
            forall|path: Seq<char>| #[trigger]
                texts(stale@).contains(path) <==> is_flagged(path, hits@.take(i as int), hashes@, local@),
        decreases hits@.len() - i,
    {
        let ghost before = texts(stale@);
        let ghost seen = hits@.take(i as int);
        let ghost now = hits@.take(i + 1);
        proof {
            assert forall|path: Seq<char>| #[trigger]
                is_hit_path(now, path) <==> is_hit_path(seen, path) || optional(
                    hits@[i as int].path,
                ) == Some(path) by {
                if is_hit_path(seen, path) {
                    let k = choose|k: int|
                        0 <= k < seen.len() && optional(#[trigger] seen[k].path) == Some(path);
                    assert(now[k] == seen[k]);
                }
                assert(now[i as int] == hits@[i as int]);
                if is_hit_path(now, path) {
                    let k = choose|k: int|
                        0 <= k < now.len() && optional(#[trigger] now[k].path) == Some(path);
                    if k < i {
                        assert(seen[k] == now[k]);
                    }
                }
            }
        }
        match &hits[i].path {
            Some(path) => {
                let flagged = match hashes.get(path.as_str()) {
                    Some(Some(indexed)) => match local.get(path.as_str()) {
                        Some(hash) => is_stale(indexed.as_str(), Some(hash.as_str())),
                        None => is_stale(indexed.as_str(), None),
                    },
                    _ => false,
                };
                if flagged && !lists(&stale, path.as_str()) {
                    stale.push(copy_text(path.as_str()));
                    proof {
                        let after = texts(stale@);
                        assert(after =~= before.push(path@));
                        assert forall|p: Seq<char>| #[trigger]
                            after.contains(p) <==> before.contains(p) || p == path@ by {
                            if before.contains(p) {
                                let k = before.index_of(p);
                                assert(after[k] == p);
                            }
                            assert(after[before.len() as int] == path@);
                        }
                    }
                }
            },
            None => {},
        }
        i = i + 1;
    }
    assert(hits@.take(i as int) =~= hits@);
    stale
}

/// The hash of a local file's text, as manifests hold it.
pub fn local_blake3(content: Option<&str>) -> (hash: Option<String>)
    ensures
        optional(hash) == match content {
            Some(text) => Some(crate::digest::content_hash(vstd::utf8::encode_utf8(text@))),
            None => None,
        },
{
    match content {
        Some(text) => Some(crate::digest::hash_text(text.as_bytes())),
        None => None,
    }
}

/// How many pages of the catalog a search reads at most.
pub const STALENESS_MAX_PAGES: u32 = 5;

/// The hashes that a catalog holds.
pub open spec fn recorded(before: Map<Seq<char>, Option<String>>, files: Seq<CodebaseFile>) -> Map<
    Seq<char>,
    Option<String>,
>
    decreases files.len(),
{
    if files.len() == 0 {
        before
    } else {
        recorded(before, files.drop_last()).insert(files.last().path@, files.last().content_hash)
    }
}

/// What comes after a page of hashes was read.
pub enum HashWalk {
    /// The next page is needed.
    More(CatalogHashes),
    /// The hashes.
    Done(TextMap<Option<String>>),
}

/// A bounded walk over the catalog for the hash of each path.
pub struct CatalogHashes {
    hashes: TextMap<Option<String>>,
    page: u32,
}

impl CatalogHashes {
    pub closed spec fn wf(self) -> bool {
        self.hashes.wf() && self.page < STALENESS_MAX_PAGES
    }

    pub closed spec fn map(self) -> Map<Seq<char>, Option<String>> {
        self.hashes@
    }

    pub closed spec fn next_page(self) -> u32 {
        self.page
    }

    pub fn new() -> (walk: CatalogHashes)
        ensures
            walk.wf(),
            walk.map() == Map::<Seq<char>, Option<String>>::empty(),
            walk.next_page() == 0,
    {
        CatalogHashes { hashes: TextMap::new(), page: 0 }
    }

    /// The page that is needed next.
    pub fn page(&self) -> (page: u32)
        ensures
            page == self.next_page(),
    {
        self.page
    }

    /// Reads the page that was needed; the hashes where it was the last one.
    pub fn take(self, page: Page<CodebaseFile>) -> (walk: HashWalk)
        requires
            self.wf(),
        ensures
            match walk {
                HashWalk::More(next) => {
                    &&& next.wf()
                    &&& next.map() == recorded(self.map(), page.items@)
                    &&& next.next_page() == self.next_page() + 1
                    &&& next.next_page() * FILES_PAGE_MAX < page.total
                    &&& next.next_page() < STALENESS_MAX_PAGES
                },
                HashWalk::Done(hashes) => {
                    &&& hashes.wf()
                    &&& hashes@ == recorded(self.map(), page.items@)
                    &&& (self.next_page() + 1) * FILES_PAGE_MAX >= page.total || self.next_page() + 1
                        >= STALENESS_MAX_PAGES
                },
            },
    {
        let CatalogHashes { mut hashes, page: number } = self;
        let total: u32 = page.total;
        let ghost before = hashes@;
        let ghost all = page.items@;
        assert(all.take(0) =~= seq![]);
        for file in iter: page.items
            invariant
                iter.seq() == all,
                hashes.wf(),
                hashes@ == recorded(before, all.take(iter.index())),
        {
            let ghost k = iter.index();
            assert(all.take(k + 1).drop_last() =~= all.take(k));
            hashes.insert(file.path, file.content_hash);
        }
        assert(all.take(all.len() as int) =~= all);
        let next: u32 = number + 1;
        if next * FILES_PAGE_MAX >= total || next >= STALENESS_MAX_PAGES {
            HashWalk::Done(hashes)
        } else {
            HashWalk::More(CatalogHashes { hashes, page: next })
        }
    }
}

/// Ranked hits of a search, or why there are none.
pub open spec fn search_text(
    reply: Result<Vec<SearchHit>, String>,
    style: HitStyle,
    stale: Seq<Seq<char>>,
) -> Seq<char> {
    match reply {
        Err(e) => failed_text("search"@, e@),
        Ok(hits) => if hits@.len() == 0 {
            "no results"@
        } else {
            hits_text(hits@, style, stale, hits@.len())
        },
    }
}

/// The hits of a search. `stale` holds the paths whose local file differs from
/// the index; `expand` shows whole bodies.
pub fn search(
    reply: &Result<Vec<SearchHit>, String>,
    context: HitContext,
    expand: bool,
    stale: &Vec<String>,
) -> (text: String)
    ensures
        text@ == search_text(
            *reply,
            (HitStyle { context, show_score: true, full_body: expand }),
            texts(stale@),
        ),
{
    match reply {
        Err(e) => failed("search", e.as_str()),
        Ok(hits) => {
            let style = HitStyle { context, show_score: true, full_body: expand };
            render_hits_inner(hits, "no results", style, stale)
        },
    }
}

/// The bytes of files together; a negative size counts nothing.
pub open spec fn total_size(files: Seq<CodebaseFile>) -> int
    decreases files.len(),
{
    if files.len() == 0 {
        0
    } else {
        total_size(files.drop_last()) + (if files.last().size > 0 {
            files.last().size as int
        } else {
            0
        })
    }
}

/// A sum of sizes, capped at what a size can hold.
pub open spec fn capped(sum: int) -> i64 {
    if sum > i64::MAX {
        i64::MAX
    } else {
        sum as i64
    }
}

/// A walk over the catalog for its totals.
pub struct CatalogTotals {
    page: u32,
    bytes: i64,
}

impl CatalogTotals {
    pub closed spec fn wf(self) -> bool {
        self.bytes >= 0 && self.page * FILES_PAGE_MAX <= u32::MAX
    }

    pub closed spec fn next_page(self) -> u32 {
        self.page
    }

    pub closed spec fn sum(self) -> i64 {
        self.bytes
    }

    pub fn new() -> (walk: CatalogTotals)
        ensures
            walk.wf(),
            walk.next_page() == 0,
            walk.sum() == 0,
    {
        CatalogTotals { page: 0, bytes: 0 }
    }

    /// The page that is needed next.
    pub fn page(&self) -> (page: u32)
        ensures
            page == self.next_page(),
    {
        self.page
    }

    /// Reads the page that was needed; the files and their bytes where it was
    /// the last one.
    pub fn take(&mut self, page: &Page<CodebaseFile>) -> (totals: Option<(u32, i64)>)
        requires
            old(self).wf(),
        ensures
            final(self).sum() == capped(old(self).sum() + total_size(page.items@)),
            if is_last_page(old(self).next_page(), page.items@.len(), page.total) {
                totals == Some((page.total, final(self).sum()))
            } else {
                &&& totals is None
                &&& final(self).wf()
                &&& final(self).next_page() == old(self).next_page() + 1
            },
    {
        let ghost start = self.bytes;
        let mut i: usize = 0;
        assert(page.items@.take(0) =~= seq![]);
        while i < page.items.len()
            invariant
                i <= page.items@.len(),
                start >= 0,
                self.page == old(self).page,
                self.bytes >= 0,
                total_size(page.items@.take(i as int)) >= 0,
                self.bytes == capped(start + total_size(page.items@.take(i as int))),
            decreases page.items@.len() - i,
        {
            assert(page.items@.take(i + 1).drop_last() =~= page.items@.take(i as int));
            let size: i64 = page.items[i].size;
            if size > 0 {
                self.bytes = if self.bytes > i64::MAX - size {
                    i64::MAX
                } else {
                    self.bytes + size
                };
            }
            i = i + 1;
        }
        assert(page.items@.take(i as int) =~= page.items@);
        if last_page(self.page, page.items.len(), page.total) {
            return Some((page.total, self.bytes));
        }
        self.page = self.page + 1;
        None
    }
}

/// The largest unit that a number of bytes fills: its size and its name.
pub open spec fn byte_unit(n: nat) -> (nat, Seq<char>) {
    if n < 1024 {
        (1, "B"@)
    } else if n < 1048576 {
        (1024, "KiB"@)
    } else if n < 1073741824 {
        (1048576, "MiB"@)
    } else if n < 1099511627776 {
        (1073741824, "GiB"@)
    } else {
        (1099511627776, "TiB"@)
    }
}

/// A number of bytes in its unit, to one decimal place, halves rounded up.
pub open spec fn human_text(bytes: i64) -> Seq<char> {
    let n = if bytes < 0 {
        0nat
    } else {
        bytes as nat
    };
    let (size, unit) = byte_unit(n);
    if size == 1 {
        decimal(n) + " "@ + unit
    } else {
        let tenths = (n * 10 + size / 2) / size;
        decimal(tenths / 10) + "."@ + decimal(tenths % 10) + " "@ + unit
    }
}

pub fn human_bytes(bytes: i64) -> (text: String)
    ensures
        text@ == human_text(bytes),
{
    let n: u128 = if bytes < 0 {
        0
    } else {
        bytes as u128
    };
    if n < 1024 {
        let mut text = wide_decimal_text(n);
        text.push_str(" ");
        text.push_str("B");
        return text;
    }
    let (size, unit): (u128, &'static str) = if n < 1048576 {
        (1024, "KiB")
    } else if n < 1073741824 {
        (1048576, "MiB")
    } else if n < 1099511627776 {
        (1073741824, "GiB")
    } else {
        (1099511627776, "TiB")
    };
    let tenths: u128 = (n * 10 + size / 2) / size;
    let mut text = wide_decimal_text(tenths / 10);
    text.push_str(".");
    text.push_str(wide_decimal_text(tenths % 10).as_str());
    text.push_str(" ");
    text.push_str(unit);
    text
}

/// The last job of a session: its id, and its status or why that is unknown.
pub struct LastRun {
    pub job_id: String,
    pub status: Result<JobStatus, String>,
}

/// What is known of a codebase's index and of the last run that filled it.
pub open spec fn status_text(
    codebase_id: Seq<char>,
    totals: Result<(u32, i64), String>,
    last: Option<LastRun>,
    watching: bool,
) -> Seq<char> {
    "codebase "@ + codebase_id + "\nlocal checkout watch: "@ + (if watching {
        "active"@
    } else {
        "not active (no local checkout selected)"@
    }) + "\ntotal indexed state:"@ + (match totals {
        Ok((files, bytes)) => "\n  files: "@ + decimal(files as nat) + "\n  source bytes: "@
            + human_text(bytes) + " ("@ + signed_decimal(bytes as int) + " bytes)"@,
        Err(e) => "\n  catalog totals unavailable: "@ + e@,
    }) + (match last {
        Some(LastRun { job_id: _, status: Ok(job) }) => match job.chunk_count {
            Some(chunks) => "\n  chunks: "@ + signed_decimal(chunks as int)
                + " (post-sync total)"@,
            None => ""@,
        },
        _ => ""@,
    }) + (match last {
        Some(LastRun { job_id, status: Ok(job) }) => "\n\n"@ + job_text(job_id@, job),
        Some(LastRun { job_id, status: Err(e) }) => "\n\nlast sync run "@ + job_id@
            + ": status unavailable — "@ + e@,
        None => if watching {
            "\n\nlast sync run: no server job queued yet; the active local watcher may still be scanning/preparing its initial sync. The totals above are the persisted server state."@
        } else {
            "\n\nlast sync run: none queued by this MCP session; the totals above are the persisted server state."@
        },
    })
}

/// The persisted totals of an index with the last run of this session. The
/// totals come from the catalog and not from the run: a run that has nothing to
/// do plans no files, however many are indexed.
pub fn sync_status(
    codebase: &Result<String, String>,
    totals: &Result<(u32, i64), String>,
    last: &Option<LastRun>,
    watching: bool,
) -> (text: String)
    ensures
        text@ == match codebase {
            Ok(id) => status_text(id@, *totals, *last, watching),
            Err(e) => failed_text("sync_status"@, e@),
        },
{
    let codebase_id = match codebase {
        Ok(id) => id,
        Err(e) => return failed("sync_status", e.as_str()),
    };
    let mut out = copy_text("codebase ");
    out.push_str(codebase_id.as_str());
    out.push_str("\nlocal checkout watch: ");
    if watching {
        out.push_str("active");
    } else {
        out.push_str("not active (no local checkout selected)");
    }
    out.push_str("\ntotal indexed state:");
    let state = match totals {
        Ok((files, bytes)) => {
            let mut text = copy_text("\n  files: ");
            text.push_str(decimal_text(*files as u64).as_str());
            text.push_str("\n  source bytes: ");
            text.push_str(human_bytes(*bytes).as_str());
            text.push_str(" (");
            text.push_str(signed_text(*bytes).as_str());
            text.push_str(" bytes)");
            text
        },
        Err(e) => {
            let mut text = copy_text("\n  catalog totals unavailable: ");
            text.push_str(e.as_str());
            text
        },
    };
    out.push_str(state.as_str());
    let chunks = match last {
        Some(LastRun { job_id: _, status: Ok(job) }) => match job.chunk_count {
            Some(count) => {
                let mut text = copy_text("\n  chunks: ");
                text.push_str(signed_text(count).as_str());
                text.push_str(" (post-sync total)");
                text
            },
            None => copy_text(""),
        },
        _ => copy_text(""),
    };
    out.push_str(chunks.as_str());
    let run = match last {
        Some(LastRun { job_id, status: Ok(job) }) => {
            let mut text = copy_text("\n\n");
            text.push_str(render_job(job_id.as_str(), job).as_str());
            text
        },
        Some(LastRun { job_id, status: Err(e) }) => {
            let mut text = copy_text("\n\nlast sync run ");
            text.push_str(job_id.as_str());
            text.push_str(": status unavailable — ");
            text.push_str(e.as_str());
            text
        },
        None => if watching {
            copy_text(
                "\n\nlast sync run: no server job queued yet; the active local watcher may still be scanning/preparing its initial sync. The totals above are the persisted server state.",
            )
        } else {
            copy_text(
                "\n\nlast sync run: none queued by this MCP session; the totals above are the persisted server state.",
            )
        },
    };
    out.push_str(run.as_str());
    out
}

/// A filter keeps, in their order, exactly the files whose path holds it, whatever
/// the path's case.
pub proof fn law_a_filter_keeps_what_matches(files: Seq<CodebaseFile>, needle: Seq<char>)
    ensures
        forall|i: int|
            #![trigger files[i]]
            0 <= i < files.len() && contains_text(lower_text(files[i].path@), needle) ==> matching(
                files,
                needle,
            ).contains(files[i]),
        forall|k: int|
            0 <= k < matching(files, needle).len() ==> {
                let file = #[trigger] matching(files, needle)[k];
                files.contains(file) && contains_text(lower_text(file.path@), needle)
            },
        matching(files, needle) == files.filter(
            |file: CodebaseFile| contains_text(lower_text(file.path@), needle),
        ),
{
    let test = path_matches(needle);
    assert(test =~= (|file: CodebaseFile| contains_text(lower_text(file.path@), needle)));
    assert forall|i: int|
        #![trigger files[i]]
        0 <= i < files.len() && contains_text(lower_text(files[i].path@), needle) implies matching(
        files,
        needle,
    ).contains(files[i]) by {
        files.lemma_filter_contains(test, i);
    }
    assert forall|k: int| 0 <= k < matching(files, needle).len() implies files.contains(
        #[trigger] matching(files, needle)[k],
    ) && contains_text(lower_text(matching(files, needle)[k].path@), needle) by {
        files.lemma_filter_pred(test, k);
        files.lemma_filter_contains_rev(test, matching(files, needle)[k]);
    }
}

/// Files are listed in the order of their paths, byte by byte, and every file is
/// listed once. `order` is any list of their places that sorts them.
pub proof fn law_files_are_listed_by_path(files: Seq<CodebaseFile>, order: Seq<usize>)
    requires
        is_sorted_order(path_keys(files), order),
    ensures
        in_path_order(files).len() == files.len(),
        forall|i: int|
            #![trigger files[i]]
            0 <= i < files.len() ==> in_path_order(files).contains(files[i]),
        forall|a: int, b: int|
            #![trigger in_path_order(files)[a], in_path_order(files)[b]]
            0 <= a < b < files.len() ==> in_path_order(files)[a].path@ == in_path_order(
                files,
            )[b].path@ || crate::sorting::lex_less(
                vstd::utf8::encode_utf8(in_path_order(files)[a].path@),
                vstd::utf8::encode_utf8(in_path_order(files)[b].path@),
            ),
{
    let keys = path_keys(files);
    lemma_sorted_order_is_unique(keys, order);
    let all = in_path_order(files);
    assert(all =~= order.map_values(|index: usize| files[index as int]));
    assert forall|i: int|
        #![trigger files[i]]
        0 <= i < files.len() implies all.contains(files[i]) by {
        crate::sorting::lemma_order_is_complete(keys, order, i);
        let k = choose|k: int| 0 <= k < order.len() && #[trigger] order[k] == i;
        assert(all[k] == files[i]);
    }
    assert forall|a: int, b: int|
        #![trigger all[a], all[b]]
        0 <= a < b < files.len() implies all[a].path@ == all[b].path@ || crate::sorting::lex_less(
        vstd::utf8::encode_utf8(all[a].path@),
        vstd::utf8::encode_utf8(all[b].path@),
    ) by {
        let (x, y) = (order[a] as int, order[b] as int);
        assert(crate::sorting::comes_before(keys, x, y));
        assert(keys[x] == vstd::utf8::encode_utf8(files[x].path@));
        assert(keys[y] == vstd::utf8::encode_utf8(files[y].path@));
        if keys[x] == keys[y] {
            vstd::utf8::encode_utf8_decode_utf8(files[x].path@);
            vstd::utf8::encode_utf8_decode_utf8(files[y].path@);
        }
    }
}

/// A walk over full pages of a thousand rows goes on exactly while a page held rows
/// and the pages so far do not reach the total.
pub proof fn law_a_catalog_is_read_to_its_end(page: u32, rows: nat, total: u32)
    ensures
        !is_last_page(page, rows, total) <==> rows > 0 && 1000 * (page + 1) < total,
{
}

/// What a filtered listing says: that the catalog is empty, that nothing of it
/// matches, or every match in the order of its path and how many there are of how
/// many.
pub proof fn law_a_filtered_listing_counts_its_matches(
    filter: Seq<char>,
    found: Seq<CodebaseFile>,
    total: u32,
    root: Option<Seq<char>>,
)
    ensures
        total == 0 ==> filtered_text(filter, found, total, root) == EMPTY_CATALOG@,
        total > 0 && found.len() == 0 ==> filtered_text(filter, found, total, root)
            == "(no indexed files match `"@ + filter + "` — searched all "@ + decimal(total as nat)
            + " catalogued files)"@,
        total > 0 && found.len() > 0 ==> filtered_text(filter, found, total, root) == rendered(
            in_path_order(found),
            file_line(root),
        ) + "("@ + decimal(found.len()) + " of "@ + decimal(total as nat) + " files match `"@
            + filter + "`)\n"@,
{
}

/// A page of the catalog lists its files, counts its rows from one, and names the
/// next page exactly where rows are left.
pub proof fn law_a_page_names_the_next_one(
    found: Page<CodebaseFile>,
    page: u32,
    page_size: u32,
    root: Option<Seq<char>>,
)
    requires
        page_size > 0,
    ensures
        ({
            let before = page * page_size;
            let rows = found.items@.len();
            &&& found.total == 0 ==> page_text(found, page, page_size, root) == EMPTY_CATALOG@
            &&& found.total > 0 && rows == 0 ==> page_text(found, page, page_size, root)
                == "(page "@ + decimal(page as nat) + " is past the end — "@ + decimal(
                found.total as nat,
            ) + " files span pages 0–"@ + decimal(
                ((found.total - 1) / page_size as int) as nat,
            ) + " at pageSize "@ + decimal(page_size as nat) + ")"@
            &&& found.total > 0 && rows > 0 && before + rows < found.total ==> page_text(
                found,
                page,
                page_size,
                root,
            ) == rendered(in_path_order(found.items@), file_line(root)) + "(rows "@ + decimal(
                (before + 1) as nat,
            ) + "–"@ + decimal((before + rows) as nat) + " of "@ + decimal(found.total as nat) + (
            "; pass page="@ + decimal((page + 1) as nat) + " for the next "@ + decimal(
                page_size as nat,
            )) + ")\n"@
            &&& found.total > 0 && rows > 0 && before + rows >= found.total ==> page_text(
                found,
                page,
                page_size,
                root,
            ) == rendered(in_path_order(found.items@), file_line(root)) + "(rows "@ + decimal(
                (before + 1) as nat,
            ) + "–"@ + decimal((before + rows) as nat) + " of "@ + decimal(found.total as nat)
                + ""@ + ")\n"@
        }),
{
}

/// A hit is called stale exactly where the catalog has a hash for its path and the
/// local file has another one or is gone.
pub proof fn law_what_is_stale(
    path: Seq<char>,
    hits: Seq<SearchHit>,
    catalog: Map<Seq<char>, Option<String>>,
    local: Map<Seq<char>, String>,
)
    ensures
        is_flagged(path, hits, catalog, local) <==> {
            &&& exists|i: int|
                0 <= i < hits.len() && (#[trigger] hits[i]).path is Some && hits[i].path->0@ == path
            &&& catalog.dom().contains(path) && catalog[path] is Some
            &&& !local.dom().contains(path) || local[path]@ != catalog[path]->0@
        },
{
    if is_hit_path(hits, path) {
        let i = choose|i: int| 0 <= i < hits.len() && optional(#[trigger] hits[i].path) == Some(path);
        assert(hits[i].path is Some && hits[i].path->0@ == path);
    }
    if exists|i: int|
        0 <= i < hits.len() && (#[trigger] hits[i]).path is Some && hits[i].path->0@ == path {
        let i = choose|i: int|
            0 <= i < hits.len() && (#[trigger] hits[i]).path is Some && hits[i].path->0@ == path;
        assert(optional(hits[i].path) == Some(path));
    }
}

/// The hashes of a page: each path has the hash of its last row, and a path that is
/// not on the page keeps what is known of it.
pub proof fn law_a_page_records_its_hashes(
    before: Map<Seq<char>, Option<String>>,
    files: Seq<CodebaseFile>,
    path: Seq<char>,
)
    ensures
        (forall|i: int| 0 <= i < files.len() ==> (#[trigger] files[i]).path@ != path) ==> recorded(
            before,
            files,
        ).dom().contains(path) == before.dom().contains(path) && recorded(before, files)[path]
            == before[path],
        forall|i: int|
            0 <= i < files.len() && (#[trigger] files[i]).path@ == path && (forall|k: int|
                i < k < files.len() ==> (#[trigger] files[k]).path@ != path) ==> recorded(
                before,
                files,
            ).dom().contains(path) && recorded(before, files)[path] == files[i].content_hash,
    decreases files.len(),
{
    if files.len() > 0 {
        let fewer = files.drop_last();
        law_a_page_records_its_hashes(before, fewer, path);
        let last = files.len() - 1;
        if files[last].path@ != path {
            assert forall|i: int|
                0 <= i < files.len() && (#[trigger] files[i]).path@ == path && (forall|k: int|
                    i < k < files.len() ==> (#[trigger] files[k]).path@ != path) implies recorded(
                before,
                files,
            ).dom().contains(path) && recorded(before, files)[path] == files[i].content_hash by {
                assert(fewer[i] == files[i]);
                assert forall|k: int| i < k < fewer.len() implies (#[trigger] fewer[k]).path@
                    != path by {
                    assert(files[k] == fewer[k]);
                }
            }
            if forall|i: int| 0 <= i < files.len() ==> (#[trigger] files[i]).path@ != path {
                assert forall|i: int| 0 <= i < fewer.len() implies (#[trigger] fewer[i]).path@
                    != path by {
                    assert(files[i] == fewer[i]);
                }
            }
        }
    }
}

/// A search shows all its hits, says that there are none, or why it failed.
pub proof fn law_a_search_shows_its_hits(
    hits: Vec<SearchHit>,
    reason: String,
    style: HitStyle,
    stale: Seq<Seq<char>>,
)
    ensures
        hits@.len() == 0 ==> search_text(Ok(hits), style, stale) == "no results"@,
        hits@.len() > 0 ==> search_text(Ok(hits), style, stale) == Seq::new(
            hits@.len(),
            |i: int| crate::query::render::shown_hit(hits@, style, stale, i),
        ).flatten(),
        search_text(Err(reason), style, stale) == "search"@ + " failed: "@ + reason@,
{
    crate::query::render::law_every_hit_is_shown(hits@, style, stale);
}

/// The bytes of a catalog are the sum of its files' sizes: one more file adds its
/// size, and a negative size adds nothing. A sum that is too large is capped.
pub proof fn law_sizes_are_summed(files: Seq<CodebaseFile>, more: CodebaseFile, sum: int)
    ensures
        total_size(seq![]) == 0,
        more.size >= 0 ==> total_size(files.push(more)) == total_size(files) + more.size,
        more.size < 0 ==> total_size(files.push(more)) == total_size(files),
        0 <= sum <= i64::MAX ==> capped(sum) == sum,
        sum > i64::MAX ==> capped(sum) == i64::MAX,
{
    assert(files.push(more).drop_last() =~= files);
}

/// A number of bytes is shown in the largest unit that it fills: as it is below a
/// kibibyte, and otherwise with one decimal, which is off by no more than half of
/// the last place.
pub proof fn law_bytes_are_shown_in_their_unit(bytes: i64)
    ensures
        bytes < 0 ==> human_text(bytes) == human_text(0),
        0 <= bytes < 1024 ==> human_text(bytes) == decimal(bytes as nat) + " "@ + "B"@,
        bytes >= 1024 ==> {
            let (size, unit) = if bytes < 1048576 {
                (1024int, "KiB"@)
            } else if bytes < 1073741824 {
                (1048576int, "MiB"@)
            } else if bytes < 1099511627776 {
                (1073741824int, "GiB"@)
            } else {
                (1099511627776int, "TiB"@)
            };
            exists|whole: nat, tenth: nat|
                {
                    &&& tenth < 10
                    &&& -size <= 2 * (bytes * 10 - (10 * whole + tenth) * size) <= size
                    &&& human_text(bytes) == #[trigger] decimal(whole) + "."@ + #[trigger] decimal(
                        tenth,
                    ) + " "@ + unit
                }
        },
{
    if bytes >= 1024 {
        let n = bytes as nat;
        let (size, unit) = byte_unit(n);
        let tenths = (n * 10 + size / 2) / size;
        let (whole, tenth) = (tenths / 10, tenths % 10);
        assert(tenths == 10 * whole + tenth);
        assert(tenths * size <= n * 10 + size / 2 < (tenths + 1) * size) by (nonlinear_arith)
            requires
                tenths == (n * 10 + size / 2) / size,
                size > 0,
        ;
        assert((tenths + 1) * size == tenths * size + size) by (nonlinear_arith);
        assert(-size <= 2 * (bytes * 10 - tenths * size) <= size);
        assert(human_text(bytes) == decimal(whole) + "."@ + decimal(tenth) + " "@ + unit);
    }
}

/// What a status says of an index: its codebase, whether its checkout is watched,
/// the totals of the catalog, and the last run of the session. The totals are those
/// of the catalog, whatever the last run did.
pub proof fn law_a_status_shows_totals_and_last_run(
    codebase_id: Seq<char>,
    files: u32,
    bytes: i64,
    reason: String,
    last: Option<LastRun>,
    watching: bool,
)
    ensures
        ({
            let beginning = "codebase "@ + codebase_id + "\nlocal checkout watch: "@ + (
            if watching { "active"@ } else { "not active (no local checkout selected)"@ })
                + "\ntotal indexed state:"@;
            let chunks = match last {
                Some(LastRun { job_id: _, status: Ok(job) }) => match job.chunk_count {
                    Some(count) => "\n  chunks: "@ + signed_decimal(count as int)
                        + " (post-sync total)"@,
                    None => ""@,
                },
                _ => ""@,
            };
            let run = match last {
                Some(LastRun { job_id, status: Ok(job) }) => "\n\n"@ + job_text(job_id@, job),
                Some(LastRun { job_id, status: Err(e) }) => "\n\nlast sync run "@ + job_id@
                    + ": status unavailable — "@ + e@,
                None => if watching {
                    "\n\nlast sync run: no server job queued yet; the active local watcher may still be scanning/preparing its initial sync. The totals above are the persisted server state."@
                } else {
                    "\n\nlast sync run: none queued by this MCP session; the totals above are the persisted server state."@
                },
            };
            &&& status_text(codebase_id, Ok((files, bytes)), last, watching) == beginning + (
            "\n  files: "@ + decimal(files as nat) + "\n  source bytes: "@ + human_text(bytes)
                + " ("@ + signed_decimal(bytes as int) + " bytes)"@) + chunks + run
            &&& status_text(codebase_id, Err(reason), last, watching) == beginning + (
            "\n  catalog totals unavailable: "@ + reason@) + chunks + run
        }),
{
}

/// A filtered listing goes on over the pages of the catalog and gathers every match of
/// each; on the last one it is shown. A listing without a filter is the page that was
/// asked for, and a failure is told.
pub proof fn law_a_listing_gathers_its_pages(
    listing: &mut FileListing,
    reply: Result<Page<CodebaseFile>, String>,
    root: Option<&str>,
    shown: Listing,
)
    requires
        call_ensures(FileListing::take, (listing, reply, root), shown),
    ensures
        reply matches Err(e) ==> (shown matches Listing::Done(text) && text@ == "list_files"@
            + " failed: "@ + e@),
        reply matches Ok(page) ==> match old(listing).filter_text() {
            None => shown matches Listing::Done(text) && text@ == page_text(
                page,
                old(listing).next_page(),
                old(listing).rows(),
                slice_text(root),
            ),
            Some(filter) => {
                let last = page.items@.len() == 0 || 1000 * (old(listing).next_page() + 1)
                    >= page.total;
                let found = old(listing).found() + page.items@.filter(
                    |file: CodebaseFile|
                        contains_text(lower_text(file.path@), lower_text(filter)),
                );
                &&& final(listing).found() == found
                &&& last ==> (shown matches Listing::Done(text) && text@ == filtered_text(
                    filter,
                    found,
                    page.total,
                    slice_text(root),
                ))
                &&& !last ==> shown is More && final(listing).next_page() == old(listing).next_page() + 1
            },
        },
{
    if reply is Ok && old(listing).filter_text() is Some {
        let page = reply->Ok_0;
        let needle = lower_text(old(listing).filter_text()->0);
        law_a_filter_keeps_what_matches(page.items@, needle);
        law_a_catalog_is_read_to_its_end(old(listing).next_page(), page.items@.len(), page.total);
    }
}

/// The hashes of a catalog are those of all its pages; the walk ends where the pages
/// reach the total, or at its limit.
pub proof fn law_hashes_are_gathered_over_the_pages(
    before: CatalogHashes,
    page: Page<CodebaseFile>,
    walk: HashWalk,
)
    requires
        call_ensures(CatalogHashes::take, (before, page), walk),
    ensures
        match walk {
            HashWalk::More(next) => {
                &&& next.map() == recorded(before.map(), page.items@)
                &&& next.next_page() == before.next_page() + 1
                &&& 1000 * (before.next_page() + 1) < page.total
            },
            HashWalk::Done(hashes) => {
                &&& hashes@ == recorded(before.map(), page.items@)
                &&& 1000 * (before.next_page() + 1) >= page.total || before.next_page() + 1
                    >= STALENESS_MAX_PAGES
            },
        },
{
}

proof fn lemma_sizes_are_not_negative(files: Seq<CodebaseFile>)
    ensures
        total_size(files) >= 0,
    decreases files.len(),
{
    if files.len() > 0 {
        lemma_sizes_are_not_negative(files.drop_last());
    }
}

/// The totals of a catalog are its number of files and the sum of their sizes, over
/// all its pages.
pub proof fn law_totals_are_summed_over_the_pages(
    walk: &mut CatalogTotals,
    page: &Page<CodebaseFile>,
    totals: Option<(u32, i64)>,
)
    requires
        call_ensures(CatalogTotals::take, (walk, page), totals),
    ensures
        ({
            let last = page.items@.len() == 0 || 1000 * (old(walk).next_page() + 1) >= page.total;
            let sum = old(walk).sum() + total_size(page.items@);
            &&& final(walk).sum() == (if sum <= i64::MAX {
                sum
            } else {
                i64::MAX as int
            })
            &&& last ==> totals == Some((page.total, final(walk).sum()))
            &&& !last ==> totals is None && final(walk).next_page() == old(walk).next_page() + 1
        }),
{
    lemma_sizes_are_not_negative(page.items@);
    law_a_catalog_is_read_to_its_end(old(walk).next_page(), page.items@.len(), page.total);
}

/// A search is shown with its scores, its failures by name; a status says what is known
/// of its codebase.
pub proof fn law_searches_and_statuses_are_shown(
    reply: &Result<Vec<SearchHit>, String>,
    context: HitContext,
    expand: bool,
    stale: &Vec<String>,
    text: String,
    codebase: &Result<String, String>,
    totals: &Result<(u32, i64), String>,
    last: &Option<LastRun>,
    watching: bool,
    status: String,
)
    requires
        call_ensures(search, (reply, context, expand, stale), text),
        call_ensures(sync_status, (codebase, totals, last, watching), status),
    ensures
        match reply {
            Ok(hits) => if hits@.len() == 0 {
                text@ == "no results"@
            } else {
                text@ == Seq::new(
                    hits@.len(),
                    |i: int|
                        crate::query::render::shown_hit(
                            hits@,
                            HitStyle { context, show_score: true, full_body: expand },
                            texts(stale@),
                            i,
                        ),
                ).flatten()
            },
            Err(e) => text@ == "search"@ + " failed: "@ + e@,
        },
        match codebase {
            Ok(id) => status@ == status_text(id@, *totals, *last, watching),
            Err(e) => status@ == "sync_status"@ + " failed: "@ + e@,
        },
{
    let style = HitStyle { context, show_score: true, full_body: expand };
    if reply is Ok {
        crate::query::render::law_every_hit_is_shown(reply->Ok_0@, style, texts(stale@));
    }
}

/// What is stale is told exactly where there is a checkout and the catalog could be
/// read, and each path once.
pub proof fn law_stale_paths_are_told(
    root: Option<&str>,
    hits: &Vec<SearchHit>,
    catalog: &Result<TextMap<Option<String>>, String>,
    local: &TextMap<String>,
    stale: Vec<String>,
    path: Seq<char>,
)
    requires
        call_ensures(staleness, (root, hits, catalog, local), stale),
    ensures
        root is None || catalog is Err ==> !texts(stale@).contains(path),
        root is Some && catalog is Ok ==> (texts(stale@).contains(path) <==> is_flagged(
            path,
            hits@,
            catalog->Ok_0@,
            local@,
        )),
        texts(stale@).no_duplicates(),
{
    assert(texts(stale@).contains(path) <==> root is Some && (catalog matches Ok(hashes)
        && is_flagged(path, hits@, hashes@, local@)));
}

} // verus!
