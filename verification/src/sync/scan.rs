//! Complete scans: from candidate files to a manifest.

use vstd::prelude::*;
use vstd::string::*;

use crate::api::{EntryView, ManifestEntry};
use crate::digest::{content_hash, hash_text};
use crate::sync::cache::{decisions, kept, CachedContent};
use crate::sync::walker::{indexable, is_indexable};
use crate::text::{copy_text, decoded, optional, same, text_of_bytes};
use crate::textmap::TextMap;

verus! {

/// How much content a scan keeps for the upload, in bytes. Larger syncs reread
/// requested files and verify their hashes.
pub const RETAINED_CONTENT_BYTES: usize = 4194304;

/// Content read during a scan, with the hash of those exact bytes.
pub struct PreparedFile {
    pub content: String,
    pub hash: String,
}

impl PreparedFile {
    /// The hash is that of the content.
    pub open spec fn wf(self) -> bool {
        self.hash@ == content_hash(vstd::utf8::encode_utf8(self.content@))
    }

    pub fn new(content: String) -> (file: PreparedFile)
        ensures
            file.wf(),
            file.content@ == content@,
    {
        let hash = hash_text(content.as_str().as_bytes());
        PreparedFile { content, hash }
    }
}

/// The contents of a map of prepared files.
pub open spec fn contents(files: Map<Seq<char>, PreparedFile>) -> Map<Seq<char>, Seq<char>> {
    files.map_values(|f: PreparedFile| f.content@)
}

/// Whether the content filter accepts these bytes.
pub open spec fn is_worth(bytes: Seq<u8>) -> bool {
    decoded(bytes) matches Some(text) && indexable(text)
}

/// A scan in progress.
pub struct Scan {
    cache: TextMap<CachedContent>,
    manifest: Vec<ManifestEntry>,
    changed: TextMap<PreparedFile>,
    seen: TextMap<bool>,
    cached_files: usize,
    dirty: bool,
    retained: usize,
    /// Why the scan failed, once it has.
    fault: Option<String>,
}

pub struct ScanView {
    pub cache: Map<Seq<char>, (Seq<char>, bool)>,
    pub manifest: Seq<EntryView>,
    pub changed: Map<Seq<char>, Seq<char>>,
    pub seen: Set<Seq<char>>,
    pub cached_files: nat,
    pub dirty: bool,
    pub retained: nat,
    pub fault: Option<Seq<char>>,
}

pub open spec fn entry_views(manifest: Seq<ManifestEntry>) -> Seq<EntryView> {
    manifest.map_values(|e: ManifestEntry| e@)
}

impl View for Scan {
    type V = ScanView;

    closed spec fn view(&self) -> ScanView {
        ScanView {
            cache: decisions(self.cache@),
            manifest: entry_views(self.manifest@),
            changed: contents(self.changed@),
            seen: self.seen@.dom(),
            cached_files: self.cached_files as nat,
            dirty: self.dirty,
            retained: self.retained as nat,
            fault: optional(self.fault),
        }
    }
}

/// The manifest entry of a file with these bytes.
pub open spec fn entry_of(path: Seq<char>, bytes: Seq<u8>) -> EntryView {
    EntryView { path, hash: content_hash(bytes), size: bytes.len() as int }
}

impl ScanView {
    /// A scan that has seen nothing.
    pub open spec fn start(cache: Map<Seq<char>, (Seq<char>, bool)>) -> ScanView {
        ScanView {
            cache,
            manifest: seq![],
            changed: Map::empty(),
            seen: Set::empty(),
            cached_files: 0,
            dirty: false,
            retained: 0,
            fault: None,
        }
    }

    /// Whether there is a decision on exactly these bytes of a file.
    pub open spec fn has_decision(self, path: Seq<char>, bytes: Seq<u8>) -> bool {
        self.cache.dom().contains(path) && self.cache[path].0 == content_hash(bytes)
    }

    /// Whether a file goes into the manifest: by the decision on exactly these
    /// bytes, or else by the content filter.
    pub open spec fn accepts(self, path: Seq<char>, bytes: Seq<u8>) -> bool {
        if self.has_decision(path, bytes) {
            self.cache[path].1
        } else {
            is_worth(bytes)
        }
    }

    /// Whether the content of a file is kept for the upload.
    pub open spec fn retains(self, path: Seq<char>, bytes: Seq<u8>) -> bool {
        !self.has_decision(path, bytes) && is_worth(bytes) && self.retained + bytes.len()
            <= RETAINED_CONTENT_BYTES
    }

    /// The scan once it has read one more file.
    pub open spec fn read(self, path: Seq<char>, bytes: Seq<u8>) -> ScanView {
        let known = self.has_decision(path, bytes);
        let accepted = self.accepts(path, bytes);
        ScanView {
            cache: if known {
                self.cache
            } else {
                self.cache.insert(path, (content_hash(bytes), accepted))
            },
            manifest: if accepted {
                self.manifest.push(entry_of(path, bytes))
            } else {
                self.manifest
            },
            changed: if self.retains(path, bytes) {
                self.changed.insert(path, vstd::utf8::decode_utf8(bytes))
            } else {
                self.changed
            },
            seen: self.seen.insert(path),
            cached_files: if known && accepted {
                self.cached_files + 1
            } else {
                self.cached_files
            },
            dirty: self.dirty || !known,
            retained: if self.retains(path, bytes) {
                self.retained + bytes.len()
            } else {
                self.retained
            },
            fault: self.fault,
        }
    }

    /// The scan once it has taken one more candidate: a file that cannot be read
    /// or listed fails the scan, and a failed scan takes nothing more.
    pub open spec fn took(self, path: Seq<char>, bytes: Result<Vec<u8>, String>) -> ScanView {
        if self.fault is Some {
            self
        } else {
            let noted = ScanView { seen: self.seen.insert(path), ..self };
            match bytes {
                Err(e) => ScanView { fault: Some(e@), ..noted },
                Ok(b) => if self.accepts(path, b@) && b@.len() > i64::MAX {
                    ScanView {
                        fault: Some("source file size exceeds manifest limit"@),
                        ..noted
                    }
                } else {
                    self.read(path, b@)
                },
            }
        }
    }

    /// The manifest of a scan whose rules were verified at its end, or why there is
    /// none.
    pub open spec fn ended(self, verified: Result<(), String>) -> Result<
        Seq<EntryView>,
        Seq<char>,
    > {
        match (self.fault, verified) {
            (Some(fault), _) => Err(fault),
            (None, Err(e)) => Err(e@),
            (None, Ok(_)) => Ok(self.manifest),
        }
    }
}

/// What a scan gives.
pub struct ScanResult {
    pub manifest: Vec<ManifestEntry>,
    pub changed: TextMap<PreparedFile>,
    pub cached_files: usize,
    /// The decisions on the files that exist.
    pub cache: TextMap<CachedContent>,
    /// Whether the decisions differ from those the scan began with.
    pub dirty: bool,
}

/// How a scan ends.
pub enum ScanEnd {
    Done(ScanResult),
    /// There is no manifest. Every decision is kept, also those of this scan.
    Failed { reason: String, cache: TextMap<CachedContent> },
}

/// Every file of a map has the hash of its content.
pub open spec fn all_prepared(files: Map<Seq<char>, PreparedFile>) -> bool {
    forall|k: Seq<char>| #[trigger] files.dom().contains(k) ==> files[k].wf()
}

impl Scan {
    pub closed spec fn wf(self) -> bool {
        &&& self.cache.wf()
        &&& self.changed.wf()
        &&& self.seen.wf()
        &&& all_prepared(self.changed@)
        &&& self.retained <= RETAINED_CONTENT_BYTES
        &&& self.cached_files <= self.manifest@.len()
    }

    /// A scan that reuses these decisions.
    pub fn new(cache: TextMap<CachedContent>) -> (scan: Scan)
        requires
            cache.wf(),
        ensures
            scan.wf(),
            scan@ == ScanView::start(decisions(cache@)),
    {
        let scan = Scan {
            cache,
            manifest: Vec::new(),
            changed: TextMap::new(),
            seen: TextMap::new(),
            cached_files: 0,
            dirty: false,
            retained: 0,
            fault: None,
        };
        assert(scan@.manifest =~= seq![]);
        assert(scan@.changed =~= Map::empty());
        assert(scan@.seen =~= Set::empty());
        scan
    }

    /// Records that a file's bytes were judged.
    fn decide(&mut self, path: &str, hash: &str, accepted: bool)
        requires
            old(self).wf(),
        ensures
            final(self).wf(),
            final(self)@ == (ScanView {
                cache: old(self)@.cache.insert(path@, (hash@, accepted)),
                dirty: true,
                ..old(self)@
            }),
    {
        let ghost before = self.cache@;
        self.cache.insert(
            copy_text(path),
            CachedContent { hash: copy_text(hash), indexable: accepted },
        );
        self.dirty = true;
        assert(self@.cache =~= decisions(before).insert(path@, (hash@, accepted)));
    }

    /// Puts a file into the manifest.
    fn list(&mut self, path: &str, hash: String, size: i64)
        requires
            old(self).wf(),
        ensures
            final(self).wf(),
            final(self)@ == (ScanView {
                manifest: old(self)@.manifest.push(
                    EntryView { path: path@, hash: hash@, size: size as int },
                ),
                ..old(self)@
            }),
    {
        let ghost before = self.manifest@;
        self.manifest.push(ManifestEntry { path: copy_text(path), hash, size });
        assert(entry_views(self.manifest@) =~= entry_views(before).push(
            EntryView { path: path@, hash: hash@, size: size as int },
        ));
    }

    /// Takes one candidate, with what was read of it. Any failure ends the scan:
    /// a manifest is complete or there is none.
    pub fn read(&mut self, path: &str, bytes: &Result<Vec<u8>, String>) -> (read: Result<
        (),
        String,
    >)
        requires
            old(self).wf(),
        ensures
            final(self).wf(),
            final(self)@ == old(self)@.took(path@, *bytes),
            final(self)@.fault == match read {
                Ok(()) => None,
                Err(message) => Some(message@),
            },
    {
        match &self.fault {
            Some(fault) => return Err(copy_text(fault.as_str())),
            None => {},
        }
        let read = match bytes {
            Ok(bytes) => self.judge(path, bytes),
            Err(e) => {
                let ghost before = self@;
                self.seen.insert(copy_text(path), true);
                assert(self@.seen =~= before.seen.insert(path@));
                Err(copy_text(e.as_str()))
            },
        };
        match &read {
            Ok(()) => {},
            Err(message) => self.fault = Some(copy_text(message.as_str())),
        }
        read
    }

    /// Judges the bytes of one candidate. Cached decisions require an exact hash of
    /// the current bytes; this includes exclusions, so preserved timestamps cannot
    /// hide a file that became worth indexing.
    fn judge(&mut self, path: &str, bytes: &Vec<u8>) -> (read: Result<(), String>)
        requires
            old(self).wf(),
        ensures
            final(self).wf(),
            if old(self)@.accepts(path@, bytes@) && bytes@.len() > i64::MAX {
                &&& read matches Err(message) && message@
                    == "source file size exceeds manifest limit"@
                &&& final(self)@ == (ScanView {
                    seen: old(self)@.seen.insert(path@),
                    ..old(self)@
                })
            } else {
                read is Ok && final(self)@ == old(self)@.read(path@, bytes@)
            },
    {
        let ghost before = self@;
        self.seen.insert(copy_text(path), true);
        assert(self@.seen =~= before.seen.insert(path@));
        let hash = hash_text(bytes.as_slice());
        let too_large = bytes.len() as u64 > i64::MAX as u64;
        let known: Option<bool> = match self.cache.get(path) {
            Some(stamp) => {
                if same(stamp.hash.as_str(), hash.as_str()) {
                    Some(stamp.indexable)
                } else {
                    None
                }
            },
            None => None,
        };
        match known {
            Some(accepted) => {
                if accepted {
                    if too_large {
                        return Err(copy_text("source file size exceeds manifest limit"));
                    }
                    let ghost listed = self.manifest@.len();
                    assert(self@.manifest.len() == listed);
                    self.list(path, hash, bytes.len() as i64);
                    assert(self@.manifest.len() == self.manifest@.len());
                    let total: usize = self.manifest.len();
                    assert(self.cached_files < total);
                    self.cached_files = self.cached_files + 1;
                }
                assert(self@ == before.read(path@, bytes@));
                return Ok(());
            },
            None => {},
        }
        let content = match text_of_bytes(bytes.as_slice()) {
            Some(content) => content,
            None => {
                self.decide(path, hash.as_str(), false);
                assert(self@ == before.read(path@, bytes@));
                return Ok(());
            },
        };
        if !is_indexable(content.as_str()) {
            self.decide(path, hash.as_str(), false);
            assert(self@ == before.read(path@, bytes@));
            return Ok(());
        }
        if too_large {
            return Err(copy_text("source file size exceeds manifest limit"));
        }
        self.decide(path, hash.as_str(), true);
        self.list(path, copy_text(hash.as_str()), bytes.len() as i64);
        if bytes.len() <= RETAINED_CONTENT_BYTES - self.retained {
            let ghost changed_before = self.changed@;
            self.retained = self.retained + bytes.len();
            let prepared = PreparedFile { content, hash };
            assert(prepared.wf());
            self.changed.insert(copy_text(path), prepared);
            assert(self@.changed =~= contents(changed_before).insert(
                path@,
                vstd::utf8::decode_utf8(bytes@),
            ));
        }
        assert(self@ == before.read(path@, bytes@));
        Ok(())
    }

    /// Ends a scan, where its rules are still those it used. The decisions on files
    /// that vanished are dropped, so the cache cannot grow without bound.
    pub fn finish(self, verified: Result<(), String>) -> (end: ScanEnd)
        requires
            self.wf(),
        ensures
            match end {
                ScanEnd::Done(result) => {
                    &&& self@.ended(verified) == Ok::<Seq<EntryView>, Seq<char>>(
                        entry_views(result.manifest@),
                    )
                    &&& result.cache.wf()
                    &&& result.changed.wf()
                    &&& all_prepared(result.changed@)
                    &&& contents(result.changed@) == self@.changed
                    &&& result.cached_files == self@.cached_files
                    &&& decisions(result.cache@) == self@.cache.restrict(self@.seen)
                    &&& result.dirty == (self@.dirty || !self@.cache.dom().subset_of(self@.seen))
                },
                ScanEnd::Failed { reason, cache } => {
                    &&& self@.ended(verified) == Err::<Seq<EntryView>, Seq<char>>(reason@)
                    &&& cache.wf()
                    &&& decisions(cache@) == self@.cache
                },
            },
    {
        match (self.fault, verified) {
            (Some(reason), _) => return ScanEnd::Failed { reason, cache: self.cache },
            (None, Err(reason)) => return ScanEnd::Failed { reason, cache: self.cache },
            (None, Ok(())) => {},
        }
        let rest = kept(&self.cache, &self.seen);
        let before: usize = self.cache.len();
        let after: usize = rest.len();
        let dropped = before != after;
        proof {
            lemma_dropped(self.cache, rest, self.seen@.dom());
        }
        ScanEnd::Done(
            ScanResult {
                manifest: self.manifest,
                changed: self.changed,
                cached_files: self.cached_files,
                cache: rest,
                dirty: self.dirty || dropped,
            },
        )
    }
}

/// A candidate that cannot be read aborts the complete manifest: whatever is taken
/// after it and however the scan ends, there is none, and the reason is that of
/// the candidate.
pub proof fn law_a_failed_read_aborts_the_manifest(
    scan: ScanView,
    path: Seq<char>,
    reason: String,
    later: Seq<char>,
    bytes: Result<Vec<u8>, String>,
    verified: Result<(), String>,
)
    requires
        scan.fault is None,
    ensures
        scan.took(path, Err(reason)).ended(verified) == Err::<Seq<EntryView>, Seq<char>>(reason@),
        scan.took(path, Err(reason)).took(later, bytes) == scan.took(path, Err(reason)),
        scan.took(path, Err(reason)).cache == scan.cache,
{
}

/// A map that keeps some keys of another has as many keys only where it keeps
/// all of them.
proof fn lemma_dropped(
    all: TextMap<CachedContent>,
    rest: TextMap<CachedContent>,
    seen: Set<Seq<char>>,
)
    requires
        all.wf(),
        rest.wf(),
        decisions(rest@) == decisions(all@).restrict(seen),
    ensures
        all.listed().len() == rest.listed().len() <==> decisions(all@).dom().subset_of(seen),
{
    assert forall|k: Seq<char>| #[trigger] all.listed().contains(k) <==> all@.dom().contains(k) by {
        all.lemma_listed(k);
    }
    assert forall|k: Seq<char>| #[trigger] rest.listed().contains(k) <==> all@.dom().contains(k)
        && seen.contains(k) by {
        rest.lemma_listed(k);
        assert(rest@.dom().contains(k) <==> decisions(rest@).dom().contains(k));
    }
    all.lemma_listed(seq![]);
    rest.lemma_listed(seq![]);
    all.listed().unique_seq_to_set();
    rest.listed().unique_seq_to_set();
    let every = all.listed().to_set();
    let some = rest.listed().to_set();
    vstd::seq_lib::seq_to_set_is_finite(all.listed());
    vstd::seq_lib::seq_to_set_is_finite(rest.listed());
    assert(some.subset_of(every)) by {
        assert forall|k: Seq<char>| some.contains(k) implies every.contains(k) by {
            assert(rest.listed().contains(k));
            assert(all.listed().contains(k));
        }
    }
    if all.listed().len() == rest.listed().len() {
        vstd::set_lib::lemma_subset_equality(some, every);
        assert forall|k: Seq<char>| #[trigger]
            decisions(all@).dom().contains(k) implies seen.contains(k) by {
            assert(all.listed().contains(k));
            assert(every.contains(k));
            assert(rest.listed().contains(k));
        }
    } else if decisions(all@).dom().subset_of(seen) {
        assert(some =~= every) by {
            assert forall|k: Seq<char>| every.contains(k) implies some.contains(k) by {
                assert(all.listed().contains(k));
                assert(decisions(all@).dom().contains(k));
                assert(rest.listed().contains(k));
            }
        }
    }
}

/// A scan once it has read some files, in order.
pub open spec fn scanned(start: ScanView, files: Seq<(Seq<char>, Seq<u8>)>) -> ScanView
    decreases files.len(),
{
    if files.len() == 0 {
        start
    } else {
        scanned(start, files.drop_last()).read(files.last().0, files.last().1)
    }
}

/// Whether no path occurs twice.
pub open spec fn distinct_paths(files: Seq<(Seq<char>, Seq<u8>)>) -> bool {
    forall|i: int, j: int|
        0 <= i < j < files.len() ==> (#[trigger] files[i]).0 != (#[trigger] files[j]).0
}

/// Whether every decision was made on bytes with its exact hash.
pub open spec fn witnessed(cache: Map<Seq<char>, (Seq<char>, bool)>) -> bool {
    forall|path: Seq<char>| #[trigger]
        cache.dom().contains(path) ==> exists|bytes: Seq<u8>|
            content_hash(bytes) == cache[path].0 && #[trigger] is_worth(bytes) == cache[path].1
}

/// Every decision that a scan keeps was made by the content filter on bytes with
/// exactly the hash it is kept under.
pub proof fn law_decisions_are_witnessed(start: ScanView, files: Seq<(Seq<char>, Seq<u8>)>)
    requires
        witnessed(start.cache),
    ensures
        witnessed(scanned(start, files).cache),
    decreases files.len(),
{
    if files.len() > 0 {
        law_decisions_are_witnessed(start, files.drop_last());
        let before = scanned(start, files.drop_last());
        let (path, bytes) = files.last();
        let after = before.read(path, bytes);
        assert forall|p: Seq<char>| #[trigger]
            after.cache.dom().contains(p) implies exists|b: Seq<u8>|
            content_hash(b) == after.cache[p].0 && #[trigger] is_worth(b) == after.cache[p].1 by {
            if p == path && !before.has_decision(path, bytes) {
                assert(content_hash(bytes) == after.cache[p].0 && is_worth(bytes)
                    == after.cache[p].1);
            } else {
                assert(before.cache.dom().contains(p));
            }
        }
    }
}

/// A scan keeps a bounded amount of content, whatever the checkout holds.
pub proof fn law_retained_content_is_bounded(start: ScanView, files: Seq<(Seq<char>, Seq<u8>)>)
    requires
        start.retained <= RETAINED_CONTENT_BYTES,
    ensures
        scanned(start, files).retained <= RETAINED_CONTENT_BYTES,
    decreases files.len(),
{
    if files.len() > 0 {
        law_retained_content_is_bounded(start, files.drop_last());
    }
}

/// What a scan of different paths knows of each of them afterwards: a decision
/// on exactly the bytes it read, and its manifest entry where it was accepted.
proof fn lemma_scanned(
    cache: Map<Seq<char>, (Seq<char>, bool)>,
    files: Seq<(Seq<char>, Seq<u8>)>,
)
    requires
        distinct_paths(files),
    ensures
        ({
            let end = scanned(ScanView::start(cache), files);
            &&& forall|p: Seq<char>| #[trigger]
                end.seen.contains(p) <==> exists|i: int|
                    0 <= i < files.len() && (#[trigger] files[i]).0 == p
            &&& forall|p: Seq<char>|
                !end.seen.contains(p) ==> (#[trigger] end.cache.dom().contains(p)
                    == cache.dom().contains(p)) && end.cache[p] == cache[p]
            &&& forall|i: int|
                0 <= i < files.len() ==> end.has_decision(
                    (#[trigger] files[i]).0,
                    files[i].1,
                ) && end.cache[files[i].0].1 == ScanView::start(cache).accepts(
                    files[i].0,
                    files[i].1,
                )
        }),
    decreases files.len(),
{
    if files.len() > 0 {
        let fewer = files.drop_last();
        assert(distinct_paths(fewer)) by {
            assert forall|i: int, j: int| 0 <= i < j < fewer.len() implies (
            #[trigger] fewer[i]).0 != (#[trigger] fewer[j]).0 by {
                assert(fewer[i] == files[i] && fewer[j] == files[j]);
            }
        }
        lemma_scanned(cache, fewer);
        let before = scanned(ScanView::start(cache), fewer);
        let end = scanned(ScanView::start(cache), files);
        let last = files.len() - 1;
        let (path, bytes) = files[last];
        assert(!before.seen.contains(path)) by {
            if before.seen.contains(path) {
                let i = choose|i: int| 0 <= i < fewer.len() && (#[trigger] fewer[i]).0 == path;
                assert(files[i].0 != files[last].0);
            }
        }
        assert forall|p: Seq<char>| #[trigger]
            end.seen.contains(p) <==> exists|i: int|
                0 <= i < files.len() && (#[trigger] files[i]).0 == p by {
            if before.seen.contains(p) {
                let i = choose|i: int| 0 <= i < fewer.len() && (#[trigger] fewer[i]).0 == p;
                assert(files[i].0 == p);
            }
            if p == path {
                assert(files[last].0 == p);
            }
            if exists|i: int| 0 <= i < files.len() && (#[trigger] files[i]).0 == p {
                let i = choose|i: int| 0 <= i < files.len() && (#[trigger] files[i]).0 == p;
                if i < last {
                    assert(fewer[i].0 == p);
                }
            }
        }
        assert forall|i: int| 0 <= i < files.len() implies end.has_decision(
            (#[trigger] files[i]).0,
            files[i].1,
        ) && end.cache[files[i].0].1 == ScanView::start(cache).accepts(files[i].0, files[i].1) by {
            if i < last {
                assert(fewer[i] == files[i]);
                assert(files[i].0 != files[last].0);
            } else {
                assert(before.cache.dom().contains(path) == cache.dom().contains(path));
            }
        }
    }
}

/// The manifest entries of the files that a scan from `cache` accepts.
pub open spec fn accepted_entries(
    cache: Map<Seq<char>, (Seq<char>, bool)>,
    files: Seq<(Seq<char>, Seq<u8>)>,
) -> Seq<EntryView>
    decreases files.len(),
{
    if files.len() == 0 {
        seq![]
    } else {
        let before = accepted_entries(cache, files.drop_last());
        let (path, bytes) = files.last();
        if ScanView::start(cache).accepts(path, bytes) {
            before.push(entry_of(path, bytes))
        } else {
            before
        }
    }
}

/// The manifest lists exactly the files that are accepted, each with the hash
/// and the size of the bytes that were read, in the order they were read.
pub proof fn law_the_manifest_lists_what_was_read(
    cache: Map<Seq<char>, (Seq<char>, bool)>,
    files: Seq<(Seq<char>, Seq<u8>)>,
)
    requires
        distinct_paths(files),
    ensures
        scanned(ScanView::start(cache), files).manifest == accepted_entries(cache, files),
    decreases files.len(),
{
    if files.len() > 0 {
        let fewer = files.drop_last();
        assert(distinct_paths(fewer)) by {
            assert forall|i: int, j: int| 0 <= i < j < fewer.len() implies (
            #[trigger] fewer[i]).0 != (#[trigger] fewer[j]).0 by {
                assert(fewer[i] == files[i] && fewer[j] == files[j]);
            }
        }
        law_the_manifest_lists_what_was_read(cache, fewer);
        lemma_scanned(cache, fewer);
        let before = scanned(ScanView::start(cache), fewer);
        let last = files.len() - 1;
        let (path, bytes) = files[last];
        assert(!before.seen.contains(path)) by {
            if before.seen.contains(path) {
                let i = choose|i: int| 0 <= i < fewer.len() && (#[trigger] fewer[i]).0 == path;
                assert(files[i].0 != files[last].0);
            }
        }
        assert(before.cache.dom().contains(path) == cache.dom().contains(path));
    }
}

/// A repeated scan of unchanged files reuses every decision: it gives the same
/// manifest, every entry of it from the cache, reads nothing anew, and leaves
/// the cache as it was.
pub proof fn law_a_repeated_scan_reuses_decisions(
    cache: Map<Seq<char>, (Seq<char>, bool)>,
    files: Seq<(Seq<char>, Seq<u8>)>,
)
    requires
        distinct_paths(files),
    ensures
        ({
            let first = scanned(ScanView::start(cache), files);
            let kept = first.cache.restrict(first.seen);
            let second = scanned(ScanView::start(kept), files);
            &&& second.manifest == first.manifest
            &&& second.changed == Map::<Seq<char>, Seq<char>>::empty()
            &&& second.cached_files == second.manifest.len()
            &&& !second.dirty
            &&& second.cache == kept
        }),
{
    let first = scanned(ScanView::start(cache), files);
    let kept = first.cache.restrict(first.seen);
    lemma_scanned(cache, files);
    assert forall|i: int| 0 <= i < files.len() implies kept.dom().contains((#[trigger] files[i]).0)
        && kept[files[i].0].0 == content_hash(files[i].1) && kept[files[i].0].1
        == ScanView::start(cache).accepts(files[i].0, files[i].1) by {
        assert(first.has_decision(files[i].0, files[i].1));
        assert(first.seen.contains(files[i].0));
    }
    lemma_known_files(cache, kept, files);
    law_the_manifest_lists_what_was_read(cache, files);
}

/// A scan of files on which everything is decided.
proof fn lemma_known_files(
    cache: Map<Seq<char>, (Seq<char>, bool)>,
    kept: Map<Seq<char>, (Seq<char>, bool)>,
    files: Seq<(Seq<char>, Seq<u8>)>,
)
    requires
        forall|i: int|
            0 <= i < files.len() ==> kept.dom().contains((#[trigger] files[i]).0)
                && kept[files[i].0].0 == content_hash(files[i].1) && kept[files[i].0].1
                == ScanView::start(cache).accepts(files[i].0, files[i].1),
    ensures
        ({
            let second = scanned(ScanView::start(kept), files);
            &&& second.manifest == accepted_entries(cache, files)
            &&& second.changed == Map::<Seq<char>, Seq<char>>::empty()
            &&& second.cached_files == second.manifest.len()
            &&& !second.dirty
            &&& second.cache == kept
        }),
    decreases files.len(),
{
    if files.len() > 0 {
        let fewer = files.drop_last();
        assert forall|i: int| 0 <= i < fewer.len() implies kept.dom().contains(
            (#[trigger] fewer[i]).0,
        ) && kept[fewer[i].0].0 == content_hash(fewer[i].1) && kept[fewer[i].0].1
            == ScanView::start(cache).accepts(fewer[i].0, fewer[i].1) by {
            assert(fewer[i] == files[i]);
        }
        lemma_known_files(cache, kept, fewer);
        let before = scanned(ScanView::start(kept), fewer);
        let last = files[files.len() - 1];
        assert(before.has_decision(last.0, last.1));
    }
}

/// Whether a file belongs into the manifest: the decision on exactly these bytes
/// says so where there is one, and otherwise it is a text that is worth indexing.
pub open spec fn is_wanted(
    cache: Map<Seq<char>, (Seq<char>, bool)>,
    path: Seq<char>,
    bytes: Seq<u8>,
) -> bool {
    if cache.dom().contains(path) && cache[path].0 == content_hash(bytes) {
        cache[path].1
    } else {
        decoded(bytes) matches Some(text) && indexable(text)
    }
}

/// A file that was read changes a scan in its own place and nowhere else. Where it
/// is wanted, one entry goes behind the manifest, with the path, the hash of the
/// bytes and their number. The decision on it is kept under the hash of the bytes.
/// Its content is kept for the upload exactly where it was judged anew, is wanted
/// and fits into what may be kept. A wanted file without a new judgement counts as
/// cached.
pub proof fn law_a_read_file_is_listed_as_it_was_read(
    scan: ScanView,
    path: Seq<char>,
    bytes: Vec<u8>,
)
    requires
        scan.fault is None,
        bytes@.len() <= i64::MAX,
    ensures
        ({
            let after = scan.took(path, Ok(bytes));
            let known = scan.cache.dom().contains(path) && scan.cache[path].0 == content_hash(
                bytes@,
            );
            let wanted = is_wanted(scan.cache, path, bytes@);
            let keeps = wanted && !known && scan.retained + bytes@.len() <= 4194304;
            &&& after.fault is None
            &&& wanted ==> {
                &&& after.manifest.len() == scan.manifest.len() + 1
                &&& after.manifest.take(scan.manifest.len() as int) == scan.manifest
                &&& after.manifest.last().path == path
                &&& after.manifest.last().hash == content_hash(bytes@)
                &&& after.manifest.last().size == bytes@.len()
            }
            &&& !wanted ==> after.manifest == scan.manifest
            &&& after.cache.dom().contains(path)
            &&& after.cache[path] == (content_hash(bytes@), wanted)
            &&& forall|other: Seq<char>|
                other != path ==> (#[trigger] after.cache.dom().contains(other)
                    == scan.cache.dom().contains(other)) && after.cache[other]
                    == scan.cache[other]
            &&& forall|other: Seq<char>|
                #[trigger] after.seen.contains(other) == (other == path || scan.seen.contains(other))
            &&& after.dirty == (scan.dirty || !known)
            &&& after.cached_files == scan.cached_files + if known && wanted { 1nat } else { 0nat }
            &&& after.retained == scan.retained + if keeps { bytes@.len() } else { 0nat }
            &&& keeps ==> after.changed.dom().contains(path) && after.changed[path]
                == vstd::utf8::decode_utf8(bytes@)
            &&& !keeps ==> after.changed == scan.changed
            &&& forall|other: Seq<char>|
                other != path ==> (#[trigger] after.changed.dom().contains(other)
                    == scan.changed.dom().contains(other)) && after.changed[other]
                    == scan.changed[other]
        }),
{
    let after = scan.took(path, Ok(bytes));
    if scan.accepts(path, bytes@) {
        assert(after.manifest.take(scan.manifest.len() as int) =~= scan.manifest);
    }
}

/// A scan once it has taken some files that could be read, in order.
pub open spec fn after_taking(start: ScanView, files: Seq<(Seq<char>, Vec<u8>)>) -> ScanView
    decreases files.len(),
{
    if files.len() == 0 {
        start
    } else {
        after_taking(start, files.drop_last()).took(files.last().0, Ok(files.last().1))
    }
}

proof fn lemma_taken_is_scanned(
    cache: Map<Seq<char>, (Seq<char>, bool)>,
    files: Seq<(Seq<char>, Vec<u8>)>,
)
    requires
        forall|i: int| 0 <= i < files.len() ==> (#[trigger] files[i]).1@.len() <= i64::MAX,
    ensures
        ({
            let views = files.map_values(|f: (Seq<char>, Vec<u8>)| (f.0, f.1@));
            let end = after_taking(ScanView::start(cache), files);
            &&& end == scanned(ScanView::start(cache), views)
            &&& end.fault is None
        }),
    decreases files.len(),
{
    let view = |f: (Seq<char>, Vec<u8>)| (f.0, f.1@);
    if files.len() > 0 {
        let fewer = files.drop_last();
        assert forall|i: int| 0 <= i < fewer.len() implies (#[trigger] fewer[i]).1@.len()
            <= i64::MAX by {
            assert(fewer[i] == files[i]);
        }
        lemma_taken_is_scanned(cache, fewer);
        assert(files.map_values(view).drop_last() =~= fewer.map_values(view));
        assert(files[files.len() - 1].1@.len() <= i64::MAX);
    }
}

proof fn lemma_wanted_entries(
    cache: Map<Seq<char>, (Seq<char>, bool)>,
    files: Seq<(Seq<char>, Vec<u8>)>,
)
    ensures
        ({
            let views = files.map_values(|f: (Seq<char>, Vec<u8>)| (f.0, f.1@));
            let wanted = files.filter(|f: (Seq<char>, Vec<u8>)| is_wanted(cache, f.0, f.1@));
            let entries = accepted_entries(cache, views);
            &&& entries.len() == wanted.len()
            &&& forall|j: int|
                #![trigger entries[j]]
                0 <= j < wanted.len() ==> entries[j].path == wanted[j].0 && entries[j].hash
                    == content_hash(wanted[j].1@) && entries[j].size == wanted[j].1@.len()
        }),
    decreases files.len(),
{
    let view = |f: (Seq<char>, Vec<u8>)| (f.0, f.1@);
    let want = |f: (Seq<char>, Vec<u8>)| is_wanted(cache, f.0, f.1@);
    reveal(Seq::filter);
    if files.len() > 0 {
        let fewer = files.drop_last();
        lemma_wanted_entries(cache, fewer);
        let views = files.map_values(view);
        assert(views.drop_last() =~= fewer.map_values(view));
        assert(views.last() == view(files.last()));
    }
}

/// A complete scan gives the manifest of exactly the files that are wanted, in the
/// order in which they were read: its entries are, one for one, those files, each
/// with its path, the hash of its bytes and how many bytes were read of it.
/// Afterwards there is a decision on every file that was read, under the hash of
/// its bytes, and on no other once the rest is dropped.
pub proof fn law_a_complete_scan_lists_every_wanted_file(
    cache: Map<Seq<char>, (Seq<char>, bool)>,
    files: Seq<(Seq<char>, Vec<u8>)>,
)
    requires
        forall|i: int, j: int|
            0 <= i < j < files.len() ==> (#[trigger] files[i]).0 != (#[trigger] files[j]).0,
        forall|i: int| 0 <= i < files.len() ==> (#[trigger] files[i]).1@.len() <= i64::MAX,
    ensures
        ({
            let end = after_taking(ScanView::start(cache), files);
            let wanted = files.filter(|f: (Seq<char>, Vec<u8>)| is_wanted(cache, f.0, f.1@));
            let kept = end.cache.restrict(end.seen);
            &&& end.ended(Ok(())) is Ok
            &&& end.ended(Ok(()))->Ok_0.len() == wanted.len()
            &&& forall|j: int|
                0 <= j < wanted.len() ==> {
                    let entry = #[trigger] end.ended(Ok(()))->Ok_0[j];
                    &&& entry.path == wanted[j].0
                    &&& entry.hash == content_hash(wanted[j].1@)
                    &&& entry.size == wanted[j].1@.len()
                }
            &&& forall|i: int|
                0 <= i < files.len() ==> kept.dom().contains((#[trigger] files[i]).0)
                    && kept[files[i].0] == (
                    content_hash(files[i].1@),
                    is_wanted(cache, files[i].0, files[i].1@),
                )
            &&& forall|path: Seq<char>| #[trigger]
                kept.dom().contains(path) ==> exists|i: int|
                    0 <= i < files.len() && (#[trigger] files[i]).0 == path
        }),
{
    let view = |f: (Seq<char>, Vec<u8>)| (f.0, f.1@);
    let views = files.map_values(view);
    assert(distinct_paths(views)) by {
        assert forall|i: int, j: int| 0 <= i < j < views.len() implies (#[trigger] views[i]).0 != (
        #[trigger] views[j]).0 by {
            assert(files[i].0 != files[j].0);
        }
    }
    lemma_taken_is_scanned(cache, files);
    lemma_wanted_entries(cache, files);
    law_the_manifest_lists_what_was_read(cache, views);
    lemma_scanned(cache, views);
    let end = after_taking(ScanView::start(cache), files);
    let kept = end.cache.restrict(end.seen);
    assert forall|i: int| 0 <= i < files.len() implies kept.dom().contains((#[trigger] files[i]).0)
        && kept[files[i].0] == (
        content_hash(files[i].1@),
        is_wanted(cache, files[i].0, files[i].1@),
    ) by {
        assert(views[i] == (files[i].0, files[i].1@));
        assert(end.seen.contains(files[i].0));
        assert(end.has_decision(views[i].0, views[i].1));
    }
    assert forall|path: Seq<char>| #[trigger] kept.dom().contains(path) implies exists|i: int|
        0 <= i < files.len() && (#[trigger] files[i]).0 == path by {
        assert(end.seen.contains(path));
        let i = choose|i: int| 0 <= i < views.len() && (#[trigger] views[i]).0 == path;
        assert(files[i].0 == path);
    }
}

/// A call of `read` on a file that is wanted adds one entry behind those of the scan,
/// with the file's path, the hash of its bytes and their number; a file that is not
/// wanted adds none. What cannot be read, or listed, ends the scan with its reason.
pub proof fn law_reading_lists_the_file(
    scan: &mut Scan,
    path: &str,
    bytes: &Result<Vec<u8>, String>,
    read: Result<(), String>,
)
    requires
        call_ensures(Scan::read, (scan, path, bytes), read),
        old(scan)@.fault is None,
    ensures
        bytes matches Err(e) ==> (read matches Err(message) && message@ == e@) && final(scan)@.manifest == old(scan)@.manifest && final(scan)@.cache == old(scan)@.cache,
        bytes matches Ok(b) ==> {
            let wanted = is_wanted(old(scan)@.cache, path@, b@);
            &&& wanted && b@.len() <= i64::MAX ==> read is Ok && final(scan)@.manifest == old(scan)@.manifest + seq![
                EntryView { path: path@, hash: content_hash(b@), size: b@.len() as int },
            ]
            &&& wanted && b@.len() > i64::MAX ==> read is Err && final(scan)@.manifest == old(scan)@.manifest
            &&& !wanted ==> read is Ok && final(scan)@.manifest == old(scan)@.manifest
        },
{
    match bytes {
        Ok(b) => {
            let wanted = is_wanted(old(scan)@.cache, path@, b@);
            assert(old(scan)@.accepts(path@, b@) == wanted);
            if wanted && b@.len() <= i64::MAX {
                assert(old(scan)@.manifest.push(entry_of(path@, b@)) =~= old(scan)@.manifest + seq![
                    EntryView { path: path@, hash: content_hash(b@), size: b@.len() as int },
                ]);
            }
        },
        Err(_) => {},
    }
}

/// A scan that ends well hands out its whole manifest, what it kept of the contents,
/// and the decisions on the files that it saw; one that failed hands out no manifest
/// and every decision.
pub proof fn law_finishing_hands_out_the_scan(
    scan: Scan,
    verified: Result<(), String>,
    end: ScanEnd,
)
    requires
        call_ensures(Scan::finish, (scan, verified), end),
    ensures
        scan@.fault is None && verified is Ok ==> (end matches ScanEnd::Done(result) && {
            &&& result.manifest@.len() == scan@.manifest.len()
            &&& forall|i: int|
                0 <= i < result.manifest@.len() ==> {
                    &&& (#[trigger] result.manifest@[i]).path@ == scan@.manifest[i].path
                    &&& result.manifest@[i].hash@ == scan@.manifest[i].hash
                    &&& result.manifest@[i].size == scan@.manifest[i].size
                }
            &&& contents(result.changed@) == scan@.changed
            &&& result.cached_files == scan@.cached_files
            &&& forall|path: Seq<char>| #[trigger]
                decisions(result.cache@).dom().contains(path) <==> scan@.cache.dom().contains(path)
                    && scan@.seen.contains(path)
        }),
        scan@.fault matches Some(fault) ==> (end matches ScanEnd::Failed { reason, cache }
            && reason@ == fault && decisions(cache@) == scan@.cache),
        scan@.fault is None ==> (verified matches Err(e) ==> (end matches ScanEnd::Failed {
            reason,
            cache,
        } && reason@ == e@)),
{
    if scan@.fault is None && verified is Ok {
        let result = end->Done_0;
        let views = entry_views(result.manifest@);
        assert(views == scan@.manifest);
        assert forall|i: int| 0 <= i < result.manifest@.len() implies {
            &&& (#[trigger] result.manifest@[i]).path@ == scan@.manifest[i].path
            &&& result.manifest@[i].hash@ == scan@.manifest[i].hash
            &&& result.manifest@[i].size == scan@.manifest[i].size
        } by {
            assert(views[i] == result.manifest@[i]@);
        }
    }
}

} // verus!
