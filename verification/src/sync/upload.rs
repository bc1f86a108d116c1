//! Authorized, bounded uploads for one submitted manifest.

use vstd::prelude::*;
use vstd::string::*;

use crate::api::{EntryView, ManifestEntry, SyncFileContent};
use crate::digest::content_hash;
use crate::sync::policy::git::optional_bytes;
use crate::sync::SyncProgress;
use crate::sync::scan::{all_prepared, contents, entry_views, PreparedFile};
use crate::sync::walker::has_uploadable_content;
use crate::text::{
    copy_text, decimal, decimal_text, decoded, is_blank, optional, same, text_of_bytes, texts,
};
use crate::textmap::TextMap;

verus! {

pub const UPLOAD_BATCH_BYTES: usize = 4194304;

pub const UPLOAD_BATCH_FILES: usize = 256;

pub const UPLOAD_PARALLEL_REQUESTS: usize = 4;

/// The entries of a manifest by path; of two with one path the later counts.
pub open spec fn manifest_map(manifest: Seq<EntryView>) -> Map<Seq<char>, EntryView>
    decreases manifest.len(),
{
    if manifest.len() == 0 {
        Map::empty()
    } else {
        manifest_map(manifest.drop_last()).insert(manifest.last().path, manifest.last())
    }
}

/// Whether the first `n` requested paths are in the manifest and different.
pub open spec fn requests_allowed(
    needed: Seq<Seq<char>>,
    manifest: Map<Seq<char>, EntryView>,
    n: int,
) -> bool {
    &&& forall|i: int| 0 <= i < n ==> manifest.dom().contains(#[trigger] needed[i])
    &&& forall|i: int, j: int| 0 <= i < j < n ==> #[trigger] needed[i] != #[trigger] needed[j]
}

/// Whether a request is the first that is not in the manifest or that repeats
/// an earlier one.
pub open spec fn first_refused(
    needed: Seq<Seq<char>>,
    manifest: Map<Seq<char>, EntryView>,
    at: int,
) -> bool {
    &&& 0 <= at < needed.len()
    &&& requests_allowed(needed, manifest, at)
    &&& !requests_allowed(needed, manifest, at + 1)
}

/// What is said of a request that is refused.
pub open spec fn refused_message(path: Seq<char>) -> Seq<char> {
    "sync requested an unknown or duplicate manifest path: "@ + path
}

/// The files that are still to be uploaded: only entries of the submitted
/// manifest can become one.
pub struct Files {
    pending: Vec<ManifestEntry>,
    /// How many of the pending entries are done.
    done: usize,
    changed: TextMap<PreparedFile>,
}

pub struct FilesView {
    pub pending: Seq<EntryView>,
    pub changed: Map<Seq<char>, Seq<char>>,
}

impl View for Files {
    type V = FilesView;

    closed spec fn view(&self) -> FilesView {
        FilesView {
            pending: entry_views(self.pending@).skip(self.done as int),
            changed: contents(self.changed@),
        }
    }
}

/// Whether one more file of this size fits into a batch. A batch always takes
/// its first file.
pub open spec fn fits(count: nat, bytes: nat, size: int) -> bool {
    count == 0 || (count < UPLOAD_BATCH_FILES && bytes + size <= UPLOAD_BATCH_BYTES)
}

/// Why a file's content may not be uploaded, where it may not: it has to be what
/// the manifest says, and the server rejects blank content.
pub open spec fn content_fault(entry: EntryView, content: Option<Seq<char>>) -> Option<Seq<char>> {
    match content {
        None => Some(entry.path + " became non-UTF-8 after the manifest scan"@),
        Some(text) => if content_hash(vstd::utf8::encode_utf8(text)) != entry.hash {
            Some(entry.path + " changed after the manifest scan; retry sync"@)
        } else if is_blank(text) {
            Some(entry.path + " became blank after the manifest scan"@)
        } else {
            None
        },
    }
}

/// The content of a file that is uploaded: what the scan retained, or else what
/// was read again.
pub open spec fn upload_content(
    changed: Map<Seq<char>, Seq<char>>,
    path: Seq<char>,
    reread: Option<Seq<u8>>,
) -> Option<Seq<char>> {
    if changed.dom().contains(path) {
        Some(changed[path])
    } else {
        match reread {
            Some(bytes) => decoded(bytes),
            None => None,
        }
    }
}

impl Files {
    /// Every file of the upload, and how many of them are done.
    pub closed spec fn all(self) -> Seq<EntryView> {
        entry_views(self.pending@)
    }

    pub closed spec fn taken(self) -> nat {
        self.done as nat
    }

    pub closed spec fn wf(self) -> bool {
        &&& self.done <= self.pending@.len()
        &&& self.changed.wf()
        &&& all_prepared(self.changed@)
    }

    /// The files that the server asks for, in its order. A path that is not in
    /// the submitted manifest, or that is asked for twice, is refused.
    pub fn new(
        needed: &Vec<String>,
        manifest: &Vec<ManifestEntry>,
        changed: TextMap<PreparedFile>,
    ) -> (files: Result<Files, String>)
        requires
            changed.wf(),
            all_prepared(changed@),
        ensures
            match files {
                Ok(f) => {
                    let allowed = manifest_map(entry_views(manifest@));
                    &&& f.wf()
                    &&& requests_allowed(texts(needed@), allowed, needed@.len() as int)
                    &&& f@.pending == texts(needed@).map_values(|p: Seq<char>| allowed[p])
                    &&& f@.changed == contents(changed@)
                },
                Err(message) => exists|at: int|
                    #[trigger] first_refused(
                        texts(needed@),
                        manifest_map(entry_views(manifest@)),
                        at,
                    ) && message@ == refused_message(texts(needed@)[at]),
            },
    {
        let ghost entries = entry_views(manifest@);
        let ghost all = manifest_map(entries);
        let ghost wanted = texts(needed@);
        let mut allowed: TextMap<usize> = TextMap::new();
        let mut i: usize = 0;
        assert(entries.take(0) =~= Seq::<EntryView>::empty());
        while i < manifest.len()
            invariant
                i <= manifest@.len(),
                entries == entry_views(manifest@),
                allowed.wf(),
                forall|p: Seq<char>| #[trigger]
                    allowed@.dom().contains(p) <==> manifest_map(
                        entries.take(i as int),
                    ).dom().contains(p),
                forall|p: Seq<char>| #[trigger]
                    allowed@.dom().contains(p) ==> allowed@[p] < manifest@.len()
                        && entries[allowed@[p] as int] == manifest_map(entries.take(i as int))[p],
            decreases manifest@.len() - i,
        {
            let ghost before = allowed@;
            assert(entries.take(i + 1).drop_last() =~= entries.take(i as int));
            assert(entries.take(i + 1).last() == manifest@[i as int]@);
            assert(entries[i as int] == manifest@[i as int]@);
            allowed.insert(copy_text(manifest[i].path.as_str()), i);
            assert forall|p: Seq<char>| #[trigger] allowed@.dom().contains(p) implies allowed@[p]
                < manifest@.len() && entries[allowed@[p] as int] == manifest_map(
                entries.take(i + 1),
            )[p] by {
                if p != manifest@[i as int].path@ {
                    assert(before.dom().contains(p));
                }
            }
            i = i + 1;
        }
        assert(entries.take(i as int) =~= entries);
        let ghost every = allowed@;
        let mut pending: Vec<ManifestEntry> = Vec::new();
        i = 0;
        while i < needed.len()
            invariant
                i <= needed@.len(),
                entries == entry_views(manifest@),
                all == manifest_map(entries),
                wanted == texts(needed@),
                allowed.wf(),
                forall|p: Seq<char>| #[trigger] every.dom().contains(p) <==> all.dom().contains(p),
                forall|p: Seq<char>| #[trigger]
                    every.dom().contains(p) ==> every[p] < manifest@.len()
                        && entries[every[p] as int] == all[p],
                forall|p: Seq<char>| #[trigger]
                    allowed@.dom().contains(p) <==> every.dom().contains(p) && forall|k: int|
                        0 <= k < i ==> wanted[k] != p,
                forall|p: Seq<char>| #[trigger]
                    allowed@.dom().contains(p) ==> allowed@[p] == every[p],
                requests_allowed(wanted, all, i as int),
                pending@.len() == i,
                forall|k: int| 0 <= k < i ==> (#[trigger] pending@[k])@ == all[wanted[k]],
            decreases needed@.len() - i,
        {
            let path = needed[i].as_str();
            assert(wanted[i as int] == path@);
            let ghost before = allowed@;
            match allowed.remove(path) {
                Some(at) => {
                    assert(before.dom().contains(path@));
                    let entry = &manifest[at];
                    assert(entries[at as int] == entry@);
                    pending.push(
                        ManifestEntry {
                            path: copy_text(entry.path.as_str()),
                            hash: copy_text(entry.hash.as_str()),
                            size: entry.size,
                        },
                    );
                    assert(requests_allowed(wanted, all, i + 1));
                },
                None => {
                    let mut message = copy_text(
                        "sync requested an unknown or duplicate manifest path: ",
                    );
                    message.push_str(path);
                    proof {
                        assert(!before.dom().contains(path@));
                        if requests_allowed(wanted, all, i + 1) {
                            assert(all.dom().contains(wanted[i as int]));
                            assert(every.dom().contains(path@));
                            assert forall|k: int| 0 <= k < i implies wanted[k] != path@ by {
                                assert(wanted[k] != wanted[i as int]);
                            }
                        }
                        assert(first_refused(wanted, all, i as int));
                    }
                    return Err(message);
                },
            }
            i = i + 1;
        }
        let files = Files { pending, done: 0, changed };
        assert(files@.pending =~= wanted.map_values(|p: Seq<char>| all[p]));
        Ok(files)
    }

    /// How many files are still to be uploaded.
    pub fn remaining(&self) -> (count: usize)
        requires
            self.wf(),
        ensures
            count == self@.pending.len(),
    {
        self.pending.len() - self.done
    }

    /// Takes the content of the next file: what the scan retained, or else
    /// `reread`, which was read again.
    fn take(&mut self, reread: Option<Vec<u8>>) -> (taken: Result<SyncFileContent, String>)
        requires
            old(self).wf(),
            old(self)@.pending.len() > 0,
        ensures
            final(self).wf(),
            final(self).all() == old(self).all(),
            final(self)@.changed == old(self)@.changed.remove(old(self)@.pending[0].path),
            ({
                let entry = old(self)@.pending[0];
                let content = upload_content(
                    old(self)@.changed,
                    entry.path,
                    optional_bytes(reread),
                );
                match content_fault(entry, content) {
                    Some(fault) => {
                        &&& taken matches Err(message) && message@ == fault
                        &&& final(self).taken() == old(self).taken()
                    },
                    None => {
                        &&& taken matches Ok(file) && file@ == (FileView {
                            path: entry.path,
                            content: content->0,
                            hash: Some(entry.hash),
                        })
                        &&& final(self).taken() == old(self).taken() + 1
                    },
                }
            }),
    {
        let at: usize = self.done;
        assert(at < self.pending.len());
        let path = copy_text(self.pending[at].path.as_str());
        let hash = copy_text(self.pending[at].hash.as_str());
        assert(entry_views(self.pending@)[at as int] == self.pending@[at as int]@);
        assert(self@.pending[0] == self.pending@[at as int]@);
        let ghost kept = self.changed@;
        let retained = self.changed.remove(path.as_str());
        assert(contents(self.changed@) =~= contents(kept).remove(path@));
        let prepared = match retained {
            Some(file) => {
                assert(kept.dom().contains(path@));
                file
            },
            None => {
                let text = match &reread {
                    Some(bytes) => text_of_bytes(bytes.as_slice()),
                    None => None,
                };
                match text {
                    Some(content) => PreparedFile::new(content),
                    None => {
                        let mut message = copy_text(path.as_str());
                        message.push_str(" became non-UTF-8 after the manifest scan");
                        return Err(message);
                    },
                }
            },
        };
        if !same(prepared.hash.as_str(), hash.as_str()) {
            let mut message = copy_text(path.as_str());
            message.push_str(" changed after the manifest scan; retry sync");
            return Err(message);
        }
        if !has_uploadable_content(prepared.content.as_str()) {
            let mut message = copy_text(path.as_str());
            message.push_str(" became blank after the manifest scan");
            return Err(message);
        }
        self.done = at + 1;
        Ok(SyncFileContent { path, content: prepared.content, hash: Some(hash) })
    }
}

/// A file of a batch by what it carries.
pub struct FileView {
    pub path: Seq<char>,
    pub content: Seq<char>,
    pub hash: Option<Seq<char>>,
}

impl View for SyncFileContent {
    type V = FileView;

    open spec fn view(&self) -> FileView {
        FileView { path: self.path@, content: self.content@, hash: optional(self.hash) }
    }
}

pub open spec fn file_views(files: Seq<SyncFileContent>) -> Seq<FileView> {
    files.map_values(|file: SyncFileContent| file@)
}

/// How many bytes the content of a file has.
pub open spec fn file_bytes(file: FileView) -> nat {
    vstd::utf8::encode_utf8(file.content).len()
}

/// How many bytes the content of some files has.
pub open spec fn batch_bytes(files: Seq<FileView>) -> nat
    decreases files.len(),
{
    if files.len() == 0 {
        0
    } else {
        batch_bytes(files.drop_last()) + file_bytes(files.last())
    }
}

/// What preparing a batch asks for.
pub enum PrepareAction {
    /// Verify that the rules of the checkout are still those the scan used.
    VerifyPolicy,
    /// Check the live path of this file, even where its content was retained: a
    /// file or a directory above it can have become a link since the scan. Where
    /// the content was not retained, read it.
    Check { path: String, retained: bool },
    /// The batch.
    Ready(Vec<SyncFileContent>),
    Fail(String),
}

/// An action by what it carries.
pub enum PrepareActionView {
    VerifyPolicy,
    Check { path: Seq<char>, retained: bool },
    Ready(Seq<FileView>),
    Fail(Seq<char>),
}

impl View for PrepareAction {
    type V = PrepareActionView;

    open spec fn view(&self) -> PrepareActionView {
        match *self {
            PrepareAction::VerifyPolicy => PrepareActionView::VerifyPolicy,
            PrepareAction::Check { path, retained } => PrepareActionView::Check {
                path: path@,
                retained,
            },
            PrepareAction::Ready(files) => PrepareActionView::Ready(file_views(files@)),
            PrepareAction::Fail(reason) => PrepareActionView::Fail(reason@),
        }
    }
}

/// How the last action of a preparation went.
pub enum PrepareEvent {
    Verified(Result<(), String>),
    /// The path is that of a file of the checkout; with the bytes that were read
    /// there, where the content was not retained.
    Checked(Result<Option<Vec<u8>>, String>),
}

/// What a preparation waits for.
#[derive(Clone, Copy, Debug, PartialEq, Eq, Structural)]
pub enum PrepareStage {
    /// For the rules, before the first file.
    Opening,
    Checking,
    /// For the rules, after the last file.
    Closing,
    Over,
}

/// One batch in preparation.
pub struct Preparation {
    stage: PrepareStage,
    files: Files,
    /// How many files were done before this batch.
    start: usize,
    batch: Vec<SyncFileContent>,
    bytes: u128,
}

pub struct PreparationView {
    pub stage: PrepareStage,
    /// The files that were pending before this batch.
    pub pending: Seq<EntryView>,
    pub changed: Map<Seq<char>, Seq<char>>,
    pub batch: Seq<FileView>,
}

impl View for Preparation {
    type V = PreparationView;

    closed spec fn view(&self) -> PreparationView {
        PreparationView {
            stage: self.stage,
            pending: self.files.all().skip(self.start as int),
            changed: self.files@.changed,
            batch: file_views(self.batch@),
        }
    }
}

/// Whether an entry's size is one that a file can have here.
pub open spec fn has_size(entry: EntryView) -> bool {
    0 <= entry.size <= usize::MAX
}

/// What a batch does next: it takes files while they fit.
pub open spec fn looked(preparation: PreparationView) -> (PreparationView, PrepareActionView) {
    let count = preparation.batch.len();
    let closing = (
        PreparationView { stage: PrepareStage::Closing, ..preparation },
        PrepareActionView::VerifyPolicy,
    );
    if count >= preparation.pending.len() {
        closing
    } else {
        let entry = preparation.pending[count as int];
        if !has_size(entry) {
            (
                PreparationView { stage: PrepareStage::Over, ..preparation },
                PrepareActionView::Fail(
                    "prepare upload batch: "@
                        + "invalid manifest file size: out of range integral type conversion attempted"@,
                ),
            )
        } else if !fits(count, batch_bytes(preparation.batch), entry.size) {
            closing
        } else {
            (
                PreparationView { stage: PrepareStage::Checking, ..preparation },
                PrepareActionView::Check {
                    path: entry.path,
                    retained: preparation.changed.dom().contains(entry.path),
                },
            )
        }
    }
}

/// What follows an event: the preparation afterwards, and the action it asks for.
pub open spec fn prepare_step(preparation: PreparationView, event: PrepareEvent) -> (
    PreparationView,
    PrepareActionView,
) {
    let over = PreparationView { stage: PrepareStage::Over, ..preparation };
    let count = preparation.batch.len();
    match (preparation.stage, event) {
        (PrepareStage::Opening, PrepareEvent::Verified(Ok(_))) => looked(preparation),
        (PrepareStage::Opening, PrepareEvent::Verified(Err(reason))) => (
            over,
            PrepareActionView::Fail("prepare upload batch: "@ + reason@),
        ),
        (PrepareStage::Checking, PrepareEvent::Checked(Ok(reread))) => {
            let entry = preparation.pending[count as int];
            let content = upload_content(preparation.changed, entry.path, optional_bytes(reread));
            let changed = preparation.changed.remove(entry.path);
            match content_fault(entry, content) {
                Some(fault) => (
                    PreparationView { changed, ..over },
                    PrepareActionView::Fail("prepare upload batch: "@ + fault),
                ),
                None => looked(
                    PreparationView {
                        changed,
                        batch: preparation.batch.push(
                            FileView {
                                path: entry.path,
                                content: content->0,
                                hash: Some(entry.hash),
                            },
                        ),
                        ..preparation
                    },
                ),
            }
        },
        (PrepareStage::Checking, PrepareEvent::Checked(Err(reason))) => (
            over,
            PrepareActionView::Fail("prepare upload batch: "@ + reason@),
        ),
        (PrepareStage::Closing, PrepareEvent::Verified(Ok(_))) => (
            PreparationView {
                pending: preparation.pending.skip(count as int),
                batch: seq![],
                ..over
            },
            PrepareActionView::Ready(preparation.batch),
        ),
        (PrepareStage::Closing, PrepareEvent::Verified(Err(reason))) => (
            over,
            PrepareActionView::Fail("prepare upload batch: "@ + reason@),
        ),
        _ => (over, PrepareActionView::Fail("the preparation is out of order"@)),
    }
}

fn fault(reason: &str) -> (action: PrepareAction)
    ensures
        action@ == PrepareActionView::Fail("prepare upload batch: "@ + reason@),
{
    let mut text = copy_text("prepare upload batch: ");
    text.push_str(reason);
    PrepareAction::Fail(text)
}

impl Preparation {
    pub closed spec fn wf(self) -> bool {
        &&& self.files.wf()
        &&& self.start + self.batch@.len() == self.files.taken()
        &&& self.bytes == batch_bytes(file_views(self.batch@))
        &&& self.bytes <= self.batch@.len() * usize::MAX
        &&& preparation_is_valid(self@)
    }

    /// The files with which a batch is prepared. It first asks for
    /// [`PrepareAction::VerifyPolicy`].
    pub fn new(files: Files) -> (preparation: Preparation)
        requires
            files.wf(),
        ensures
            preparation.wf(),
            preparation@ == (PreparationView {
                stage: PrepareStage::Opening,
                pending: files@.pending,
                changed: files@.changed,
                batch: seq![],
            }),
    {
        let start: usize = files.done;
        let preparation = Preparation {
            stage: PrepareStage::Opening,
            files,
            start,
            batch: Vec::new(),
            bytes: 0,
        };
        assert(preparation@.batch =~= seq![]);
        reveal(batch_is_valid);
        preparation
    }

    /// The files that are pending after the batch.
    pub fn into_files(self) -> (files: Files)
        requires
            self.wf(),
        ensures
            files.wf(),
            files@.pending == self@.pending.skip(self@.batch.len() as int),
            files@.changed == self@.changed,
    {
        assert(self@.pending.skip(self@.batch.len() as int) =~= self.files@.pending);
        self.files
    }

    fn look(&mut self) -> (action: PrepareAction)
        requires
            old(self).files.wf(),
            old(self).start + old(self).batch@.len() == old(self).files.taken(),
            old(self).bytes == batch_bytes(file_views(old(self).batch@)),
            old(self).bytes <= old(self).batch@.len() * usize::MAX,
            batch_is_valid(old(self)@.pending, old(self)@.batch),
            old(self)@.stage == PrepareStage::Over,
        ensures
            looked(old(self)@) == (final(self)@, action@),
            final(self).wf(),
    {
        let count: usize = self.batch.len();
        assert(self@.batch.len() == count);
        proof {
            lemma_batch_is_small(self@);
            assert(count * usize::MAX <= UPLOAD_BATCH_FILES * usize::MAX) by (nonlinear_arith)
                requires
                    count <= UPLOAD_BATCH_FILES,
            ;
        }
        let at: usize = self.files.done;
        if at == self.files.pending.len() {
            self.stage = PrepareStage::Closing;
            return PrepareAction::VerifyPolicy;
        }
        let entry = &self.files.pending[at];
        assert(self@.pending[count as int] == entry@);
        if entry.size < 0 || entry.size as u64 > usize::MAX as u64 {
            return fault(
                "invalid manifest file size: out of range integral type conversion attempted",
            );
        }
        let size: u64 = entry.size as u64;
        if count > 0 && (count >= UPLOAD_BATCH_FILES || self.bytes + size as u128
            > UPLOAD_BATCH_BYTES as u128) {
            self.stage = PrepareStage::Closing;
            return PrepareAction::VerifyPolicy;
        }
        let path = copy_text(entry.path.as_str());
        let retained = self.files.changed.get(entry.path.as_str()).is_some();
        self.stage = PrepareStage::Checking;
        PrepareAction::Check { path, retained }
    }

    /// Takes the result of the last action and gives the next one.
    pub fn step(&mut self, event: PrepareEvent) -> (action: PrepareAction)
        requires
            old(self).wf(),
        ensures
            final(self).wf(),
            prepare_step(old(self)@, event) == (final(self)@, action@),
    {
        let stage = self.stage;
        let ghost before = self@;
        self.stage = PrepareStage::Over;
        match (stage, event) {
            (PrepareStage::Opening, PrepareEvent::Verified(result)) => match result {
                Ok(()) => self.look(),
                Err(reason) => fault(reason.as_str()),
            },
            (PrepareStage::Checking, PrepareEvent::Checked(result)) => match result {
                Ok(reread) => {
                    let ghost entry = before.pending[before.batch.len() as int];
                    assert(self.files@.pending[0] == entry);
                    match self.files.take(reread) {
                        Ok(file) => {
                            let ghost files_before = self.batch@;
                            let count: usize = self.batch.len();
                            let size: usize = file.content.as_str().as_bytes().len();
                            proof {
                                lemma_batch_is_small(before);
                                lemma_batch_push(before, file@);
                                lemma_room(count as nat, self.bytes as nat, size as nat);
                            }
                            self.bytes = self.bytes + size as u128;
                            self.batch.push(file);
                            assert(file_views(self.batch@) =~= file_views(files_before).push(file@));
                            self.look()
                        },
                        Err(message) => fault(message.as_str()),
                    }
                },
                Err(reason) => fault(reason.as_str()),
            },
            (PrepareStage::Closing, PrepareEvent::Verified(result)) => match result {
                Ok(()) => {
                    let mut batch: Vec<SyncFileContent> = Vec::new();
                    std::mem::swap(&mut batch, &mut self.batch);
                    self.bytes = 0;
                    self.start = self.files.done;
                    proof {
                        reveal(batch_is_valid);
                        assert(self@.batch =~= seq![]);
                        assert(self@.pending =~= before.pending.skip(before.batch.len() as int));
                    }
                    PrepareAction::Ready(batch)
                },
                Err(reason) => fault(reason.as_str()),
            },
            _ => PrepareAction::Fail(copy_text("the preparation is out of order")),
        }
    }
}

/// Whether a batch holds the first pending files, each with the content that its
/// entry stands for, and each taken because it fitted.
#[verifier::opaque]
pub open spec fn batch_is_valid(pending: Seq<EntryView>, batch: Seq<FileView>) -> bool {
    &&& batch.len() <= pending.len()
    &&& forall|i: int|
        0 <= i < batch.len() ==> {
            &&& (#[trigger] batch[i]).path == pending[i].path
            &&& batch[i].hash == Some(pending[i].hash)
            &&& content_fault(pending[i], Some(batch[i].content)) is None
        }
    &&& forall|i: int|
        #![trigger pending[i]]
        0 <= i < batch.len() ==> has_size(pending[i]) && fits(
            i as nat,
            batch_bytes(batch.take(i)),
            pending[i].size,
        )
}

/// Whether a preparation is at a stage that its batch allows.
pub open spec fn preparation_is_valid(preparation: PreparationView) -> bool {
    let (pending, batch) = (preparation.pending, preparation.batch);
    &&& batch_is_valid(pending, batch)
    &&& match preparation.stage {
        PrepareStage::Opening => batch.len() == 0,
        PrepareStage::Checking => batch.len() < pending.len() && has_size(
            pending[batch.len() as int],
        ) && fits(batch.len(), batch_bytes(batch), pending[batch.len() as int].size),
        PrepareStage::Closing => batch.len() == pending.len() || (has_size(
            pending[batch.len() as int],
        ) && !fits(batch.len(), batch_bytes(batch), pending[batch.len() as int].size)),
        PrepareStage::Over => true,
    }
}

/// A batch holds some of the pending files, and no more than are allowed.
proof fn lemma_batch_is_small(preparation: PreparationView)
    requires
        batch_is_valid(preparation.pending, preparation.batch),
    ensures
        preparation.batch.len() <= UPLOAD_BATCH_FILES,
        preparation.batch.len() <= preparation.pending.len(),
{
    reveal(batch_is_valid);
    let batch = preparation.batch;
    if batch.len() > 0 {
        let last = preparation.pending[batch.len() - 1];
        assert(fits((batch.len() - 1) as nat, batch_bytes(batch.take(batch.len() - 1)), last.size));
    }
}

proof fn lemma_room(count: nat, bytes: nat, size: nat)
    requires
        count <= UPLOAD_BATCH_FILES,
        bytes <= count * usize::MAX,
        size <= usize::MAX,
    ensures
        bytes + size <= (count + 1) * usize::MAX,
        bytes + size <= u128::MAX,
{
    assert(bytes + size <= (count + 1) * usize::MAX) by (nonlinear_arith)
        requires
            bytes <= count * usize::MAX,
            size <= usize::MAX,
    ;
    assert((count + 1) * usize::MAX <= 257 * usize::MAX) by (nonlinear_arith)
        requires
            count <= 256,
    ;
}

/// A batch stays valid with the file that was checked.
proof fn lemma_batch_push(preparation: PreparationView, file: FileView)
    requires
        preparation_is_valid(preparation),
        preparation.stage == PrepareStage::Checking,
        ({
            let entry = preparation.pending[preparation.batch.len() as int];
            file.path == entry.path && file.hash == Some(entry.hash) && content_fault(
                entry,
                Some(file.content),
            ) is None
        }),
    ensures
        batch_is_valid(preparation.pending, preparation.batch.push(file)),
        batch_bytes(preparation.batch.push(file)) == batch_bytes(preparation.batch) + file_bytes(
            file,
        ),
{
    reveal(batch_is_valid);
    let (batch, pending) = (preparation.batch, preparation.pending);
    let next = batch.push(file);
    assert(next.drop_last() =~= batch);
    assert forall|i: int| #![trigger pending[i]] 0 <= i < next.len() implies has_size(pending[i])
        && fits(i as nat, batch_bytes(next.take(i)), pending[i].size) by {
        if i < batch.len() {
            assert(next.take(i) =~= batch.take(i));
        } else {
            assert(next.take(i) =~= batch);
        }
    }
}

/// A batch is as much of what is pending as fits: it holds the first pending
/// files in their order, each with its own content, at least one where any is
/// pending, no more than are allowed, and it ends where nothing is pending or the
/// next file does not fit. What is pending afterwards is the rest.
pub proof fn law_a_batch_is_what_fits(preparation: PreparationView, event: PrepareEvent)
    requires
        preparation_is_valid(preparation),
    ensures
        preparation_is_valid(prepare_step(preparation, event).0),
        prepare_step(preparation, event).1 matches PrepareActionView::Ready(batch) ==> {
            let pending = preparation.pending;
            &&& batch_is_valid(pending, batch)
            &&& pending.len() > 0 ==> batch.len() > 0
            &&& batch.len() <= UPLOAD_BATCH_FILES
            &&& batch.len() == pending.len() || !fits(
                batch.len(),
                batch_bytes(batch),
                pending[batch.len() as int].size,
            )
            &&& prepare_step(preparation, event).0.pending == pending.skip(batch.len() as int)
        },
{
    let batch = preparation.batch;
    lemma_batch_is_small(preparation);
    if preparation.stage == PrepareStage::Closing {
        reveal(batch_is_valid);
    }
    if preparation.stage == PrepareStage::Checking {
        match event {
            PrepareEvent::Checked(Ok(reread)) => {
                let entry = preparation.pending[batch.len() as int];
                let content = upload_content(
                    preparation.changed,
                    entry.path,
                    optional_bytes(reread),
                );
                if content_fault(entry, content) is None {
                    lemma_batch_push(
                        preparation,
                        FileView { path: entry.path, content: content->0, hash: Some(entry.hash) },
                    );
                }
            },
            _ => {},
        }
    }
}

/// How far a preparation is from its end, at most.
pub open spec fn preparation_steps_left(preparation: PreparationView) -> int {
    3 * (preparation.pending.len() - preparation.batch.len()) + match preparation.stage {
        PrepareStage::Opening => 3int,
        PrepareStage::Checking => 2,
        PrepareStage::Closing => 1,
        PrepareStage::Over => 0,
    }
}

/// Every preparation ends, with a batch or with a reason.
pub proof fn law_a_preparation_ends(preparation: PreparationView, event: PrepareEvent)
    requires
        preparation_is_valid(preparation),
        preparation.stage != PrepareStage::Over,
    ensures
        0 <= preparation_steps_left(prepare_step(preparation, event).0) < preparation_steps_left(
            preparation,
        ),
        prepare_step(preparation, event).0.stage == PrepareStage::Over <==> (prepare_step(
            preparation,
            event,
        ).1 is Ready || prepare_step(preparation, event).1 is Fail),
{
    lemma_batch_is_small(preparation);
}

/// Where each file has the size that its manifest entry says, a batch of more than
/// one file is within the limit of bytes.
pub proof fn law_batches_are_bounded(preparation: PreparationView)
    requires
        batch_is_valid(preparation.pending, preparation.batch),
        forall|i: int|
            0 <= i < preparation.batch.len() ==> file_bytes(#[trigger] preparation.batch[i])
                == preparation.pending[i].size,
    ensures
        preparation.batch.len() <= UPLOAD_BATCH_FILES,
        preparation.batch.len() <= 1 || batch_bytes(preparation.batch) <= UPLOAD_BATCH_BYTES,
{
    reveal(batch_is_valid);
    let batch = preparation.batch;
    if batch.len() > 0 {
        let last = preparation.pending[batch.len() - 1];
        assert(batch.take(batch.len() - 1) =~= batch.drop_last());
        assert(fits((batch.len() - 1) as nat, batch_bytes(batch.drop_last()), last.size));
        assert(batch.last() == batch[batch.len() - 1]);
    }
}

/// Content is uploaded only where its hash is the one of the manifest and it is
/// not blank.
pub proof fn law_uploads_match_the_manifest(entry: EntryView, content: Option<Seq<char>>)
    requires
        content_fault(entry, content) is None,
    ensures
        content matches Some(text) && content_hash(vstd::utf8::encode_utf8(text)) == entry.hash
            && !is_blank(text),
{
}

/// What an upload asks for.
pub enum UploadAction {
    /// Prepare the next batch, and verify the rules of the checkout again.
    Prepare,
    /// Send the prepared batch to this endpoint. The marker says whether it is
    /// the last request: a single batch is sent without one, in the form that
    /// older servers know too.
    Send { url: String, last: Option<bool> },
    /// Wait for an answer to one of the requests in flight.
    Wait,
    /// Report that the upload is being finalized, and send the empty last
    /// request to this endpoint.
    Complete { url: String },
    /// Every file was uploaded.
    Done(usize),
    Fail(String),
}

/// An action by what it carries.
pub enum UploadActionView {
    Prepare,
    Send { url: Seq<char>, last: Option<bool> },
    Wait,
    Complete { url: Seq<char> },
    Done(nat),
    Fail(Seq<char>),
}

impl View for UploadAction {
    type V = UploadActionView;

    open spec fn view(&self) -> UploadActionView {
        match *self {
            UploadAction::Prepare => UploadActionView::Prepare,
            UploadAction::Send { url, last } => UploadActionView::Send { url: url@, last },
            UploadAction::Wait => UploadActionView::Wait,
            UploadAction::Complete { url } => UploadActionView::Complete { url: url@ },
            UploadAction::Done(count) => UploadActionView::Done(count as nat),
            UploadAction::Fail(reason) => UploadActionView::Fail(reason@),
        }
    }
}

/// How a request with a batch ended.
pub enum BatchReply {
    Stored,
    Refused(String),
    /// The task that sent it ended without an answer.
    Lost(String),
}

/// How the last action of an upload went.
pub enum UploadEvent {
    /// A batch of so many files is prepared.
    Prepared(Result<usize, String>),
    /// The batch is on its way.
    Sent,
    /// The request in this place of those in flight ended.
    Answered { slot: usize, reply: BatchReply },
    /// The last request was answered.
    Completed(Result<(), String>),
}

/// What an upload waits for.
#[derive(Clone, Copy, Debug, PartialEq, Eq, Structural)]
pub enum UploadStage {
    Preparing,
    /// A batch is prepared, and too many requests are in flight to send it.
    Holding,
    Sending,
    /// Every batch was sent.
    Draining,
    Completing,
    Over,
}

/// One upload in progress.
pub struct Upload {
    stage: UploadStage,
    url: String,
    total: usize,
    pending: usize,
    ready: usize,
    in_flight: Vec<usize>,
    uploaded: usize,
}

pub struct UploadView {
    pub stage: UploadStage,
    pub url: Seq<char>,
    /// The files that are uploaded in all.
    pub total: nat,
    /// The files that no batch has taken yet.
    pub pending: nat,
    /// The files of the batch that is prepared and not sent.
    pub ready: nat,
    /// The files of each request that is not answered.
    pub in_flight: Seq<usize>,
    /// The files whose request was answered.
    pub uploaded: nat,
}

impl View for Upload {
    type V = UploadView;

    closed spec fn view(&self) -> UploadView {
        UploadView {
            stage: self.stage,
            url: self.url@,
            total: self.total as nat,
            pending: self.pending as nat,
            ready: self.ready as nat,
            in_flight: self.in_flight@,
            uploaded: self.uploaded as nat,
        }
    }
}

/// How many files a number of batches hold.
pub open spec fn files_in(batches: Seq<usize>) -> nat
    decreases batches.len(),
{
    if batches.len() == 0 {
        0
    } else {
        files_in(batches.drop_last()) + batches.last() as nat
    }
}

proof fn lemma_files_in_push(batches: Seq<usize>, count: usize)
    ensures
        files_in(batches.push(count)) == files_in(batches) + count,
{
    assert(batches.push(count).drop_last() =~= batches);
}

proof fn lemma_files_in_remove(batches: Seq<usize>, at: int)
    requires
        0 <= at < batches.len(),
    ensures
        files_in(batches) == files_in(batches.remove(at)) + batches[at],
    decreases batches.len(),
{
    if at == batches.len() - 1 {
        assert(batches.remove(at) =~= batches.drop_last());
    } else {
        lemma_files_in_remove(batches.drop_last(), at);
        assert(batches.remove(at).drop_last() =~= batches.drop_last().remove(at));
    }
}

/// Whether an upload accounts for each of its files, in no more requests at once
/// than are allowed.
pub open spec fn upload_is_valid(upload: UploadView) -> bool {
    &&& upload.uploaded + files_in(upload.in_flight) + upload.ready + upload.pending == upload.total
    &&& upload.total <= usize::MAX
    &&& upload.in_flight.len() <= UPLOAD_PARALLEL_REQUESTS
    &&& match upload.stage {
        UploadStage::Preparing => upload.ready == 0 && upload.pending > 0,
        UploadStage::Holding => upload.ready > 0 && upload.in_flight.len() > 0,
        UploadStage::Sending => upload.ready > 0 && upload.in_flight.len()
            < UPLOAD_PARALLEL_REQUESTS,
        UploadStage::Draining => upload.ready == 0 && upload.pending == 0
            && upload.in_flight.len() > 0,
        UploadStage::Completing => upload.uploaded == upload.total && upload.in_flight.len() == 0,
        UploadStage::Over => true,
    }
}

/// The marker of a batch: none where it is the only one.
pub open spec fn batch_marker(upload: UploadView) -> Option<bool> {
    if upload.ready == upload.total {
        None
    } else {
        Some(false)
    }
}

/// How an upload goes on after a batch was stored.
pub open spec fn after_stored(upload: UploadView, slot: int) -> (UploadView, UploadActionView) {
    let count = upload.in_flight[slot] as nat;
    let next = UploadView {
        in_flight: upload.in_flight.remove(slot),
        uploaded: upload.uploaded + count,
        ..upload
    };
    if upload.stage == UploadStage::Holding {
        (
            UploadView { stage: UploadStage::Sending, ..next },
            UploadActionView::Send { url: upload.url, last: batch_marker(upload) },
        )
    } else if next.in_flight.len() > 0 {
        (next, UploadActionView::Wait)
    } else if count == upload.total {
        (UploadView { stage: UploadStage::Over, ..next }, UploadActionView::Done(next.uploaded))
    } else {
        (
            UploadView { stage: UploadStage::Completing, ..next },
            UploadActionView::Complete { url: upload.url },
        )
    }
}

/// What follows an event: the upload afterwards, and the action it asks for.
pub open spec fn upload_step(upload: UploadView, event: UploadEvent) -> (
    UploadView,
    UploadActionView,
) {
    let over = UploadView { stage: UploadStage::Over, ..upload };
    let out_of_order = (over, UploadActionView::Fail("the upload is out of order"@));
    match (upload.stage, event) {
        (UploadStage::Preparing, UploadEvent::Prepared(batch)) => match batch {
            Err(reason) => (over, UploadActionView::Fail(reason@)),
            Ok(count) => if 1 <= count <= upload.pending {
                let next = UploadView {
                    pending: (upload.pending - count) as nat,
                    ready: count as nat,
                    ..upload
                };
                if upload.in_flight.len() >= UPLOAD_PARALLEL_REQUESTS {
                    (UploadView { stage: UploadStage::Holding, ..next }, UploadActionView::Wait)
                } else {
                    (
                        UploadView { stage: UploadStage::Sending, ..next },
                        UploadActionView::Send { url: upload.url, last: batch_marker(next) },
                    )
                }
            } else {
                out_of_order
            },
        },
        (UploadStage::Sending, UploadEvent::Sent) => {
            let next = UploadView {
                ready: 0,
                in_flight: upload.in_flight.push(upload.ready as usize),
                ..upload
            };
            if upload.pending > 0 {
                (UploadView { stage: UploadStage::Preparing, ..next }, UploadActionView::Prepare)
            } else {
                (UploadView { stage: UploadStage::Draining, ..next }, UploadActionView::Wait)
            }
        },
        (UploadStage::Holding, UploadEvent::Answered { slot, reply }) => after_answer(
            upload,
            slot as int,
            reply,
        ),
        (UploadStage::Draining, UploadEvent::Answered { slot, reply }) => after_answer(
            upload,
            slot as int,
            reply,
        ),
        (UploadStage::Completing, UploadEvent::Completed(reply)) => match reply {
            Ok(_) => (over, UploadActionView::Done(upload.uploaded)),
            Err(reason) => (over, UploadActionView::Fail("complete upload: "@ + reason@)),
        },
        _ => out_of_order,
    }
}

/// How an upload goes on after a request ended.
pub open spec fn after_answer(upload: UploadView, slot: int, reply: BatchReply) -> (
    UploadView,
    UploadActionView,
) {
    let over = UploadView { stage: UploadStage::Over, ..upload };
    if slot >= upload.in_flight.len() {
        (over, UploadActionView::Fail("the upload is out of order"@))
    } else {
        match reply {
            BatchReply::Stored => after_stored(upload, slot),
            BatchReply::Refused(reason) => (
                over,
                UploadActionView::Fail(
                    "upload "@ + decimal(upload.in_flight[slot] as nat) + " files: "@ + reason@,
                ),
            ),
            BatchReply::Lost(reason) => (
                over,
                UploadActionView::Fail("upload task: "@ + reason@),
            ),
        }
    }
}

impl Upload {
    /// An upload of so many files to an endpoint. Batches are sent with a bounded
    /// number of requests at once, and an empty request completes the upload once
    /// all of them are answered; a single batch needs no other request.
    pub fn new(url: String, total: usize) -> (begun: (Upload, UploadAction))
        ensures
            upload_is_valid(begun.0@),
            begun.0@ == (UploadView {
                stage: if total == 0 {
                    UploadStage::Over
                } else {
                    UploadStage::Preparing
                },
                url: url@,
                total: total as nat,
                pending: total as nat,
                ready: 0,
                in_flight: seq![],
                uploaded: 0,
            }),
            begun.1@ == if total == 0 {
                UploadActionView::Done(0)
            } else {
                UploadActionView::Prepare
            },
    {
        let mut upload = Upload {
            stage: UploadStage::Preparing,
            url,
            total,
            pending: total,
            ready: 0,
            in_flight: Vec::new(),
            uploaded: 0,
        };
        assert(upload@.in_flight =~= seq![]);
        if total == 0 {
            upload.stage = UploadStage::Over;
            return (upload, UploadAction::Done(0));
        }
        (upload, UploadAction::Prepare)
    }

    /// How far the upload is. It is reported at the start of an upload that has
    /// something to do, and whenever a batch was stored.
    pub fn progress(&self) -> (progress: SyncProgress)
        ensures
            progress matches SyncProgress::Uploading { uploaded_files, total_files }
                && uploaded_files == self@.uploaded && total_files == self@.total,
    {
        SyncProgress::Uploading { uploaded_files: self.uploaded, total_files: self.total }
    }

    /// Sends the prepared batch.
    fn send(&mut self) -> (action: UploadAction)
        ensures
            final(self)@ == (UploadView { stage: UploadStage::Sending, ..old(self)@ }),
            action@ == (UploadActionView::Send {
                url: old(self)@.url,
                last: batch_marker(old(self)@),
            }),
    {
        self.stage = UploadStage::Sending;
        let last = if self.ready == self.total {
            None
        } else {
            Some(false)
        };
        UploadAction::Send { url: copy_text(self.url.as_str()), last }
    }

    /// Takes an answer at a stage that waits for one.
    fn answered(&mut self, stage: UploadStage, slot: usize, reply: BatchReply) -> (action:
        UploadAction)
        requires
            stage == UploadStage::Holding || stage == UploadStage::Draining,
            upload_is_valid((UploadView { stage, ..old(self)@ })),
            old(self)@.stage == UploadStage::Over,
        ensures
            upload_is_valid(final(self)@),
            after_answer((UploadView { stage, ..old(self)@ }), slot as int, reply) == (
                final(self)@,
                action@,
            ),
    {
        if slot >= self.in_flight.len() {
            return UploadAction::Fail(copy_text("the upload is out of order"));
        }
        let count: usize = self.in_flight[slot];
        match reply {
            BatchReply::Stored => {
                proof {
                    lemma_files_in_remove(self.in_flight@, slot as int);
                }
                self.in_flight.remove(slot);
                self.uploaded = self.uploaded + count;
                if stage == UploadStage::Holding {
                    return self.send();
                }
                if self.in_flight.len() > 0 {
                    self.stage = stage;
                    return UploadAction::Wait;
                }
                if count == self.total {
                    return UploadAction::Done(self.uploaded);
                }
                self.stage = UploadStage::Completing;
                UploadAction::Complete { url: copy_text(self.url.as_str()) }
            },
            BatchReply::Refused(reason) => {
                let mut text = copy_text("upload ");
                text.push_str(decimal_text(count as u64).as_str());
                text.push_str(" files: ");
                text.push_str(reason.as_str());
                UploadAction::Fail(text)
            },
            BatchReply::Lost(reason) => {
                let mut text = copy_text("upload task: ");
                text.push_str(reason.as_str());
                UploadAction::Fail(text)
            },
        }
    }

    /// Takes the result of the last action and gives the next one.
    pub fn step(&mut self, event: UploadEvent) -> (action: UploadAction)
        requires
            upload_is_valid(old(self)@),
        ensures
            upload_is_valid(final(self)@),
            upload_step(old(self)@, event) == (final(self)@, action@),
    {
        let stage = self.stage;
        self.stage = UploadStage::Over;
        match (stage, event) {
            (UploadStage::Preparing, UploadEvent::Prepared(batch)) => match batch {
                Err(reason) => UploadAction::Fail(reason),
                Ok(count) => {
                    if count == 0 || count > self.pending {
                        return UploadAction::Fail(copy_text("the upload is out of order"));
                    }
                    self.pending = self.pending - count;
                    self.ready = count;
                    if self.in_flight.len() >= UPLOAD_PARALLEL_REQUESTS {
                        self.stage = UploadStage::Holding;
                        return UploadAction::Wait;
                    }
                    self.send()
                },
            },
            (UploadStage::Sending, UploadEvent::Sent) => {
                proof {
                    lemma_files_in_push(self.in_flight@, self.ready);
                }
                self.in_flight.push(self.ready);
                self.ready = 0;
                if self.pending > 0 {
                    self.stage = UploadStage::Preparing;
                    UploadAction::Prepare
                } else {
                    self.stage = UploadStage::Draining;
                    UploadAction::Wait
                }
            },
            (UploadStage::Holding, UploadEvent::Answered { slot, reply }) => self.answered(
                stage,
                slot,
                reply,
            ),
            (UploadStage::Draining, UploadEvent::Answered { slot, reply }) => self.answered(
                stage,
                slot,
                reply,
            ),
            (UploadStage::Completing, UploadEvent::Completed(reply)) => match reply {
                Ok(()) => UploadAction::Done(self.uploaded),
                Err(reason) => {
                    let mut text = copy_text("complete upload: ");
                    text.push_str(reason.as_str());
                    UploadAction::Fail(text)
                },
            },
            _ => UploadAction::Fail(copy_text("the upload is out of order")),
        }
    }
}

/// No more requests are in flight at once than are allowed, the last request is
/// sent only when every file is stored, and an upload that ends well has stored
/// all of its files.
pub proof fn law_uploads_are_bounded_and_complete(upload: UploadView, event: UploadEvent)
    requires
        upload_is_valid(upload),
    ensures
        upload_is_valid(upload_step(upload, event).0),
        upload_step(upload, event).0.in_flight.len() <= UPLOAD_PARALLEL_REQUESTS,
        upload_step(upload, event).1 is Complete ==> upload_step(upload, event).0.uploaded
            == upload.total,
        upload_step(upload, event).1 matches UploadActionView::Done(count) ==> count
            == upload.total,
{
    match event {
        UploadEvent::Answered { slot, reply } => {
            if slot < upload.in_flight.len() {
                lemma_files_in_remove(upload.in_flight, slot as int);
            }
        },
        UploadEvent::Sent => {
            lemma_files_in_push(upload.in_flight, upload.ready as usize);
        },
        _ => {},
    }
}

/// How far an upload is from its end, at most.
pub open spec fn upload_steps_left(upload: UploadView) -> nat {
    5 * upload.pending + 2 * upload.in_flight.len() + match upload.stage {
        UploadStage::Preparing => 1,
        UploadStage::Holding => 5,
        UploadStage::Sending => 4,
        UploadStage::Draining => 1,
        UploadStage::Completing => 1,
        UploadStage::Over => 0nat,
    }
}

/// Every upload ends.
pub proof fn law_an_upload_ends(upload: UploadView, event: UploadEvent)
    requires
        upload_is_valid(upload),
        upload.stage != UploadStage::Over,
    ensures
        upload_steps_left(upload_step(upload, event).0) < upload_steps_left(upload),
        upload_step(upload, event).0.stage == UploadStage::Over <==> (upload_step(
            upload,
            event,
        ).1 is Done || upload_step(upload, event).1 is Fail),
{
}

proof fn lemma_known_paths(manifest: Seq<EntryView>, path: Seq<char>)
    ensures
        manifest_map(manifest).dom().contains(path) <==> manifest.map_values(
            |entry: EntryView| entry.path,
        ).contains(path),
    decreases manifest.len(),
{
    let paths = manifest.map_values(|entry: EntryView| entry.path);
    if manifest.len() > 0 {
        let fewer = manifest.drop_last();
        let before = fewer.map_values(|entry: EntryView| entry.path);
        lemma_known_paths(fewer, path);
        assert(paths =~= before.push(manifest.last().path));
        assert(paths[paths.len() - 1] == manifest.last().path);
        if before.contains(path) {
            let i = choose|i: int| 0 <= i < before.len() && before[i] == path;
            assert(paths[i] == path);
        }
        if paths.contains(path) && manifest.last().path != path {
            let i = choose|i: int| 0 <= i < paths.len() && paths[i] == path;
            assert(before[i] == path);
        }
    }
}

proof fn lemma_last_entry(manifest: Seq<EntryView>, i: int)
    requires
        0 <= i < manifest.len(),
        forall|k: int| i < k < manifest.len() ==> (#[trigger] manifest[k]).path != manifest[i].path,
    ensures
        manifest_map(manifest)[manifest[i].path] == manifest[i],
    decreases manifest.len(),
{
    let last = manifest.len() - 1;
    if i < last {
        assert(manifest[last].path != manifest[i].path);
        lemma_last_entry(manifest.drop_last(), i);
    }
}

/// A manifest is looked up by path: a path is known exactly where an entry has it,
/// and stands for the last entry that has it.
pub proof fn law_a_manifest_is_looked_up_by_path(manifest: Seq<EntryView>, path: Seq<char>, i: int)
    ensures
        manifest_map(manifest).dom().contains(path) <==> manifest.map_values(
            |entry: EntryView| entry.path,
        ).contains(path),
        0 <= i < manifest.len() && manifest[i].path == path && (forall|k: int|
            i < k < manifest.len() ==> (#[trigger] manifest[k]).path != path) ==> manifest_map(
            manifest,
        )[path] == manifest[i],
{
    lemma_known_paths(manifest, path);
    if 0 <= i < manifest.len() && manifest[i].path == path && (forall|k: int|
        i < k < manifest.len() ==> (#[trigger] manifest[k]).path != path) {
        lemma_last_entry(manifest, i);
    }
}

/// The server may ask for a path at most once, and only for one of the manifest;
/// the first path that breaks this is named.
pub proof fn law_what_may_be_asked_for(
    needed: Seq<Seq<char>>,
    manifest: Map<Seq<char>, EntryView>,
    at: int,
)
    requires
        0 <= at < needed.len(),
    ensures
        requests_allowed(needed, manifest, needed.len() as int) <==> needed.no_duplicates() && (
        forall|i: int| 0 <= i < needed.len() ==> manifest.dom().contains(#[trigger] needed[i])),
        first_refused(needed, manifest, at) <==> {
            &&& needed.take(at).no_duplicates()
            &&& forall|i: int| 0 <= i < at ==> manifest.dom().contains(#[trigger] needed[i])
            &&& !manifest.dom().contains(needed[at]) || needed.take(at).contains(needed[at])
        },
        refused_message(needed[at]) == "sync requested an unknown or duplicate manifest path: "@
            + needed[at],
{
    let n = needed.len() as int;
    let before = needed.take(at);
    assert(forall|i: int| 0 <= i < at ==> #[trigger] before[i] == needed[i]);
    if requests_allowed(needed, manifest, n) {
        assert forall|i: int, j: int|
            0 <= i < needed.len() && 0 <= j < needed.len() && i != j implies needed[i]
            != needed[j] by {
            if i < j {
                assert(needed[i] != needed[j]);
            } else {
                assert(needed[j] != needed[i]);
            }
        }
    }
    if requests_allowed(needed, manifest, at) {
        assert forall|i: int, j: int|
            0 <= i < before.len() && 0 <= j < before.len() && i != j implies before[i]
            != before[j] by {
            assert(before[i] == needed[i] && before[j] == needed[j]);
            if i < j {
                assert(needed[i] != needed[j]);
            } else {
                assert(needed[j] != needed[i]);
            }
        }
        assert(before.no_duplicates());
    }
    if before.no_duplicates() {
        assert forall|i: int, j: int| 0 <= i < j < at implies #[trigger] needed[i]
            != #[trigger] needed[j] by {
            assert(before[i] == needed[i] && before[j] == needed[j]);
        }
    }
    if before.contains(needed[at]) {
        let i = choose|i: int| 0 <= i < before.len() && before[i] == needed[at];
        assert(needed[i] == needed[at]);
    }
    if requests_allowed(needed, manifest, at) && manifest.dom().contains(needed[at])
        && !before.contains(needed[at]) {
        assert forall|i: int, j: int| 0 <= i < j < at + 1 implies #[trigger] needed[i]
            != #[trigger] needed[j] by {
            if j == at {
                assert(before[i] == needed[i]);
            }
        }
        assert(requests_allowed(needed, manifest, at + 1));
    }
}

/// A file goes into the batch as it is now: with its path, its content and the hash
/// of the manifest. Content that was kept from the scan is used in place of what was
/// read again. A file that is not text, has another hash or is blank ends the
/// preparation with a reason that names it.
pub proof fn law_a_checked_file_joins_the_batch(
    preparation: PreparationView,
    reread: Option<Vec<u8>>,
    reason: String,
)
    requires
        preparation.stage == PrepareStage::Checking,
        preparation.batch.len() < preparation.pending.len(),
    ensures
        ({
            let entry = preparation.pending[preparation.batch.len() as int];
            let (next, action) = prepare_step(preparation, PrepareEvent::Checked(Ok(reread)));
            let kept = preparation.changed.dom().contains(entry.path);
            let is_text = kept || (reread is Some && vstd::utf8::valid_utf8(reread->0@));
            let text = if kept {
                preparation.changed[entry.path]
            } else {
                vstd::utf8::decode_utf8(reread->0@)
            };
            let same = content_hash(vstd::utf8::encode_utf8(text)) == entry.hash;
            let blank = is_blank(text);
            &&& !is_text ==> action == PrepareActionView::Fail(
                "prepare upload batch: "@ + (entry.path
                    + " became non-UTF-8 after the manifest scan"@),
            )
            &&& is_text && !same ==> action == PrepareActionView::Fail(
                "prepare upload batch: "@ + (entry.path
                    + " changed after the manifest scan; retry sync"@),
            )
            &&& is_text && same && blank ==> action == PrepareActionView::Fail(
                "prepare upload batch: "@ + (entry.path + " became blank after the manifest scan"@),
            )
            &&& is_text && same && !blank ==> {
                &&& next.batch == preparation.batch.push(
                    FileView { path: entry.path, content: text, hash: Some(entry.hash) },
                )
                &&& next.pending == preparation.pending
                &&& next.changed == preparation.changed.remove(entry.path)
            }
            &&& prepare_step(preparation, PrepareEvent::Checked(Err(reason))).1
                == PrepareActionView::Fail("prepare upload batch: "@ + reason@)
        }),
{
    let entry = preparation.pending[preparation.batch.len() as int];
    let content = upload_content(preparation.changed, entry.path, optional_bytes(reread));
    let kept = preparation.changed.dom().contains(entry.path);
    let is_text = kept || (reread is Some && vstd::utf8::valid_utf8(reread->0@));
    let text = if kept {
        preparation.changed[entry.path]
    } else {
        vstd::utf8::decode_utf8(reread->0@)
    };
    assert(content == if is_text { Some(text) } else { None });
    if is_text && content_hash(vstd::utf8::encode_utf8(text)) == entry.hash && !is_blank(text) {
        assert(content_fault(entry, content) is None);
        law_a_batch_takes_the_next_file_that_fits(
            PreparationView {
                changed: preparation.changed.remove(entry.path),
                batch: preparation.batch.push(
                    FileView { path: entry.path, content: text, hash: Some(entry.hash) },
                ),
                ..preparation
            },
        );
    }
}

/// What comes after the rules were verified or a file was taken: the next file is
/// checked as long as one is left and the batch has room for it, and otherwise the
/// rules are verified once more. The first file has room in any case; another one
/// where there are fewer than 256 and all of them stay within 4 MiB.
pub proof fn law_a_batch_takes_the_next_file_that_fits(preparation: PreparationView)
    requires
        preparation.batch.len() <= preparation.pending.len(),
    ensures
        ({
            let n = preparation.batch.len() as int;
            let bytes = batch_bytes(preparation.batch);
            let (next, action) = looked(preparation);
            let entry = preparation.pending[n];
            let room = n == 0 || (n < 256 && bytes + entry.size <= 4194304);
            &&& n == preparation.pending.len() ==> action == PrepareActionView::VerifyPolicy
                && next.stage == PrepareStage::Closing
            &&& n < preparation.pending.len() && 0 <= entry.size <= usize::MAX ==> action == (
            if room {
                PrepareActionView::Check {
                    path: entry.path,
                    retained: preparation.changed.dom().contains(entry.path),
                }
            } else {
                PrepareActionView::VerifyPolicy
            }) && next.stage == (if room {
                PrepareStage::Checking
            } else {
                PrepareStage::Closing
            })
            &&& n < preparation.pending.len() && !(0 <= entry.size <= usize::MAX) ==> action is Fail
            &&& next.batch == preparation.batch && next.pending == preparation.pending
                && next.changed == preparation.changed
        }),
{
}

/// The bytes of a batch are those of its files together.
pub proof fn law_bytes_of_a_batch_add_up(files: Seq<FileView>, more: FileView)
    ensures
        batch_bytes(seq![]) == 0,
        batch_bytes(files.push(more)) == batch_bytes(files) + vstd::utf8::encode_utf8(
            more.content,
        ).len(),
{
    assert(files.push(more).drop_last() =~= files);
}

/// A prepared batch is sent to the endpoint of the upload at once where fewer than
/// four requests are in flight, and otherwise waits. It is marked as not the last
/// one, unless it holds every file.
pub proof fn law_a_prepared_batch_is_sent(upload: UploadView, count: usize)
    requires
        upload.stage == UploadStage::Preparing,
        1 <= count <= upload.pending,
    ensures
        ({
            let (next, action) = upload_step(upload, UploadEvent::Prepared(Ok(count)));
            &&& next.ready == count && next.pending + count == upload.pending
            &&& next.in_flight == upload.in_flight && next.uploaded == upload.uploaded
            &&& next.total == upload.total && next.url == upload.url
            &&& upload.in_flight.len() < 4 ==> action == (UploadActionView::Send {
                url: upload.url,
                last: if count == upload.total { None } else { Some(false) },
            })
            &&& upload.in_flight.len() >= 4 ==> action == UploadActionView::Wait
        }),
{
}

/// A batch that was sent is in flight with all its files, and the next one is
/// prepared as long as files are left.
pub proof fn law_a_sent_batch_is_in_flight(upload: UploadView)
    requires
        upload.stage == UploadStage::Sending,
        upload_is_valid(upload),
    ensures
        ({
            let (next, action) = upload_step(upload, UploadEvent::Sent);
            &&& next.in_flight.len() == upload.in_flight.len() + 1
            &&& next.in_flight.drop_last() == upload.in_flight
            &&& next.in_flight.last() == upload.ready
            &&& next.ready == 0 && next.pending == upload.pending
            &&& next.uploaded == upload.uploaded && next.total == upload.total
            &&& action == (if upload.pending > 0 {
                UploadActionView::Prepare
            } else {
                UploadActionView::Wait
            })
        }),
{
}

/// A request that was stored counts its files as uploaded and is no longer in
/// flight. A batch that waited is then sent. When nothing is in flight any more,
/// the upload is done where one request held every file, and is completed by an
/// empty last request otherwise.
pub proof fn law_a_stored_batch_counts(upload: UploadView, slot: usize)
    requires
        upload.stage == UploadStage::Holding || upload.stage == UploadStage::Draining,
        slot < upload.in_flight.len(),
    ensures
        ({
            let event = UploadEvent::Answered { slot, reply: BatchReply::Stored };
            let (next, action) = upload_step(upload, event);
            let count = upload.in_flight[slot as int];
            let left = upload.in_flight.len() - 1;
            &&& next.uploaded == upload.uploaded + count
            &&& next.in_flight == upload.in_flight.take(slot as int) + upload.in_flight.skip(
                slot as int + 1,
            )
            &&& next.ready == upload.ready && next.pending == upload.pending
            &&& next.total == upload.total && next.url == upload.url
            &&& upload.stage == UploadStage::Holding ==> action == (UploadActionView::Send {
                url: upload.url,
                last: if upload.ready == upload.total { None } else { Some(false) },
            })
            &&& upload.stage == UploadStage::Draining && left > 0 ==> action
                == UploadActionView::Wait
            &&& upload.stage == UploadStage::Draining && left == 0 && count == upload.total
                ==> action == UploadActionView::Done(upload.uploaded + count as nat)
            &&& upload.stage == UploadStage::Draining && left == 0 && count != upload.total
                ==> action == (UploadActionView::Complete { url: upload.url })
        }),
{
    assert(upload.in_flight.remove(slot as int) =~= upload.in_flight.take(slot as int)
        + upload.in_flight.skip(slot as int + 1));
}

/// An upload fails with the first failure of a preparation, of a request or of its
/// completion, and says which it was.
pub proof fn law_a_failed_request_ends_the_upload(upload: UploadView, slot: usize, reason: String)
    ensures
        upload.stage == UploadStage::Preparing ==> upload_step(
            upload,
            UploadEvent::Prepared(Err(reason)),
        ).1 == UploadActionView::Fail(reason@),
        (upload.stage == UploadStage::Holding || upload.stage == UploadStage::Draining) && slot
            < upload.in_flight.len() ==> {
            &&& upload_step(
                upload,
                UploadEvent::Answered { slot, reply: BatchReply::Refused(reason) },
            ).1 == UploadActionView::Fail(
                "upload "@ + decimal(upload.in_flight[slot as int] as nat) + " files: "@ + reason@,
            )
            &&& upload_step(
                upload,
                UploadEvent::Answered { slot, reply: BatchReply::Lost(reason) },
            ).1 == UploadActionView::Fail("upload task: "@ + reason@)
        },
        upload.stage == UploadStage::Completing ==> {
            &&& upload_step(upload, UploadEvent::Completed(Err(reason))).1
                == UploadActionView::Fail("complete upload: "@ + reason@)
            &&& upload_step(upload, UploadEvent::Completed(Ok(()))).1 == UploadActionView::Done(
                upload.uploaded,
            )
        },
{
}

/// What is uploaded is what the server asked for, in its order, each with its entry of
/// the manifest; a path that it may not ask for is refused by name.
pub proof fn law_the_requested_files_are_uploaded(
    needed: &Vec<String>,
    manifest: &Vec<ManifestEntry>,
    changed: TextMap<PreparedFile>,
    files: Result<Files, String>,
)
    requires
        call_ensures(Files::new, (needed, manifest, changed), files),
    ensures
        ({
            let known = manifest_map(entry_views(manifest@));
            match files {
                Ok(f) => {
                    &&& f@.pending.len() == needed@.len()
                    &&& forall|i: int|
                        0 <= i < needed@.len() ==> known.dom().contains((#[trigger] needed@[i])@)
                            && f@.pending[i] == known[needed@[i]@]
                    &&& f@.changed == contents(changed@)
                },
                Err(message) => exists|at: int|
                    0 <= at < needed@.len() && message@
                        == "sync requested an unknown or duplicate manifest path: "@ + (
                    #[trigger] needed@[at])@,
            }
        }),
{
    let known = manifest_map(entry_views(manifest@));
    let list = texts(needed@);
    assert(forall|i: int| 0 <= i < needed@.len() ==> #[trigger] list[i] == needed@[i]@);
    match files {
        Ok(f) => {
            assert forall|i: int| 0 <= i < needed@.len() implies known.dom().contains(
                (#[trigger] needed@[i])@,
            ) && f@.pending[i] == known[needed@[i]@] by {
                assert(known.dom().contains(list[i]));
            }
        },
        Err(message) => {
            let at = choose|at: int|
                #[trigger] first_refused(list, known, at) && message@ == refused_message(list[at]);
            assert(needed@[at]@ == list[at]);
        },
    }
}

/// Every step of a preparation and of an upload is the one of its model.
pub proof fn law_uploads_go_by_their_steps(
    preparation: &mut Preparation,
    checked: PrepareEvent,
    prepare: PrepareAction,
    upload: &mut Upload,
    event: UploadEvent,
    action: UploadAction,
)
    requires
        call_ensures(Preparation::step, (preparation, checked), prepare),
        call_ensures(Upload::step, (upload, event), action),
    ensures
        final(preparation)@ == prepare_step(old(preparation)@, checked).0,
        prepare@ == prepare_step(old(preparation)@, checked).1,
        final(upload)@ == upload_step(old(upload)@, event).0,
        action@ == upload_step(old(upload)@, event).1,
        prepare matches PrepareAction::Ready(files) ==> prepare@ == PrepareActionView::Ready(
            Seq::new(
                files@.len(),
                |i: int|
                    FileView {
                        path: files@[i].path@,
                        content: files@[i].content@,
                        hash: optional(files@[i].hash),
                    },
            ),
        ),
        action matches UploadAction::Send { url, last } ==> action@ == (UploadActionView::Send {
            url: url@,
            last,
        }),
        action matches UploadAction::Done(count) ==> action@ == UploadActionView::Done(count as nat),
        action matches UploadAction::Fail(reason) ==> action@ == UploadActionView::Fail(reason@),
{
    if prepare is Ready {
        let files = prepare->Ready_0;
        assert(file_views(files@) =~= Seq::new(
            files@.len(),
            |i: int|
                FileView {
                    path: files@[i].path@,
                    content: files@[i].content@,
                    hash: optional(files@[i].hash),
                },
        ));
    }
}

} // verus!
