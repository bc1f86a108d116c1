//! Content-verified filter decisions for complete checkout scans.
//!
//! Every scan reads and hashes current bytes before it reuses a decision: file
//! metadata cannot prove content equality. Source is never kept here.

use vstd::prelude::*;

use crate::text::{copy_optional, copy_text, optional, same_optional};
use crate::textmap::TextMap;

verus! {

pub const SYNC_CACHE_FORMAT_VERSION: u32 = 4;

/// A decision of the content filter on bytes with this exact hash.
pub struct CachedContent {
    pub hash: String,
    pub indexable: bool,
}

/// A decision as its hash and what was decided.
pub open spec fn decision(content: CachedContent) -> (Seq<char>, bool) {
    (content.hash@, content.indexable)
}

/// The decisions of a map.
pub open spec fn decisions(files: Map<Seq<char>, CachedContent>) -> Map<
    Seq<char>,
    (Seq<char>, bool),
> {
    files.map_values(|c: CachedContent| decision(c))
}

pub fn copy_content(content: &CachedContent) -> (copy: CachedContent)
    ensures
        decision(copy) == decision(*content),
{
    CachedContent { hash: copy_text(content.hash.as_str()), indexable: content.indexable }
}

/// The decisions of one checkout, and where they are kept between processes.
pub struct CacheState {
    pub files: TextMap<CachedContent>,
    persist: bool,
    persisted_source_id: Option<String>,
    persistence_path: Option<String>,
}

pub struct CacheView {
    pub files: Map<Seq<char>, (Seq<char>, bool)>,
    pub persist: bool,
    pub source_id: Option<Seq<char>>,
    pub path: Option<Seq<char>>,
}

impl View for CacheState {
    type V = CacheView;

    closed spec fn view(&self) -> CacheView {
        CacheView {
            files: decisions(self.files@),
            persist: self.persist,
            source_id: optional(self.persisted_source_id),
            path: optional(self.persistence_path),
        }
    }
}

impl CacheView {
    /// Whether the decisions of a source have to be read: only a cache that is
    /// kept between processes reads them, and only once for each source.
    pub open spec fn must_load(self, source_id: Seq<char>) -> bool {
        self.persist && self.source_id != Some(source_id)
    }
}

impl CacheState {
    pub closed spec fn wf(self) -> bool {
        self.files.wf()
    }

    /// A cache for one process.
    pub fn new() -> (cache: CacheState)
        ensures
            cache.wf(),
            cache@ == (CacheView {
                files: Map::empty(),
                persist: false,
                source_id: None,
                path: None,
            }),
    {
        let cache = CacheState {
            files: TextMap::new(),
            persist: false,
            persisted_source_id: None,
            persistence_path: None,
        };
        assert(cache@.files =~= Map::empty());
        cache
    }

    /// A cache that survives separate processes.
    pub fn persistent() -> (cache: CacheState)
        ensures
            cache.wf(),
            cache@ == (CacheView {
                files: Map::empty(),
                persist: true,
                source_id: None,
                path: None,
            }),
    {
        let mut cache = CacheState::new();
        cache.persist = true;
        cache
    }

    /// Whether the decisions of a source have to be read.
    pub fn must_load(&self, source_id: &str) -> (load: bool)
        ensures
            load == self@.must_load(source_id@),
    {
        self.persist && !same_optional(&self.persisted_source_id, &Some(copy_text(source_id)))
    }

    /// Takes over what is kept for a source: `path` is where it is kept, where
    /// there is a place for it, and `stored` what was read there. The decisions
    /// of another source are forgotten.
    pub fn load_persistent(
        &mut self,
        source_id: &str,
        path: Option<String>,
        stored: Option<TextMap<CachedContent>>,
    )
        requires
            old(self).wf(),
            stored matches Some(files) ==> files.wf(),
        ensures
            final(self).wf(),
            final(self)@ == if !old(self)@.must_load(source_id@) {
                old(self)@
            } else {
                CacheView {
                    files: match (path, stored) {
                        (Some(_), Some(files)) => decisions(files@),
                        _ => Map::empty(),
                    },
                    persist: true,
                    source_id: Some(source_id@),
                    path: optional(path),
                }
            },
    {
        if !self.must_load(source_id) {
            return;
        }
        self.persisted_source_id = Some(copy_text(source_id));
        self.files = match (&path, stored) {
            (Some(_), Some(files)) => files,
            _ => {
                let none = TextMap::new();
                assert(decisions(none@) =~= Map::empty());
                none
            },
        };
        self.persistence_path = path;
    }

    /// Where the decisions are to be kept.
    pub fn save_path(&self) -> (path: Option<String>)
        ensures
            optional(path) == self@.path,
    {
        copy_optional(&self.persistence_path)
    }
}

/// What is read from a kept cache: one of another format is no cache.
pub fn usable(format_version: u32, files: TextMap<CachedContent>) -> (stored: Option<
    TextMap<CachedContent>,
>)
    ensures
        stored == if format_version == SYNC_CACHE_FORMAT_VERSION {
            Some(files)
        } else {
            None
        },
{
    if format_version != SYNC_CACHE_FORMAT_VERSION {
        return None;
    }
    Some(files)
}

/// The decisions on the files that `seen` holds.
pub fn kept(files: &TextMap<CachedContent>, seen: &TextMap<bool>) -> (rest: TextMap<CachedContent>)
    requires
        files.wf(),
        seen.wf(),
    ensures
        rest.wf(),
        decisions(rest@) == decisions(files@).restrict(seen@.dom()),
{
    let mut rest: TextMap<CachedContent> = TextMap::new();
    let mut i: usize = 0;
    let count: usize = files.len();
    let ghost all = files.listed();
    assert(decisions(rest@) =~= Map::empty());
    while i < count
        invariant
            i <= count,
            count == all.len(),
            all == files.listed(),
            files.wf(),
            seen.wf(),
            rest.wf(),
            forall|k: Seq<char>| #[trigger]
                rest@.dom().contains(k) <==> (exists|j: int| 0 <= j < i && all[j] == k)
                    && seen@.dom().contains(k),
            forall|k: Seq<char>|
                #[trigger] rest@.dom().contains(k) ==> decision(rest@[k]) == decision(files@[k]),
        decreases count - i,
    {
        let key = files.key_at(i);
        let ghost before = rest@;
        if seen.get(key).is_some() {
            let value = copy_content(files.value_at(i));
            rest.insert(copy_text(key), value);
        }
        assert forall|k: Seq<char>| #[trigger]
            rest@.dom().contains(k) <==> (exists|j: int| 0 <= j < i + 1 && all[j] == k)
                && seen@.dom().contains(k) by {
            if k == key@ {
                assert(all[i as int] == k);
            }
            if exists|j: int| 0 <= j < i + 1 && all[j] == k {
                let j = choose|j: int| 0 <= j < i + 1 && all[j] == k;
                if j < i {
                    assert(0 <= j < i && all[j] == k);
                    assert(seen@.dom().contains(k) ==> before.dom().contains(k));
                }
            }
            if before.dom().contains(k) {
                let j = choose|j: int| 0 <= j < i && all[j] == k;
                assert(0 <= j < i + 1 && all[j] == k);
            }
        }
        i = i + 1;
    }
    assert forall|k: Seq<char>| #[trigger]
        decisions(rest@).dom().contains(k) <==> decisions(files@).restrict(
            seen@.dom(),
        ).dom().contains(k) by {
        files.lemma_listed(k);
        assert(rest@.dom().contains(k) <==> (exists|j: int| 0 <= j < i && all[j] == k)
            && seen@.dom().contains(k));
    }
    assert(decisions(rest@) =~= decisions(files@).restrict(seen@.dom()));
    rest
}

/// A cache is loaded exactly where it is kept on disk and holds another source.
pub proof fn law_when_a_cache_is_loaded(cache: CacheView, source_id: Seq<char>)
    ensures
        !cache.persist ==> !cache.must_load(source_id),
        cache.persist && cache.source_id == Some(source_id) ==> !cache.must_load(source_id),
        cache.persist && cache.source_id != Some(source_id) ==> cache.must_load(source_id),
{
}

/// A cache that is kept on disk takes what is stored for a source when it first meets
/// it, and nothing where there is no file or nothing stored. Otherwise it stays as it
/// is.
pub proof fn law_loading_takes_what_is_stored(
    cache: &mut CacheState,
    source_id: &str,
    path: Option<String>,
    stored: Option<TextMap<CachedContent>>,
)
    requires
        call_ensures(CacheState::load_persistent, (cache, source_id, path, stored), ()),
    ensures
        ({
            let fresh = old(cache)@.persist && old(cache)@.source_id != Some(source_id@);
            &&& !fresh ==> final(cache)@ == old(cache)@
            &&& fresh ==> {
                &&& final(cache)@.persist && final(cache)@.source_id == Some(source_id@)
                &&& final(cache)@.path == optional(path)
                &&& path is Some && stored is Some ==> final(cache)@.files == decisions(stored->0@)
                &&& path is None || stored is None ==> final(cache)@.files == Map::<
                    Seq<char>,
                    (Seq<char>, bool),
                >::empty()
            }
        }),
{
}

/// Stored decisions are used exactly where they have the format that is written here,
/// and those on files that are gone are dropped.
pub proof fn law_which_decisions_are_kept(
    version: u32,
    files: TextMap<CachedContent>,
    usable_files: Option<TextMap<CachedContent>>,
    all: &TextMap<CachedContent>,
    seen: &TextMap<bool>,
    rest: TextMap<CachedContent>,
    path: Seq<char>,
)
    requires
        call_ensures(usable, (version, files), usable_files),
        call_ensures(kept, (all, seen), rest),
    ensures
        version == 4 ==> usable_files == Some(files),
        version != 4 ==> usable_files is None,
        rest@.dom().contains(path) <==> all@.dom().contains(path) && seen@.dom().contains(path),
        rest@.dom().contains(path) ==> rest@[path].hash@ == all@[path].hash@
            && rest@[path].indexable == all@[path].indexable,
{
    let left = decisions(rest@);
    let right = decisions(all@).restrict(seen@.dom());
    assert(left.dom().contains(path) == right.dom().contains(path));
    if rest@.dom().contains(path) {
        assert(left[path] == right[path]);
    }
}

} // verus!
