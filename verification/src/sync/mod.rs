//! File synchronization: walk a checkout, filter and hash its files, send a
//! manifest, and upload what the server asks for.

pub mod cache;
pub mod policy;
pub mod relevance;
pub mod run;
pub mod scan;
pub mod source;
pub mod upload;
pub mod walker;

use vstd::prelude::*;

use crate::text::copy_text;
use crate::textmap::TextMap;

verus! {

/// What a sync queued, for the caller to report on.
pub struct SyncOutcome {
    pub codebase_id: String,
    pub job_id: String,
    pub uploaded: usize,
    pub to_delete: usize,
}

/// A user-visible milestone from a one-shot sync.
pub enum SyncProgress {
    Preparing,
    Scanning { root: String },
    Planning { files: usize, cached_files: usize },
    Uploading { uploaded_files: usize, total_files: usize },
    Finalizing,
}

/// Identifies the index job that a status call reports on.
pub struct LastJob {
    pub job_id: String,
}

/// The latest job of each codebase.
pub struct JobRegistry {
    jobs: TextMap<LastJob>,
}

/// The jobs of a map, by codebase.
pub open spec fn job_ids(jobs: Map<Seq<char>, LastJob>) -> Map<Seq<char>, Seq<char>> {
    jobs.map_values(|job: LastJob| job.job_id@)
}

impl View for JobRegistry {
    type V = Map<Seq<char>, Seq<char>>;

    closed spec fn view(&self) -> Map<Seq<char>, Seq<char>> {
        job_ids(self.jobs@)
    }
}

impl JobRegistry {
    pub closed spec fn wf(self) -> bool {
        self.jobs.wf()
    }

    pub fn new() -> (registry: JobRegistry)
        ensures
            registry.wf(),
            registry@ == Map::<Seq<char>, Seq<char>>::empty(),
    {
        let registry = JobRegistry { jobs: TextMap::new() };
        assert(registry@ =~= Map::<Seq<char>, Seq<char>>::empty());
        registry
    }

    /// Records the job a sync just queued. One codebase's job never replaces
    /// another's.
    pub fn record_job(&mut self, outcome: &SyncOutcome)
        requires
            old(self).wf(),
        ensures
            final(self).wf(),
            final(self)@ == old(self)@.insert(outcome.codebase_id@, outcome.job_id@),
    {
        let ghost before = self.jobs@;
        self.jobs.insert(
            copy_text(outcome.codebase_id.as_str()),
            LastJob { job_id: copy_text(outcome.job_id.as_str()) },
        );
        assert(self@ =~= job_ids(before).insert(outcome.codebase_id@, outcome.job_id@));
    }

    /// The latest job of a codebase.
    pub fn job(&self, codebase_id: &str) -> (job: Option<String>)
        requires
            self.wf(),
        ensures
            match job {
                Some(id) => self@.dom().contains(codebase_id@) && self@[codebase_id@] == id@,
                None => !self@.dom().contains(codebase_id@),
            },
    {
        match self.jobs.get(codebase_id) {
            Some(job) => Some(copy_text(job.job_id.as_str())),
            None => None,
        }
    }
}

} // verus!
