//! What is said of an index below the results of a search.

use vstd::prelude::*;

use crate::api::JobStatus;
use crate::text::{copy_optional, copy_text, optional, same};

verus! {

/// What a job's state says of search results. A clean index says nothing.
pub open spec fn footer_text(job: JobStatus) -> Option<Seq<char>> {
    if job.error is Some {
        Some("(index freshness: the last sync FAILED — results may be stale; run sync_status)"@)
    } else if job.completed_at is Some {
        None
    } else {
        Some(
            "(index freshness: a sync is in progress — results may be incomplete; run sync_status)"@,
        )
    }
}

/// Whether a job's state changes no more.
pub open spec fn is_terminal(job: JobStatus) -> bool {
    job.completed_at is Some || job.error is Some
}

/// The footer of the last job that ended, so that repeated searches do not ask
/// for it again.
pub struct Freshness {
    cached: Option<(String, Option<String>)>,
}

/// What is known of one job.
pub struct FooterView {
    pub job_id: Seq<char>,
    pub footer: Option<Seq<char>>,
}

impl View for Freshness {
    type V = Option<FooterView>;

    closed spec fn view(&self) -> Option<FooterView> {
        match self.cached {
            Some((job_id, footer)) => Some(
                FooterView { job_id: job_id@, footer: optional(footer) },
            ),
            None => None,
        }
    }
}

/// What comes before a search is answered.
pub enum FreshnessStep {
    /// The footer.
    Answer(Option<String>),
    /// Ask for the status of this job first.
    Ask(String),
}

/// What comes before a search is answered: nothing is said without a local
/// checkout or without a job of this session.
pub open spec fn freshness_step(
    cache: Option<FooterView>,
    has_checkout: bool,
    last_job: Option<Seq<char>>,
) -> Result<Option<Seq<char>>, Seq<char>> {
    match last_job {
        Some(job) if has_checkout => match cache {
            Some(known) if known.job_id == job => Ok(known.footer),
            _ => Err(job),
        },
        _ => Ok(None),
    }
}

impl Freshness {
    pub fn new() -> (freshness: Freshness)
        ensures
            freshness@ is None,
    {
        Freshness { cached: None }
    }

    /// What comes before a search is answered.
    pub fn ask(&self, has_checkout: bool, last_job: &Option<String>) -> (step: FreshnessStep)
        ensures
            match step {
                FreshnessStep::Answer(footer) => freshness_step(
                    self@,
                    has_checkout,
                    optional(*last_job),
                ) == Ok::<Option<Seq<char>>, Seq<char>>(optional(footer)),
                FreshnessStep::Ask(job) => freshness_step(self@, has_checkout, optional(*last_job))
                    == Err::<Option<Seq<char>>, Seq<char>>(job@),
            },
    {
        if !has_checkout {
            return FreshnessStep::Answer(None);
        }
        let job = match last_job {
            Some(job) => job,
            None => return FreshnessStep::Answer(None),
        };
        match &self.cached {
            Some((known, footer)) => {
                if same(known.as_str(), job.as_str()) {
                    return FreshnessStep::Answer(copy_optional(footer));
                }
            },
            None => {},
        }
        FreshnessStep::Ask(copy_text(job.as_str()))
    }

    /// The footer of a job, once its status was asked for. A status that cannot
    /// be had says nothing.
    pub fn take(&mut self, job_id: String, status: &Result<JobStatus, String>) -> (footer: Option<
        String,
    >)
        ensures
            match status {
                Ok(job) => {
                    &&& optional(footer) == footer_text(*job)
                    &&& final(self)@ == if is_terminal(*job) {
                        Some(FooterView { job_id: job_id@, footer: footer_text(*job) })
                    } else {
                        old(self)@
                    }
                },
                Err(_) => footer is None && *final(self) == *old(self),
            },
    {
        let job = match status {
            Ok(job) => job,
            Err(_) => return None,
        };
        let footer = if job.error.is_some() {
            Some(
                copy_text(
                    "(index freshness: the last sync FAILED — results may be stale; run sync_status)",
                ),
            )
        } else if job.completed_at.is_some() {
            None
        } else {
            Some(
                copy_text(
                    "(index freshness: a sync is in progress — results may be incomplete; run sync_status)",
                ),
            )
        };
        if job.completed_at.is_some() || job.error.is_some() {
            self.cached = Some((job_id, copy_optional(&footer)));
        }
        footer
    }
}

/// A search warns only where there is something to warn of, and a job that ended
/// is asked for once: the next search answers the same from memory.
pub proof fn law_ended_jobs_are_asked_for_once(
    after: Option<FooterView>,
    job_id: Seq<char>,
    job: JobStatus,
)
    requires
        is_terminal(job),
        after == Some(FooterView { job_id, footer: footer_text(job) }),
    ensures
        freshness_step(after, true, Some(job_id)) == Ok::<Option<Seq<char>>, Seq<char>>(
            footer_text(job),
        ),
        footer_text(job) is None <==> job.error is None,
{
}

/// What is said of freshness: that the last sync failed, that one runs, or nothing of
/// one that is complete. Without a checkout or a job nothing is said; of another job
/// than the one that is known the server is asked.
pub proof fn law_what_is_said_of_freshness(
    job: JobStatus,
    cache: Option<FooterView>,
    has_checkout: bool,
    last_job: Seq<char>,
)
    ensures
        job.error is Some ==> footer_text(job) == Some(
            "(index freshness: the last sync FAILED — results may be stale; run sync_status)"@,
        ),
        job.error is None && job.completed_at is Some ==> footer_text(job) is None,
        job.error is None && job.completed_at is None ==> footer_text(job) == Some(
            "(index freshness: a sync is in progress — results may be incomplete; run sync_status)"@,
        ),
        freshness_step(cache, has_checkout, None) == Ok::<Option<Seq<char>>, Seq<char>>(None),
        freshness_step(cache, false, Some(last_job)) == Ok::<Option<Seq<char>>, Seq<char>>(None),
        cache matches Some(known) && known.job_id == last_job ==> freshness_step(
            cache,
            true,
            Some(last_job),
        ) == Ok::<Option<Seq<char>>, Seq<char>>(cache->0.footer),
        !(cache matches Some(known) && known.job_id == last_job) ==> freshness_step(
            cache,
            true,
            Some(last_job),
        ) == Err::<Option<Seq<char>>, Seq<char>>(last_job),
        is_terminal(job) <==> job.completed_at is Some || job.error is Some,
{
}

/// What is told of a job is kept once the job has ended; of one that goes on, and of a
/// status that could not be had, nothing is kept.
pub proof fn law_ended_jobs_are_kept(
    freshness: &mut Freshness,
    job_id: String,
    status: &Result<JobStatus, String>,
    footer: Option<String>,
)
    requires
        call_ensures(Freshness::take, (freshness, job_id, status), footer),
    ensures
        status is Err ==> footer is None && final(freshness)@ == old(freshness)@,
        status matches Ok(job) ==> {
            &&& optional(footer) == footer_text(*job)
            &&& job.completed_at is Some || job.error is Some ==> final(freshness)@ == Some(
                FooterView { job_id: job_id@, footer: footer_text(*job) },
            )
            &&& job.completed_at is None && job.error is None ==> final(freshness)@ == old(freshness)@
        },
{
}

} // verus!
