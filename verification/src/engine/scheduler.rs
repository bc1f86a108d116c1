//! Process-wide bounds on the work one engine schedules.

use std::sync::Arc;
use tokio::sync::Semaphore;
use vstd::prelude::*;

use crate::text::{parse_unsigned, parsed_unsigned, trim, trimmed};

verus! {

/// `tokio::sync::Semaphore`, carried through without a look inside.
#[verifier::external_type_specification]
#[verifier::external_body]
pub struct ExSemaphore(tokio::sync::Semaphore);

/// Concurrent full-tree scans across every coordinator.
pub const SCAN_PERMITS_VAR: &'static str = "SEMCTX_DAEMON_SCAN_PERMITS";

/// Concurrent upload requests across every coordinator.
pub const UPLOAD_PERMITS_VAR: &'static str = "SEMCTX_DAEMON_UPLOAD_PERMITS";

/// Concurrent interactive remote requests across every session.
pub const REMOTE_PERMITS_VAR: &'static str = "SEMCTX_DAEMON_REMOTE_PERMITS";

/// An override below this cannot make progress.
pub const MIN_PERMITS: usize = 1;

/// An override above this is not a bound.
pub const MAX_PERMITS: usize = 1024;

pub const MIN_SCANS: usize = 2;

pub const MAX_SCANS: usize = 8;

pub const DEFAULT_UPLOAD_PERMITS: usize = 8;

pub const DEFAULT_REMOTE_PERMITS: usize = 64;

/// `n` moved into the range from `low` to `high`.
pub open spec fn clamped(n: int, low: int, high: int) -> int {
    if n < low {
        low
    } else if n > high {
        high
    } else {
        n
    }
}

/// `Ord::clamp` on `usize`.
pub fn clamp(n: usize, low: usize, high: usize) -> (m: usize)
    requires
        low <= high,
    ensures
        m == clamped(n as int, low as int, high as int),
{
    if n < low {
        low
    } else if n > high {
        high
    } else {
        n
    }
}

/// The permits of one class: what the override reads as, or the default where
/// it is absent or unreadable, moved into the supported range.
pub open spec fn permit_count(raw: Option<&str>, default: usize) -> int {
    let read = match raw {
        Some(value) => parsed_unsigned(trimmed(value@), usize::MAX as nat),
        None => None,
    };
    let count = match read {
        Some(n) => n as int,
        None => default as int,
    };
    clamped(count, MIN_PERMITS as int, MAX_PERMITS as int)
}

pub fn permits(raw: Option<&str>, default: usize) -> (count: usize)
    ensures
        count == permit_count(raw, default),
{
    let read: Option<u64> = match raw {
        Some(value) => parse_unsigned(trim(value), usize::MAX as u64),
        None => None,
    };
    let wanted: usize = match read {
        Some(n) => n as usize,
        None => default,
    };
    clamp(wanted, MIN_PERMITS, MAX_PERMITS)
}

/// How many permits each class gets.
#[derive(Clone, Copy, Debug, PartialEq, Eq, Structural)]
pub struct SchedulerSettings {
    pub scan: usize,
    pub upload: usize,
    pub remote: usize,
}

impl SchedulerSettings {
    /// Every class can make progress, and every class is bounded.
    pub open spec fn wf(self) -> bool {
        &&& MIN_PERMITS <= self.scan <= MAX_PERMITS
        &&& MIN_PERMITS <= self.upload <= MAX_PERMITS
        &&& MIN_PERMITS <= self.remote <= MAX_PERMITS
    }

    /// The settings for the given overrides on a machine of this parallelism.
    pub fn resolve(
        scan: Option<&str>,
        upload: Option<&str>,
        remote: Option<&str>,
        parallelism: usize,
    ) -> (settings: SchedulerSettings)
        ensures
            settings.scan == permit_count(
                scan,
                clamped(parallelism as int / 2, MIN_SCANS as int, MAX_SCANS as int) as usize,
            ),
            settings.upload == permit_count(upload, DEFAULT_UPLOAD_PERMITS),
            settings.remote == permit_count(remote, DEFAULT_REMOTE_PERMITS),
            settings.wf(),
    {
        SchedulerSettings {
            scan: permits(scan, clamp(parallelism / 2, MIN_SCANS, MAX_SCANS)),
            upload: permits(upload, DEFAULT_UPLOAD_PERMITS),
            remote: permits(remote, DEFAULT_REMOTE_PERMITS),
        }
    }
}

/// How much of one permit class is free.
#[derive(Clone, Copy, Debug, PartialEq, Eq, Structural)]
pub struct PermitUsage {
    /// Permits no holder has taken.
    pub available: usize,
    /// Permits this class was built with.
    pub total: usize,
}

/// How much of every permit class is free.
#[derive(Clone, Copy, Debug, PartialEq, Eq, Structural)]
pub struct SchedulerUsage {
    pub scan: PermitUsage,
    pub upload: PermitUsage,
    pub remote: PermitUsage,
}

/// How much of every class is free, from what each semaphore reports.
pub fn usage_of(
    settings: SchedulerSettings,
    scan: usize,
    upload: usize,
    remote: usize,
) -> (usage: SchedulerUsage)
    ensures
        usage.scan == (PermitUsage { available: scan, total: settings.scan }),
        usage.upload == (PermitUsage { available: upload, total: settings.upload }),
        usage.remote == (PermitUsage { available: remote, total: settings.remote }),
{
    SchedulerUsage {
        scan: PermitUsage { available: scan, total: settings.scan },
        upload: PermitUsage { available: upload, total: settings.upload },
        remote: PermitUsage { available: remote, total: settings.remote },
    }
}

/// How many permits a semaphore was made with.
pub uninterp spec fn made_with(semaphore: Semaphore) -> nat;

/// `Semaphore::new`, which panics above an eighth of the range of `usize`; the
/// bound asked for here is far below. The semaphore is made with this number of
/// permits. How many of them are free changes under shared references, so nothing
/// is claimed of that.
#[verifier::external_body]
fn semaphore(permits: usize) -> (semaphore: Semaphore)
    requires
        permits <= MAX_PERMITS,
    ensures
        made_with(semaphore) == permits,
{
    Semaphore::new(permits)
}

/// `Semaphore::available_permits`: how many permits are free at this moment,
/// which other holders change at any time.
#[verifier::external_body]
fn available_permits(semaphore: &Semaphore) -> (free: usize) {
    semaphore.available_permits()
}

/// The permits every checkout and every session competes for.
pub struct Scheduler {
    scan: Arc<Semaphore>,
    upload: Arc<Semaphore>,
    remote: Arc<Semaphore>,
    /// What each class was built with.
    settings: SchedulerSettings,
}

impl Scheduler {
    /// Each class has the permits of its setting.
    #[verifier::type_invariant]
    spec fn permits_match(self) -> bool {
        &&& made_with(*self.scan) == self.settings.scan
        &&& made_with(*self.upload) == self.settings.upload
        &&& made_with(*self.remote) == self.settings.remote
    }

    pub closed spec fn built_with(self) -> SchedulerSettings {
        self.settings
    }

    pub closed spec fn scans(self) -> Arc<Semaphore> {
        self.scan
    }

    pub closed spec fn uploads(self) -> Arc<Semaphore> {
        self.upload
    }

    pub closed spec fn remotes(self) -> Arc<Semaphore> {
        self.remote
    }

    pub fn new(settings: SchedulerSettings) -> (scheduler: Scheduler)
        requires
            settings.wf(),
        ensures
            scheduler.built_with() == settings,
    {
        Scheduler {
            scan: Arc::new(semaphore(settings.scan)),
            upload: Arc::new(semaphore(settings.upload)),
            remote: Arc::new(semaphore(settings.remote)),
            settings,
        }
    }

    /// The handle a coordinator acquires one permit from per reconcile.
    pub fn scan_permits(&self) -> (handle: Arc<Semaphore>)
        ensures
            handle == self.scans(),
            made_with(*handle) == self.built_with().scan,
    {
        proof {
            use_type_invariant(self);
        }
        self.scan.clone()
    }

    /// The handle a sync acquires one permit from per upload request.
    pub fn upload_permits(&self) -> (handle: Arc<Semaphore>)
        ensures
            handle == self.uploads(),
            made_with(*handle) == self.built_with().upload,
    {
        proof {
            use_type_invariant(self);
        }
        self.upload.clone()
    }

    /// The handle a client acquires one permit from per request attempt.
    pub fn remote_permits(&self) -> (handle: Arc<Semaphore>)
        ensures
            handle == self.remotes(),
            made_with(*handle) == self.built_with().remote,
    {
        proof {
            use_type_invariant(self);
        }
        self.remote.clone()
    }

    /// How much of every class is free right now. The three readings are taken
    /// one after another.
    pub fn usage(&self) -> (usage: SchedulerUsage)
        ensures
            usage.scan.total == self.built_with().scan,
            usage.upload.total == self.built_with().upload,
            usage.remote.total == self.built_with().remote,
    {
        let scan: usize = available_permits(&self.scan);
        let upload: usize = available_permits(&self.upload);
        let remote: usize = available_permits(&self.remote);
        usage_of(self.settings, scan, upload, remote)
    }
}

/// Whatever the overrides say, every class gets at least one permit and at most
/// the supported maximum.
pub proof fn law_every_class_is_bounded(raw: Option<&str>, default: usize)
    ensures
        MIN_PERMITS <= permit_count(raw, default) <= MAX_PERMITS,
{
}

/// How many permits a class has: the number that is set, where one is set and can be
/// read, and otherwise the default; at least one and at most 1024 in any case.
pub proof fn law_permits_are_what_is_set(value: &str, number: nat, default: usize)
    ensures
        ({
            let moved = |n: int|
                if n < 1 {
                    1
                } else if n > 1024 {
                    1024
                } else {
                    n
                };
            &&& permit_count(None, default) == moved(default as int)
            &&& trimmed(value@) == crate::text::decimal(number) && number <= usize::MAX ==> permit_count(
                Some(value),
                default,
            ) == moved(number as int)
            &&& parsed_unsigned(trimmed(value@), usize::MAX as nat) is None ==> permit_count(
                Some(value),
                default,
            ) == moved(default as int)
        }),
{
    if trimmed(value@) == crate::text::decimal(number) && number <= usize::MAX {
        crate::text::law_a_decimal_reads_back(number);
    }
}

/// Every class has the permits that are set for it; what is not set is eight uploads,
/// 64 requests, and half as many scans as there are processors, from two to eight.
pub proof fn law_settings_are_what_is_set(
    scan: Option<&str>,
    upload: Option<&str>,
    remote: Option<&str>,
    parallelism: usize,
    settings: SchedulerSettings,
)
    requires
        call_ensures(SchedulerSettings::resolve, (scan, upload, remote, parallelism), settings),
    ensures
        scan is None ==> settings.scan == (if parallelism < 4 {
            2
        } else if parallelism >= 16 {
            8
        } else {
            parallelism as int / 2
        }),
        upload is None ==> settings.upload == 8,
        remote is None ==> settings.remote == 64,
        upload is Some ==> settings.upload == permit_count(upload, 8),
        remote is Some ==> settings.remote == permit_count(remote, 64),
{
}

} // verus!
