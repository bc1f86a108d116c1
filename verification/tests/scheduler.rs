use semctl::engine::scheduler::{
    Scheduler, SchedulerSettings, DEFAULT_REMOTE_PERMITS, DEFAULT_UPLOAD_PERMITS,
};

#[test]
fn defaults_follow_the_documented_table() {
    let settings = SchedulerSettings::resolve(None, None, None, 16);

    assert_eq!(settings.scan, 8, "half of 16 cores, capped at 8");
    assert_eq!(settings.upload, DEFAULT_UPLOAD_PERMITS);
    assert_eq!(settings.remote, DEFAULT_REMOTE_PERMITS);
}

#[test]
fn a_small_machine_still_scans_two_checkouts_at_once() {
    assert_eq!(SchedulerSettings::resolve(None, None, None, 1).scan, 2);
    assert_eq!(SchedulerSettings::resolve(None, None, None, 2).scan, 2);
    assert_eq!(SchedulerSettings::resolve(None, None, None, 6).scan, 3);
}

#[test]
fn overrides_are_clamped_into_the_supported_range() {
    let settings = SchedulerSettings::resolve(Some("0"), Some("99999"), Some(" 12 "), 4);

    assert_eq!(settings.scan, 1, "zero permits cannot make progress");
    assert_eq!(settings.upload, 1024, "an override cannot remove the bound");
    assert_eq!(settings.remote, 12);
}

#[test]
fn an_unreadable_override_keeps_the_default() {
    let settings = SchedulerSettings::resolve(Some(""), Some("lots"), Some("-4"), 4);

    assert_eq!(settings.scan, 2);
    assert_eq!(settings.upload, DEFAULT_UPLOAD_PERMITS);
    assert_eq!(settings.remote, DEFAULT_REMOTE_PERMITS);
}

fn one_of_each() -> Scheduler {
    Scheduler::new(SchedulerSettings::resolve(Some("1"), Some("1"), Some("1"), 4))
}

#[test]
fn a_permit_blocks_while_the_class_is_exhausted() {
    let scheduler = one_of_each();
    let uploads = scheduler.upload_permits();
    let held = uploads.try_acquire().expect("first upload permit");

    assert!(
        uploads.try_acquire().is_err(),
        "an exhausted class must make the next caller wait"
    );

    drop(held);
    assert!(
        uploads.try_acquire().is_ok(),
        "releasing a permit must admit the waiter"
    );
}

#[test]
fn the_usage_snapshot_reports_available_and_total_permits() {
    let scheduler =
        Scheduler::new(SchedulerSettings::resolve(Some("2"), Some("3"), Some("4"), 4));
    let uploads = scheduler.upload_permits();
    let _held = uploads.try_acquire().expect("upload permit");

    let usage = scheduler.usage();
    assert_eq!((usage.scan.available, usage.scan.total), (2, 2));
    assert_eq!(
        (usage.upload.available, usage.upload.total),
        (2, 3),
        "a held permit must be missing from the available count"
    );
    assert_eq!((usage.remote.available, usage.remote.total), (4, 4));
}

#[test]
fn the_classes_do_not_share_permits() {
    let scheduler = one_of_each();
    let uploads = scheduler.upload_permits();
    let _held = uploads.try_acquire().expect("upload permit");

    for permits in [scheduler.scan_permits(), scheduler.remote_permits()] {
        assert!(
            permits.try_acquire().is_ok(),
            "an unrelated class must still admit a permit"
        );
    }
}
