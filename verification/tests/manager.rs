use netdisk_sync::share_sync::config::{PollConfig, ShareSubscription};
use netdisk_sync::share_sync::diff::{LocalTarget, SyncTarget};
use netdisk_sync::share_sync::error::ShareSyncError;
use netdisk_sync::share_sync::events::{DiffSummary, Effect, RunStatus, ShareSyncEvent};
use netdisk_sync::share_sync::manager::{cleared_runs, link_fail_threshold, ShareSyncManager};
use netdisk_sync::share_sync::run::{
    capture_failed, enter, fail_run, finalize_resumed_run, finished, flag_setting,
    run_to_begin, should_advance_snapshot_baseline, snapshot_backoff_ms, snapshot_retry_limit,
    wanted, ApplyOutcome, CaptureFailure, CaptureStage, CaptureStep, RunItem,
};
use netdisk_sync::share_sync::snapshot::CapturedShare;
use netdisk_sync::share_sync::startup::{
    account_ready, corrupt_extension, is_wanted, probe_resumable_run, resume_targets, rerun,
    runs_to_try, wants_legacy_import, ReadyStep, ResumedWait, RunRecord,
};
use netdisk_sync::share_sync::submit::{
    deleted, download_conflict_strategy_for_share_sync, prefetched_share_for_captured,
    share_url_for_captured, submitted_task, ConflictStrategy, DeleteReply, LookupStep, NetdiskFile,
    NetdiskLookup, ProductionHooks,
};
use netdisk_sync::share_sync::snapshot::ShareSnapshotItem;
use netdisk_sync::share_sync::sync_run::{RunAsk, RunSettings, SyncRun};
use netdisk_sync::time::{Duration, Instant};
use netdisk_sync::transfer::{CreateTransferResponse, DownloadConflictStrategy, ShareKind};

fn sub(name: &str) -> ShareSubscription {
    ShareSubscription {
        id: format!("id-{name}"),
        name: name.into(),
        share_url: "https://pan.baidu.com/s/1y7CluAbCdEfGh".into(),
        password: None,
        include_paths: vec![],
        exclude_patterns: vec![],
        targets: vec![SyncTarget::Local(LocalTarget { local_path: "/tmp".into() })],
        enabled: true,
        poll_config: PollConfig { enabled: false, interval_secs: 0 },
        owner_uid: 0,
        created_at: 11,
        updated_at: 11,
        link_invalid: false,
        link_invalid_reason: None,
        consecutive_link_failures: 0,
    }
}

fn manager() -> ShareSyncManager {
    ShareSyncManager::new(vec![], None).0
}

fn create(m: &mut ShareSyncManager, s: ShareSubscription) -> ShareSubscription {
    m.create_subscription(&s, Ok(())).unwrap();
    m.subscription_created(&s);
    s
}

fn captured() -> CapturedShare {
    CapturedShare {
        short_key: "1abc".into(),
        shareid: "sid".into(),
        uk: "uk-1".into(),
        share_uk: "share-uk-2".into(),
        bdstoken: "tok".into(),
        kind: ShareKind::Personal,
        password: Some("pwd".into()),
        randsk: Some("rsk".into()),
    }
}

#[test]
fn test_prefetched_share_for_captured_maps_all_fields() {
    let info = prefetched_share_for_captured(&captured());
    assert_eq!(info.shareid, "sid");
    assert_eq!(info.uk, "uk-1");
    assert_eq!(info.share_uk, "share-uk-2");
    assert_eq!(info.bdstoken, "tok");
}

#[test]
fn test_new_manager_empty() {
    assert_eq!(manager().list_subscriptions().len(), 0);
}

#[test]
fn test_create_get_delete() {
    let mut m = manager();
    let s = create(&mut m, sub("a"));
    assert_eq!(m.list_subscriptions().len(), 1);
    assert!(m.get_subscription(&s.id).is_some());

    m.delete_subscription(&s.id).unwrap();
    assert_eq!(m.list_subscriptions().len(), 0);
}

#[test]
fn test_list_for_owner_isolates_accounts() {
    let mut m = manager();
    let mut a = sub("a");
    a.owner_uid = 1;
    let mut b = sub("b");
    b.owner_uid = 2;
    create(&mut m, a);
    create(&mut m, b);

    let owner1 = m.list_for_owner(1);
    assert_eq!(owner1.len(), 1);
    assert_eq!(owner1[0].name, "a");
    assert!(owner1.iter().all(|s| s.owner_uid == 1));

    let owner2 = m.list_for_owner(2);
    assert_eq!(owner2.len(), 1);
    assert_eq!(owner2[0].name, "b");

    assert_eq!(m.list_for_owner(999).len(), 0);
}

#[test]
fn test_update_subscription_preserves_id_and_created_at() {
    let mut m = manager();
    let s = create(&mut m, sub("a"));
    let original_created = s.created_at;

    let mut updated = s.clone();
    updated.name = "renamed".into();
    updated.created_at = 99;
    let back = m.update_subscription(&s.id, updated, Ok(()), 50).unwrap();
    m.subscription_updated(&s.id, &back);
    assert_eq!(back.id, s.id);
    assert_eq!(back.created_at, original_created);
    assert_eq!(back.name, "renamed");
    assert_eq!(m.get_subscription(&s.id).unwrap().name, "renamed");
}

#[test]
fn test_set_enabled_persists_state() {
    let mut m = manager();
    let s = create(&mut m, sub("a"));
    let off = m.set_enabled(&s.id, false, 20).unwrap();
    m.subscription_switched(&s.id, &off);
    assert!(!m.get_subscription(&s.id).unwrap().enabled);
    let on = m.set_enabled(&s.id, true, 21).unwrap();
    m.subscription_switched(&s.id, &on);
    assert!(m.get_subscription(&s.id).unwrap().enabled);
}

#[test]
fn test_resumed_finalize_uses_same_baseline_rule() {
    assert!(should_advance_snapshot_baseline(RunStatus::Completed));
    assert!(!should_advance_snapshot_baseline(RunStatus::CompletedWithErrors));
}

#[test]
fn test_snapshot_baseline_only_advances_after_clean_success() {
    assert!(should_advance_snapshot_baseline(RunStatus::Completed));
    assert!(!should_advance_snapshot_baseline(RunStatus::CompletedWithErrors));
    assert!(!should_advance_snapshot_baseline(RunStatus::Failed));
    assert!(!should_advance_snapshot_baseline(RunStatus::Running));
}

#[test]
fn test_share_sync_download_conflict_strategy_mapping() {
    assert_eq!(
        download_conflict_strategy_for_share_sync(ConflictStrategy::Overwrite),
        DownloadConflictStrategy::Overwrite
    );
    assert_eq!(
        download_conflict_strategy_for_share_sync(ConflictStrategy::Versioned),
        DownloadConflictStrategy::Overwrite
    );
    assert_eq!(
        download_conflict_strategy_for_share_sync(ConflictStrategy::Skip),
        DownloadConflictStrategy::Skip
    );
}

#[test]
fn test_create_invalid_subscription_rejected() {
    let m = manager();
    let mut bad = sub("a");
    bad.share_url = "https://example.com".into();
    let r = m.create_subscription(&bad, Err("share_url".into()));
    assert!(r.is_err());
}

#[test]
fn test_recovery_from_json_on_startup() {
    assert!(wants_legacy_import(0, true));
    let (m, _) = ShareSyncManager::new(vec![sub("preloaded")], None);
    let list = m.list_subscriptions();
    assert_eq!(list.len(), 1);
    assert_eq!(list[0].name, "preloaded");
}

#[test]
fn test_trigger_one_when_not_logged_in_fails() {
    let mut m = manager();
    let s = create(&mut m, sub("a"));
    let settings = RunSettings { max_retries: 0, base_ms: 0, threshold: 1, whole_dirs: false };
    let (mut run, action) = SyncRun::begin(&mut m, &s.id, None, settings, 5);
    assert!(matches!(action.ask, RunAsk::FindAccount { owner_uid: 0 }));
    let action = run.account_found(&mut m, false, false, 5);
    assert!(matches!(
        action.ask,
        RunAsk::Done { result: Err(ShareSyncError::ConfigError(_)) }
    ));
    assert!(!m.is_running(&s.id));
    let r = m.trigger_one(&s.id, false, false);
    assert!(matches!(r, Err(ShareSyncError::ConfigError(_))));
}

#[test]
fn test_trigger_one_when_already_running_fails_fast() {
    let mut m = manager();
    let mut one = sub("a");
    one.owner_uid = 1;
    let s = create(&mut m, one);
    assert!(m.enter_run(&s.id));
    let r = m.trigger_one(&s.id, false, false);
    m.leave_run(&s.id);
    assert!(matches!(r, Err(ShareSyncError::AlreadyRunning(_))));
}

#[test]
fn a_subscription_that_is_there_cannot_be_created() {
    let mut m = manager();
    let s = create(&mut m, sub("a"));
    assert!(matches!(
        m.create_subscription(&s, Ok(())),
        Err(ShareSyncError::SubscriptionExists(_))
    ));
    assert!(matches!(
        m.update_subscription("other", sub("b"), Ok(()), 1),
        Err(ShareSyncError::SubscriptionNotFound(_))
    ));
    assert!(m.delete_subscription("other").is_err());
    assert!(m.set_enabled("other", true, 1).is_err());
    assert!(m.subtasks("other", None).is_err());
    assert!(m.trigger_one("other", true, true).is_err());
}

#[test]
fn polling_starts_and_stops_with_the_subscription() {
    let mut m = manager();
    let mut s = sub("a");
    s.owner_uid = 3;
    s.poll_config = PollConfig { enabled: true, interval_secs: 60 };
    m.create_subscription(&s, Ok(())).unwrap();
    let effects = m.subscription_created(&s);
    assert!(effects.iter().any(
        |e| matches!(e, Effect::StartScheduler { subscription_id, interval_secs: 60 } if *subscription_id == s.id)
    ));
    let effects = m.delete_subscription(&s.id).unwrap();
    assert!(effects.iter().any(|e| matches!(e, Effect::StopScheduler { .. })));
    assert!(effects.iter().any(|e| matches!(e, Effect::DeleteSubscription { .. })));
    assert!(effects
        .iter()
        .any(|e| matches!(e, Effect::Publish { event: ShareSyncEvent::SubscriptionDeleted { .. } })));
    assert!(m.shutdown().is_empty());
}

#[test]
fn a_dead_link_is_given_up_at_the_threshold() {
    assert_eq!(link_fail_threshold(Some("2")), 2);
    let mut m = manager();
    let s = create(&mut m, sub("a"));
    m.note_link_failure(&s.id, "gone", 2);
    assert!(!m.get_subscription(&s.id).unwrap().link_invalid);
    m.maybe_note_link_failure(&s.id, false, "other", 2);
    assert_eq!(m.get_subscription(&s.id).unwrap().consecutive_link_failures, 1);
    m.maybe_note_link_failure(&s.id, true, "gone", 2);
    let dead = m.get_subscription(&s.id).unwrap();
    assert!(dead.link_invalid);
    assert_eq!(dead.link_invalid_reason.as_deref(), Some("gone"));
    let back = m.resume_link_invalid(&s.id, 30).unwrap();
    m.link_invalid_resumed(&s.id, &back);
    assert!(!m.get_subscription(&s.id).unwrap().link_invalid);
    m.note_link_failure(&s.id, "gone", 2);
    m.clear_link_failure(&s.id);
    assert_eq!(m.get_subscription(&s.id).unwrap().consecutive_link_failures, 0);
}

#[test]
fn old_runs_are_cleared_by_age() {
    let mut m = manager();
    let s = create(&mut m, sub("a"));
    assert_eq!(m.clear_runs_and_orphans(&s.id, 2, 1_000_000).unwrap(), 1_000_000 - 2 * 86_400);
    assert!(m.clear_runs_and_orphans("other", 2, 1_000_000).is_err());
    let r = cleared_runs(3, Some((1, 2)), None, 7);
    assert_eq!((r.db_deleted, r.transfer_mem, r.transfer_hist, r.folder_count, r.days), (3, 1, 2, 0, 7));
}

#[test]
fn a_run_enters_once() {
    let mut m = manager();
    let s = create(&mut m, sub("a"));
    assert!(enter(&mut m, &s.id, &None, 5).is_ok());
    assert!(m.is_running(&s.id));
    match enter(&mut m, &s.id, &Some("r".into()), 5) {
        Err(stopped) => assert!(matches!(stopped.error, ShareSyncError::AlreadyRunning(_))),
        Ok(_) => panic!("it runs already"),
    }
    m.leave_run(&s.id);
    assert!(wanted(&m, &s.id, &None, 5).is_ok());
    assert!(wanted(&m, "other", &None, 5).is_err());
    match run_to_begin(&None, &s.id, 4) {
        Err(new) => {
            assert_eq!(new.subscription_id, s.id);
            assert_eq!(new.owner_uid, 4);
            assert_eq!(new.run_id.len(), 36);
        }
        Ok(_) => panic!("no run was given"),
    }
    assert!(matches!(run_to_begin(&Some("r".into()), &s.id, 4), Ok(r) if r == "r"));
}

#[test]
fn settings_have_defaults() {
    assert!(flag_setting(Some("TRUE")));
    assert!(flag_setting(Some("1")));
    assert!(flag_setting(Some("no")));
    assert!(!flag_setting(Some("0")));
    assert!(!flag_setting(Some("False")));
    assert_eq!(snapshot_retry_limit(Some("5")), 5);
    assert_eq!(snapshot_backoff_ms(Some("250")), 250);
    assert_eq!(snapshot_retry_limit(Some("x")), snapshot_retry_limit(None));
}

#[test]
fn a_failed_capture_is_tried_again() {
    let mut m = manager();
    let s = create(&mut m, sub("a"));
    let failure = |may_pass: bool| CaptureFailure {
        stage: CaptureStage::Listing,
        error: ShareSyncError::ShareLinkError("x".into()),
        text: "x".into(),
        may_pass,
        link_invalid: false,
    };
    assert!(matches!(
        capture_failed(&mut m, "r", &s.id, 1, failure(true), 0, 3, 100, 2, 9),
        CaptureStep::Retry { .. }
    ));
    match capture_failed(&mut m, "r", &s.id, 1, failure(false), 0, 3, 100, 2, 9) {
        CaptureStep::GiveUp(stopped) => {
            assert!(stopped.effects.iter().any(|e| matches!(e, Effect::FinishRun { .. })))
        }
        CaptureStep::Retry { .. } => panic!("it cannot pass"),
    }
}

fn outcome(status: RunStatus) -> ApplyOutcome {
    ApplyOutcome {
        run_id: "r".into(),
        status,
        diff_summary: DiffSummary::default(),
        error: None,
        resource_skipped: false,
        transient_skipped: false,
    }
}

#[test]
fn only_a_clean_run_keeps_its_snapshot() {
    let clean = finished(&outcome(RunStatus::Completed), "s", 1, 10);
    assert!(clean.iter().any(|e| matches!(e, Effect::PromoteSnapshot { .. })));
    let bad = finished(&outcome(RunStatus::CompletedWithErrors), "s", 1, 10);
    assert!(!bad.iter().any(|e| matches!(e, Effect::PromoteSnapshot { .. })));
    let failed = fail_run("r", "s", 1, "why", 5);
    assert!(failed
        .iter()
        .any(|e| matches!(e, Effect::FinishRun { status: RunStatus::Failed, .. })));
}

#[test]
fn a_resumed_run_is_finalized_from_its_items() {
    let items = vec![
        RunItem { id: 1, status: "completed".into(), transfer_task_id: None },
        RunItem { id: 2, status: "failed".into(), transfer_task_id: None },
    ];
    let effects = finalize_resumed_run(&items, &vec![], "r", "s", 1, 5);
    assert!(effects
        .iter()
        .any(|e| matches!(e, Effect::FinishRun { status: RunStatus::CompletedWithErrors, .. })));
    assert!(!effects.iter().any(|e| matches!(e, Effect::PromoteSnapshot { .. })));
    let clean = finalize_resumed_run(&items[..1].iter().map(|i| RunItem { id: i.id, status: i.status.clone(), transfer_task_id: None }).collect(), &vec![], "r", "s", 1, 5);
    assert!(clean.iter().any(|e| matches!(e, Effect::PromoteSnapshot { .. })));
}

#[test]
fn interrupted_runs_are_taken_up_or_run_anew() {
    let record = |r: &str, s: &str| RunRecord { run_id: r.into(), subscription_id: s.into() };
    let targets = resume_targets(&vec![record("r1", "a")], &vec![record("r2", "a"), record("r3", "b")]);
    assert_eq!(targets.len(), 2);
    let a = targets.iter().find(|t| t.0 == "a").unwrap();
    assert_eq!(a.1.fresh, vec!["r1"]);
    assert_eq!(a.1.stale, vec!["r2"]);
    assert_eq!(runs_to_try(&a.1), vec!["r1", "r2"]);
    assert!(rerun(&a.1, "a", 1).is_some());
    let b = targets.iter().find(|t| t.0 == "b").unwrap();
    assert!(rerun(&b.1, "b", 1).is_none());
    let mut m = manager();
    let s = create(&mut m, sub("a"));
    assert!(is_wanted(&m, &s.id));
    assert!(!is_wanted(&m, "other"));
    assert!(probe_resumable_run(false, None, None).is_none());
    assert!(matches!(account_ready(1, true, true), ReadyStep::Ready));
    assert!(matches!(account_ready(1, false, true), ReadyStep::Retry));
    assert!(!wants_legacy_import(1, true));
    assert!(corrupt_extension(77).contains("77"));
}

#[test]
fn a_resumed_wait_wakes_now_and_then() {
    let start = Instant { nanos: 0 };
    let mut w = ResumedWait::begin(start, Some(Duration::from_secs(1000)));
    assert!(!w.is_overdue(start));
    assert!(w.is_overdue(start.plus(Duration::from_secs(1000))));
    assert!(w.wants_wake(start));
    assert!(!w.wants_wake(start));
}

#[test]
fn requests_carry_the_mark_of_their_subscription() {
    let hooks = ProductionHooks { captured: captured(), owner_uid: 4, subscription_id: "s".into() };
    assert_eq!(share_url_for_captured(&captured()), "https://pan.baidu.com/s/1abc?pwd=pwd");
    let item = ShareSnapshotItem::new("/d/x", "x", 5, 7, false);
    let req = hooks.submit_transfer(&captured(), "/to", &item);
    assert_eq!(req.selected_fs_ids, Some(vec![5]));
    assert_eq!(req.save_path, "/to");
    assert!(req.prefetched_share.is_some());
    let down = hooks.submit_download(&item, "/local", ConflictStrategy::Skip, None).unwrap();
    assert_eq!(down.local_download_path.as_deref(), Some("/local"));
    assert!(hooks.submit_transfer_batch(&captured(), "/to", &vec![]).is_err());
    assert_eq!(hooks.share_sync_backup_config_id(), netdisk_sync::share_sync::subtasks::share_sync_backup_config_id("s"));
}

#[test]
fn submissions_give_a_task_or_say_why_not() {
    let ok = CreateTransferResponse { task_id: Some("t".into()), need_password: false, error: None };
    assert_eq!(submitted_task(Ok(ok), false).unwrap(), "t");
    assert!(matches!(submitted_task(Err("x".into()), true), Err(ShareSyncError::DownloadError(_))));
    assert!(matches!(submitted_task(Err("x".into()), false), Err(ShareSyncError::TransferError(_))));
    let none = CreateTransferResponse { task_id: None, need_password: false, error: Some("e".into()) };
    assert!(submitted_task(Ok(none), false).is_err());
}

#[test]
fn deletions_say_what_failed() {
    assert!(deleted(Ok(DeleteReply { success: true, error: None, failed_paths: vec![] })).is_ok());
    let r = deleted(Ok(DeleteReply {
        success: false,
        error: None,
        failed_paths: vec!["/a".into(), "/b".into()],
    }));
    match r {
        Err(ShareSyncError::FileSystemError(m)) | Err(ShareSyncError::Internal(m)) | Err(ShareSyncError::TransferError(m)) => {
            assert!(m.contains("[\"/a\", \"/b\"]"))
        }
        _ => panic!("it failed"),
    }
    assert!(deleted(Err("x".into())).is_err());
}

#[test]
fn a_target_is_looked_up_page_by_page() {
    let mut look = NetdiskLookup::begin("/d/x");
    assert_eq!(look.parent, "/d");
    assert_eq!(look.name, "x");
    let file = |name: &str| NetdiskFile {
        path: format!("/d/{name}"),
        server_filename: name.into(),
        fs_id: 8,
        isdir: 0,
    };
    assert!(matches!(look.listed(Ok(vec![file("y"), file("x")])), LookupStep::Found(e) if e.fs_id == 8));
    assert!(matches!(NetdiskLookup::begin("/d/x").listed(Ok(vec![])), LookupStep::Missing));
    assert!(matches!(NetdiskLookup::begin("/d/x").listed(Err("boom".into())), LookupStep::Failed(_)));
}
