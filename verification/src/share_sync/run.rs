//! One run of a subscription.
//!
//! What is decided at each step of a run stands here; `sync_run` puts the steps in their order.
use vstd::prelude::*;

use crate::collections::PathSet;
use crate::numbers;
use crate::numbers::{parse_u32, parse_u64};
use crate::share_sync::config::ShareSubscription;
use crate::share_sync::diff;
use crate::share_sync::diff::{
    execution_diff_with_directory_ancestors, ShareDiff, ShareModifiedItem,
};
use crate::share_sync::error;
use crate::share_sync::error::ShareSyncError;
use crate::share_sync::events;
use crate::share_sync::events::{
    no_effects, push_effect, DiffSummary, Effect, EffectView, EventView, RunItemStatus, RunStatus,
    ShareSyncEvent,
};
use crate::share_sync::manager;
use crate::share_sync::manager::{
    dead_link_reason, fresh_run, no_transfer, not_logged_in, NewRun, ShareSyncManager,
};
use crate::share_sync::scan;
use crate::share_sync::scan::retry_delay;
use crate::share_sync::snapshot;
use crate::share_sync::snapshot::{ShareSnapshot, ShareSnapshotItem};
use crate::share_sync::subtasks;
use crate::share_sync::subtasks::{
    any_download_failed, is_terminal_run_item_status, residual_subtasks, rows_to_report,
    share_sync_backup_config_id, ShareSyncSubtask,
};
use crate::text;
use crate::text::{concat3, same, to_lowercase};

verus! {

// ---------------------------------------------------------------------------
// Settings
// ---------------------------------------------------------------------------
/// Whether a flag is on, given its value and the value in lower case: it is unless it is
/// `0` or says that it is not. A flag that is not set is on.
pub open spec fn flag_is_on(setting: Option<Seq<char>>, lowered: Option<Seq<char>>) -> bool {
    match (setting, lowered) {
        (Some(v), Some(l)) => v != "0"@ && l != "false"@,
        _ => true,
    }
}

/// Whether a flag is on, given its value and the value in lower case.
pub fn flag_from(value: &str, lowered: &str) -> (r: bool)
    ensures
        r == flag_is_on(Some(value@), Some(lowered@)),
{
    !same(value, "0") && !same(lowered, "false")
}

/// Whether a flag is on.
pub fn flag_setting(setting: Option<&str>) -> (r: bool)
    ensures
        r == match setting {
            Some(v) => flag_is_on(Some(v@), Some(text::lowercase_of(v@))),
            None => true,
        },
{
    match setting {
        Some(v) => {
            let lowered = to_lowercase(v);
            flag_from(v, lowered.as_str())
        },
        None => true,
    }
}

/// How often the capture of a share is tried again, from the setting.
pub fn snapshot_retry_limit(setting: Option<&str>) -> (r: u32)
    ensures
        r == match setting {
            Some(s) => match numbers::unsigned_of(s@, u32::MAX as nat) {
                Some(n) => n,
                None => 3,
            },
            None => 3,
        },
{
    match setting {
        Some(s) => match parse_u32(s) {
            Some(n) => n,
            None => 3,
        },
        None => 3,
    }
}

/// The first delay between two captures in milliseconds, from the setting.
pub fn snapshot_backoff_ms(setting: Option<&str>) -> (r: u64)
    ensures
        r == match setting {
            Some(s) => match numbers::unsigned_of(s@, u64::MAX as nat) {
                Some(n) => n,
                None => 1000,
            },
            None => 1000,
        },
{
    match setting {
        Some(s) => match parse_u64(s) {
            Some(n) => n,
            None => 1000,
        },
        None => 1000,
    }
}

// ---------------------------------------------------------------------------
// Failures
// ---------------------------------------------------------------------------
/// What is done about a run that failed: it is noted, also where its beginning never was;
/// its snapshot is deleted; and it is announced.
pub open spec fn failure(
    run_id: Seq<char>,
    subscription_id: Seq<char>,
    owner_uid: u64,
    msg: Seq<char>,
    now: i64,
) -> Seq<EffectView> {
    seq![
        EffectView::StartRun { run_id, subscription_id, started_at: now },
        EffectView::FinishRun {
            run_id,
            finished_at: now,
            status: RunStatus::Failed,
            summary: events::no_summary(),
            error: Some(msg),
        },
        EffectView::DeleteSnapshot { run_id },
        EffectView::Publish {
            event: events::EventView::RunFailed {
                run_id,
                subscription_id,
                error: msg,
                owner_uid,
                reason: None,
            },
        },
    ]
}

/// What is done about a run that failed.
pub fn fail_run(run_id: &str, subscription_id: &str, owner_uid: u64, msg: &str, now: i64) -> (r:
    Vec<Effect>)
    ensures
        events::effect_views(r@) == failure(run_id@, subscription_id@, owner_uid, msg@, now),
{
    let mut r = no_effects();
    push_effect(
        &mut r,
        Effect::StartRun {
            run_id: run_id.to_owned(),
            subscription_id: subscription_id.to_owned(),
            started_at: now,
        },
    );
    push_effect(
        &mut r,
        Effect::FinishRun {
            run_id: run_id.to_owned(),
            finished_at: now,
            status: RunStatus::Failed,
            summary: DiffSummary::default(),
            error: Some(msg.to_owned()),
        },
    );
    push_effect(&mut r, Effect::DeleteSnapshot { run_id: run_id.to_owned() });
    push_effect(
        &mut r,
        Effect::Publish {
            event: ShareSyncEvent::RunFailed {
                run_id: run_id.to_owned(),
                subscription_id: subscription_id.to_owned(),
                error: msg.to_owned(),
                owner_uid,
                reason: None,
            },
        },
    );
    assert(events::effect_views(r@) =~= failure(
        run_id@,
        subscription_id@,
        owner_uid,
        msg@,
        now,
    ));
    r
}

/// What is done about a run that cannot begin: a run that was announced fails.
pub open spec fn refusal(
    given: Option<Seq<char>>,
    subscription_id: Seq<char>,
    owner_uid: u64,
    msg: Seq<char>,
    now: i64,
) -> Seq<EffectView> {
    match given {
        Some(run_id) => failure(run_id, subscription_id, owner_uid, msg, now),
        None => Seq::empty(),
    }
}

fn refuse(
    given: &Option<String>,
    subscription_id: &str,
    owner_uid: u64,
    msg: &str,
    now: i64,
) -> (r: Vec<Effect>)
    ensures
        events::effect_views(r@) == refusal(
            text::opt_text(*given),
            subscription_id@,
            owner_uid,
            msg@,
            now,
        ),
{
    match given {
        Some(run_id) => fail_run(run_id.as_str(), subscription_id, owner_uid, msg, now),
        None => no_effects(),
    }
}

/// A run that stops, and what is to be done about it.
#[derive(Debug)]
pub struct Stopped {
    pub error: ShareSyncError,
    pub effects: Vec<Effect>,
}

/// What a `Stopped` holds.
#[verifier::ext_equal]
pub struct StoppedView {
    pub error: error::ErrorView,
    pub effects: Seq<EffectView>,
}

impl View for Stopped {
    type V = StoppedView;

    open spec fn view(&self) -> StoppedView {
        StoppedView { error: self.error@, effects: events::effect_views(self.effects@) }
    }
}

// ---------------------------------------------------------------------------
// The beginning
// ---------------------------------------------------------------------------
/// Enters a run of a subscription. `given` is the id of the run where it was announced.
/// There is one run of a subscription at a time.
pub fn enter(manager: &mut ShareSyncManager, id: &str, given: &Option<String>, now: i64) -> (r:
    Result<(), Stopped>)
    ensures
        final(manager)@ == (manager::ManagerState {
            running: old(manager)@.running.insert(id@),
            ..old(manager)@
        }),
        match r {
            Ok(_) => !old(manager)@.running.contains(id@),
            Err(s) => old(manager)@.running.contains(id@) && s@ == (StoppedView {
                error: error::ErrorView::AlreadyRunning(id@),
                effects: refusal(
                    text::opt_text(*given),
                    id@,
                    if old(manager)@.subs.contains_key(id@) {
                        old(manager)@.subs[id@].owner_uid
                    } else {
                        0
                    },
                    "已有同步任务在执行，已取消本次触发"@,
                    now,
                ),
            }),
        },
{
    if manager.enter_run(id) {
        return Ok(());
    }
    let owner_uid: u64 = match manager.get_subscription(id) {
        Some(s) => s.owner_uid,
        None => 0,
    };
    Err(
        Stopped {
            error: ShareSyncError::AlreadyRunning(id.to_owned()),
            effects: refuse(
                given,
                id,
                owner_uid,
                "已有同步任务在执行，已取消本次触发",
                now,
            ),
        },
    )
}

/// Why a run does not begin, if it does not: there is no such subscription, or its link is dead.
/// A dead link is not tried until it is mended.
pub open spec fn not_wanted(
    st: manager::ManagerState,
    id: Seq<char>,
    given: Option<Seq<char>>,
    now: i64,
) -> Option<StoppedView> {
    if !st.subs.contains_key(id) {
        Some(
            StoppedView {
                error: error::ErrorView::SubscriptionNotFound(id),
                effects: Seq::empty(),
            },
        )
    } else {
        let sub = st.subs[id];
        if sub.link_invalid {
            let msg = manager::dead_link_text(sub);
            Some(
                StoppedView {
                    error: error::ErrorView::ShareLinkError(msg),
                    effects: refusal(given, id, sub.owner_uid, msg, now),
                },
            )
        } else {
            None
        }
    }
}

/// The subscription that a run is for.
pub fn wanted(manager: &ShareSyncManager, id: &str, given: &Option<String>, now: i64) -> (r: Result<
    ShareSubscription,
    Stopped,
>)
    ensures
        match r {
            Ok(sub) => not_wanted(manager@, id@, text::opt_text(*given), now) is None && sub@
                == manager@.subs[id@],
            Err(s) => not_wanted(manager@, id@, text::opt_text(*given), now) == Some(s@),
        },
{
    let sub = match manager.get_subscription(id) {
        Some(s) => s,
        None => {
            return Err(
                Stopped {
                    error: ShareSyncError::SubscriptionNotFound(id.to_owned()),
                    effects: no_effects(),
                },
            );
        },
    };
    if sub.link_invalid {
        let msg = dead_link_reason(&sub);
        let effects = refuse(given, id, sub.owner_uid, msg.as_str(), now);
        return Err(Stopped { error: ShareSyncError::ShareLinkError(msg), effects });
    }
    Ok(sub)
}

/// Why a run does not go on, if it does not: the account of its subscription is not ready.
pub open spec fn no_account(
    owner_uid: u64,
    id: Seq<char>,
    given: Option<Seq<char>>,
    has_netdisk: bool,
    has_transfer: bool,
    now: i64,
) -> Option<StoppedView> {
    let stop = |msg: Seq<char>|
        Some(
            StoppedView {
                error: error::ErrorView::ConfigError(msg),
                effects: refusal(given, id, owner_uid, msg, now),
            },
        );
    if !has_netdisk {
        stop(manager::not_logged_in_text(owner_uid))
    } else if !has_transfer {
        stop(manager::no_transfer_text(owner_uid))
    } else {
        None
    }
}

/// Whether the account of a subscription is ready. `has_netdisk` and `has_transfer` say what the
/// account has.
pub fn account_of(
    owner_uid: u64,
    id: &str,
    given: &Option<String>,
    has_netdisk: bool,
    has_transfer: bool,
    now: i64,
) -> (r: Result<(), Stopped>)
    ensures
        match r {
            Ok(_) => no_account(
                owner_uid,
                id@,
                text::opt_text(*given),
                has_netdisk,
                has_transfer,
                now,
            ) is None,
            Err(s) => no_account(
                owner_uid,
                id@,
                text::opt_text(*given),
                has_netdisk,
                has_transfer,
                now,
            ) == Some(s@),
        },
{
    if has_netdisk && has_transfer {
        return Ok(());
    }
    let msg = if has_netdisk {
        no_transfer(owner_uid)
    } else {
        not_logged_in(owner_uid)
    };
    let effects = refuse(given, id, owner_uid, msg.as_str(), now);
    Err(Stopped { error: ShareSyncError::ConfigError(msg), effects })
}

/// A run that is admitted has the id that it was announced under, or is a new one, which
/// the caller stores and announces.
pub fn run_to_begin(given: &Option<String>, id: &str, owner_uid: u64) -> (r: Result<
    String,
    NewRun,
>)
    ensures
        match r {
            Ok(run_id) => text::opt_text(*given) == Some(run_id@),
            Err(run) => *given is None && run.run_id@.len() == 36 && run.subscription_id@ == id@
                && run.owner_uid == owner_uid,
        },
{
    match given {
        Some(run_id) => Ok(run_id.clone()),
        None => Err(fresh_run(id, owner_uid)),
    }
}

/// What is left of an earlier run is cleared: its tasks would be taken for this run's.
pub fn sweep(id: &str, owner_uid: u64, rows: &Vec<ShareSyncSubtask>) -> (r: Vec<Effect>)
    ensures
        events::effect_views(r@) == if subtasks::unfinished(subtasks::row_views(rows@)).len() > 0 {
            seq![
                EffectView::DeleteTasks {
                    backup_config_id: subtasks::backup_config_of(id@),
                    owner_uid,
                },
            ]
        } else {
            Seq::empty()
        },
{
    let left = residual_subtasks(rows);
    let mut r = no_effects();
    assert(text::texts(left@).len() == left@.len());
    if left.len() > 0 {
        push_effect(
            &mut r,
            Effect::DeleteTasks { backup_config_id: share_sync_backup_config_id(id), owner_uid },
        );
        assert(events::effect_views(r@) =~= seq![
            EffectView::DeleteTasks {
                backup_config_id: subtasks::backup_config_of(id@),
                owner_uid,
            },
        ]);
    }
    r
}

// ---------------------------------------------------------------------------
// The capture
// ---------------------------------------------------------------------------
/// Where a capture failed.
#[derive(Debug, Clone, Copy, PartialEq, Eq, Structural)]
pub enum CaptureStage {
    /// Opening the share.
    Opening,
    /// Listing its entries.
    Listing,
}

/// What a failed capture is called.
pub open spec fn stage_text(stage: CaptureStage) -> Seq<char> {
    match stage {
        CaptureStage::Opening => "抓取初始化失败"@,
        CaptureStage::Listing => "抓取失败"@,
    }
}

/// A capture that failed.
#[derive(Debug)]
pub struct CaptureFailure {
    pub stage: CaptureStage,
    pub error: ShareSyncError,
    /// The error as it is shown.
    pub text: String,
    /// Whether another attempt may succeed.
    pub may_pass: bool,
    /// Whether the error says that the link is dead.
    pub link_invalid: bool,
}

/// How a run goes on after a failed capture.
#[derive(Debug)]
pub enum CaptureStep {
    /// Try again after so many milliseconds.
    Retry { after_ms: u64 },
    GiveUp(Stopped),
}

/// Goes on after capture number `attempt` failed. The run fails where the error does not
/// pass or was met too often; a dead link is then noted.
pub fn capture_failed(
    manager: &mut ShareSyncManager,
    run_id: &str,
    id: &str,
    owner_uid: u64,
    failed: CaptureFailure,
    attempt: u32,
    max_retries: u32,
    base_ms: u64,
    threshold: u32,
    now: i64,
) -> (r: CaptureStep)
    requires
        attempt < 64,
    ensures
        if failed.may_pass && attempt < max_retries {
            &&& final(manager)@ == old(manager)@
            &&& r matches CaptureStep::Retry { after_ms }
            &&& after_ms as nat == scan::backoff(base_ms, attempt as nat)
        } else {
            let noted = if failed.link_invalid {
                manager::failure_noted(old(manager)@, id@, failed.text@, threshold)
            } else {
                (old(manager)@, Seq::empty())
            };
            &&& final(manager)@ == noted.0
            &&& r matches CaptureStep::GiveUp(s)
            &&& s@ == (StoppedView {
                error: failed.error@,
                effects: failure(
                    run_id@,
                    id@,
                    owner_uid,
                    stage_text(failed.stage) + ": "@ + failed.text@,
                    now,
                ) + noted.1,
            })
        },
{
    match retry_delay(failed.may_pass, attempt, max_retries, base_ms) {
        Some(after_ms) => CaptureStep::Retry { after_ms },
        None => {
            let stage = match failed.stage {
                CaptureStage::Opening => "抓取初始化失败",
                CaptureStage::Listing => "抓取失败",
            };
            let msg = concat3(stage, ": ", failed.text.as_str());
            let mut effects = fail_run(run_id, id, owner_uid, msg.as_str(), now);
            let ghost first = events::effect_views(effects@);
            let mut more = manager.maybe_note_link_failure(
                id,
                failed.link_invalid,
                failed.text.as_str(),
                threshold,
            );
            let ghost second = events::effect_views(more@);
            effects.append(&mut more);
            proof {
                assert(events::effect_views(effects@) =~= first + second);
                if !failed.link_invalid {
                    assert(second =~= Seq::<EffectView>::empty());
                }
            }
            CaptureStep::GiveUp(Stopped { error: failed.error, effects })
        },
    }
}

/// Goes on with what was captured: it belongs to the subscription, and its link is alive.
pub fn captured(manager: &mut ShareSyncManager, id: &str, taken: ShareSnapshot) -> (r: (
    ShareSnapshot,
    Vec<Effect>,
))
    ensures
        r.0.subscription_id@ == id@,
        r.0.id == taken.id,
        r.0.captured_at == taken.captured_at,
        r.0.items == taken.items,
        final(manager)@ == manager::failure_cleared(old(manager)@, id@).0,
        events::effect_views(r.1@) == manager::failure_cleared(old(manager)@, id@).1,
{
    let effects = manager.clear_link_failure(id);
    let mut own = taken;
    own.subscription_id = id.to_owned();
    (own, effects)
}

// ---------------------------------------------------------------------------
// The difference
// ---------------------------------------------------------------------------
/// The run fails where its local targets cannot be looked at; `shown` is the error as it
/// is shown.
pub fn targets_failed(
    run_id: &str,
    id: &str,
    owner_uid: u64,
    failed: ShareSyncError,
    shown: &str,
    now: i64,
) -> (r: Stopped)
    ensures
        r@ == (StoppedView {
            error: failed@,
            effects: failure(run_id@, id@, owner_uid, "本地目标校验失败: "@ + shown@, now),
        }),
{
    let msg = text::concat2("本地目标校验失败: ", shown);
    let effects = fail_run(run_id, id, owner_uid, msg.as_str(), now);
    Stopped { error: failed, effects }
}

/// The files among the items.
pub open spec fn files_in(items: Seq<ShareSnapshotItem>) -> Seq<ShareSnapshotItem> {
    items.filter(|i: ShareSnapshotItem| !i.is_dir)
}

/// The files among the changed items.
pub open spec fn changed_files_in(items: Seq<ShareModifiedItem>) -> Seq<ShareModifiedItem> {
    items.filter(|m: ShareModifiedItem| !m.new.is_dir)
}

fn count_files(items: &Vec<ShareSnapshotItem>) -> (r: usize)
    ensures
        r == files_in(items@).len(),
{
    let mut n: usize = 0;
    let mut i: usize = 0;
    proof {
        reveal(Seq::filter);
    }
    while i < items.len()
        invariant
            n <= i <= items@.len(),
            n == files_in(items@.take(i as int)).len(),
        decreases items@.len() - i,
    {
        proof {
            reveal(Seq::filter);
            assert(items@.take(i + 1).drop_last() =~= items@.take(i as int));
        }
        if !items[i].is_dir {
            n += 1;
        }
        i += 1;
    }
    assert(items@.take(i as int) =~= items@);
    n
}

fn count_changed_files(items: &Vec<ShareModifiedItem>) -> (r: usize)
    ensures
        r == changed_files_in(items@).len(),
{
    let mut n: usize = 0;
    let mut i: usize = 0;
    proof {
        reveal(Seq::filter);
    }
    while i < items.len()
        invariant
            n <= i <= items@.len(),
            n == changed_files_in(items@.take(i as int)).len(),
        decreases items@.len() - i,
    {
        proof {
            reveal(Seq::filter);
            assert(items@.take(i + 1).drop_last() =~= items@.take(i as int));
        }
        if !items[i].new.is_dir {
            n += 1;
        }
        i += 1;
    }
    assert(items@.take(i as int) =~= items@);
    n
}

/// The announcement of what differs: how many files, for directories do not count.
pub fn diff_detected(run_id: &str, id: &str, owner_uid: u64, found: &ShareDiff) -> (r:
    ShareSyncEvent)
    ensures
        r@ matches events::EventView::DiffDetected {
            run_id: a,
            subscription_id: b,
            added,
            modified,
            removed,
            owner_uid: c,
        } && a == run_id@ && b == id@ && added == files_in(found.added@).len() && modified
            == changed_files_in(found.modified@).len() && removed == files_in(
            found.removed@,
        ).len() && c == owner_uid,
{
    ShareSyncEvent::DiffDetected {
        run_id: run_id.to_owned(),
        subscription_id: id.to_owned(),
        added: count_files(&found.added),
        modified: count_changed_files(&found.modified),
        removed: count_files(&found.removed),
        owner_uid,
    }
}

/// `r` is the difference that is carried out: where whole directories are copied, with the
/// directories that are wholly new or changed.
pub open spec fn is_applied(
    r: ShareDiff,
    found: ShareDiff,
    curr: ShareSnapshot,
    whole_dirs: bool,
) -> bool {
    if whole_dirs {
        exists|added: nat|
            #[trigger] diff::is_execution_diff(r, added, found, snapshot::indexed(curr.items@))
    } else {
        r == found
    }
}

/// The difference that is carried out.
pub fn diff_to_apply(found: ShareDiff, curr: &ShareSnapshot, whole_dirs: bool) -> (r: ShareDiff)
    ensures
        is_applied(r, found, *curr, whole_dirs),
{
    if whole_dirs {
        let pair = execution_diff_with_directory_ancestors(&found, curr);
        assert(diff::is_execution_diff(
            pair.0,
            pair.1 as nat,
            found,
            snapshot::indexed(curr.items@),
        ));
        pair.0
    } else {
        found
    }
}

// ---------------------------------------------------------------------------
// Progress
// ---------------------------------------------------------------------------
/// The announcement of a row of the tasks under way.
pub open spec fn progress_of(
    row: subtasks::SubtaskView,
    run_id: Seq<char>,
    subscription_id: Seq<char>,
    owner_uid: u64,
) -> EventView {
    EventView::ItemProgress { run_id, subscription_id, row, owner_uid }
}

/// What is announced of the tasks under way: each row that goes on, and each that is done once.
/// `reported` holds those that were reported as done.
pub fn progress_frame(
    run_id: &str,
    subscription_id: &str,
    owner_uid: u64,
    rows: &Vec<ShareSyncSubtask>,
    reported: &mut PathSet,
) -> (r: Vec<ShareSyncEvent>)
    ensures
        events::event_views(r@) == subtasks::reports(
            subtasks::row_views(rows@),
            old(reported)@,
        ).0.map_values(
            |row: subtasks::SubtaskView| progress_of(row, run_id@, subscription_id@, owner_uid),
        ),
        final(reported)@ == subtasks::reports(subtasks::row_views(rows@), old(reported)@).1,
{
    let told = rows_to_report(rows, reported);
    let ghost views = subtasks::row_views(told@);
    let ghost all = views.map_values(
        |row: subtasks::SubtaskView| progress_of(row, run_id@, subscription_id@, owner_uid),
    );
    let mut r: Vec<ShareSyncEvent> = Vec::new();
    let mut i: usize = 0;
    assert(events::event_views(r@) =~= all.take(0));
    while i < told.len()
        invariant
            i <= told@.len(),
            views == subtasks::row_views(told@),
            all == views.map_values(
                |row: subtasks::SubtaskView| progress_of(row, run_id@, subscription_id@, owner_uid),
            ),
            events::event_views(r@) == all.take(i as int),
        decreases told@.len() - i,
    {
        let ghost before = events::event_views(r@);
        let event = ShareSyncEvent::ItemProgress {
            run_id: run_id.to_owned(),
            subscription_id: subscription_id.to_owned(),
            row: told[i].clone(),
            owner_uid,
        };
        assert(views[i as int] == told@[i as int]@);
        assert(all[i as int] == event@);
        r.push(event);
        i += 1;
        assert(events::event_views(r@) =~= before.push(event@));
        assert(all.take(i as int) =~= before.push(event@));
    }
    assert(all.take(i as int) =~= all);
    r
}

// ---------------------------------------------------------------------------
// The end
// ---------------------------------------------------------------------------
/// What came of carrying out a difference.
#[derive(Debug)]
pub struct ApplyOutcome {
    pub run_id: String,
    pub status: RunStatus,
    pub diff_summary: DiffSummary,
    pub error: Option<String>,
    /// Whether something was passed over for want of room.
    pub resource_skipped: bool,
    /// Whether something was passed over that may succeed later.
    pub transient_skipped: bool,
}

/// Whether later runs compare with what this run captured.
pub fn should_advance_snapshot_baseline(status: RunStatus) -> (r: bool)
    ensures
        r == (status == RunStatus::Completed),
{
    status == RunStatus::Completed
}

/// Whether all that the run found was carried out.
pub open spec fn is_clean(o: ApplyOutcome) -> bool {
    o.status == RunStatus::Completed && !o.resource_skipped && !o.transient_skipped
}

/// What is done at the end of a run. Only where all was carried out do later runs compare
/// with what it captured: else what is missing would never be looked at again.
pub open spec fn ending(o: ApplyOutcome, id: Seq<char>, owner_uid: u64, duration_ms: u64) -> Seq<
    EffectView,
> {
    let snapshot = if is_clean(o) {
        seq![EffectView::PromoteSnapshot { run_id: o.run_id@ }]
    } else {
        seq![EffectView::DeleteSnapshot { run_id: o.run_id@ }]
    };
    match o.status {
        RunStatus::Completed | RunStatus::CompletedWithErrors => snapshot.push(
            EffectView::Publish {
                event: events::EventView::RunCompleted {
                    run_id: o.run_id@,
                    subscription_id: id,
                    added: o.diff_summary.added,
                    modified: o.diff_summary.modified,
                    removed: o.diff_summary.removed,
                    failed: o.diff_summary.failed,
                    owner_uid,
                    duration_ms: Some(duration_ms),
                    n_bisects: None,
                    max_bisect_depth: None,
                },
            },
        ),
        RunStatus::Failed => snapshot.push(
            EffectView::Publish {
                event: events::EventView::RunFailed {
                    run_id: o.run_id@,
                    subscription_id: id,
                    error: match o.error {
                        Some(e) => e@,
                        None => "unknown error"@,
                    },
                    owner_uid,
                    reason: None,
                },
            },
        ),
        _ => snapshot,
    }
}

/// What is done at the end of a run that took so many milliseconds.
pub fn finished(o: &ApplyOutcome, id: &str, owner_uid: u64, duration_ms: u64) -> (r: Vec<Effect>)
    ensures
        events::effect_views(r@) == ending(*o, id@, owner_uid, duration_ms),
{
    let mut r = no_effects();
    if should_advance_snapshot_baseline(o.status) && !o.resource_skipped && !o.transient_skipped {
        push_effect(&mut r, Effect::PromoteSnapshot { run_id: o.run_id.clone() });
        assert(events::effect_views(r@) =~= seq![
            EffectView::PromoteSnapshot { run_id: o.run_id@ },
        ]);
    } else {
        push_effect(&mut r, Effect::DeleteSnapshot { run_id: o.run_id.clone() });
        assert(events::effect_views(r@) =~= seq![
            EffectView::DeleteSnapshot { run_id: o.run_id@ },
        ]);
    }
    match o.status {
        RunStatus::Completed | RunStatus::CompletedWithErrors => {
            push_effect(
                &mut r,
                Effect::Publish {
                    event: ShareSyncEvent::RunCompleted {
                        run_id: o.run_id.clone(),
                        subscription_id: id.to_owned(),
                        added: o.diff_summary.added,
                        modified: o.diff_summary.modified,
                        removed: o.diff_summary.removed,
                        failed: o.diff_summary.failed,
                        owner_uid,
                        duration_ms: Some(duration_ms),
                        n_bisects: None,
                        max_bisect_depth: None,
                    },
                },
            );
        },
        RunStatus::Failed => {
            let msg = match &o.error {
                Some(e) => e.clone(),
                None => "unknown error".to_owned(),
            };
            push_effect(
                &mut r,
                Effect::Publish {
                    event: ShareSyncEvent::RunFailed {
                        run_id: o.run_id.clone(),
                        subscription_id: id.to_owned(),
                        error: msg,
                        owner_uid,
                        reason: None,
                    },
                },
            );
        },
        _ => {},
    }
    r
}

/// A run's snapshot is kept for later runs exactly when all that it found was carried out;
/// else it is deleted.
pub proof fn law_baseline_advances_only_when_clean(
    o: ApplyOutcome,
    id: Seq<char>,
    owner_uid: u64,
    duration_ms: u64,
)
    ensures
        ending(o, id, owner_uid, duration_ms).contains(
            EffectView::PromoteSnapshot { run_id: o.run_id@ },
        ) <==> is_clean(o),
        ending(o, id, owner_uid, duration_ms).contains(
            EffectView::DeleteSnapshot { run_id: o.run_id@ },
        ) <==> !is_clean(o),
{
    let e = ending(o, id, owner_uid, duration_ms);
    assert(e[0] == if is_clean(o) {
        EffectView::PromoteSnapshot { run_id: o.run_id@ }
    } else {
        EffectView::DeleteSnapshot { run_id: o.run_id@ }
    });
    assert(e.contains(e[0]));
    assert(e.len() <= 2);
    assert(e.len() == 2 ==> e[1] is Publish);
}

/// A run that failed leaves no snapshot for later runs.
pub proof fn law_failed_run_leaves_no_snapshot(
    run_id: Seq<char>,
    subscription_id: Seq<char>,
    owner_uid: u64,
    msg: Seq<char>,
    now: i64,
)
    ensures
        failure(run_id, subscription_id, owner_uid, msg, now).contains(
            EffectView::DeleteSnapshot { run_id },
        ),
        !failure(run_id, subscription_id, owner_uid, msg, now).contains(
            EffectView::PromoteSnapshot { run_id },
        ),
{
    let f = failure(run_id, subscription_id, owner_uid, msg, now);
    assert(f[2] == (EffectView::DeleteSnapshot { run_id }));
    assert(f.len() == 4);
    assert(f[0] is StartRun && f[1] is FinishRun && f[3] is Publish);
}

// ---------------------------------------------------------------------------
// A run that was taken up again
// ---------------------------------------------------------------------------
/// One item of a run as it is stored.
#[derive(Debug)]
pub struct RunItem {
    pub id: i64,
    pub status: String,
    pub transfer_task_id: Option<String>,
}

/// How the items of a run ended, and what is noted of those that had not.
#[verifier::ext_equal]
pub struct Tally {
    pub completed: nat,
    pub failed: nat,
    pub skipped: nat,
    pub updates: Seq<EffectView>,
}

/// What is noted of an item that had not ended: it failed where a download failed, else it
/// is completed.
pub open spec fn item_ended(item_id: i64, download_failed: bool) -> EffectView {
    EffectView::UpdateRunItem {
        item_id,
        item_status: if download_failed {
            RunItemStatus::Failed
        } else {
            RunItemStatus::Completed
        },
        error: if download_failed {
            Some("重启续跑：本批下载存在失败项"@)
        } else {
            None
        },
    }
}

/// How the items of a run ended.
pub open spec fn tally(items: Seq<RunItem>, download_failed: bool) -> Tally
    decreases items.len(),
{
    if items.len() == 0 {
        Tally { completed: 0, failed: 0, skipped: 0, updates: Seq::empty() }
    } else {
        let t = tally(items.drop_last(), download_failed);
        let item = items.last();
        if subtasks::is_final_item(item.status@) {
            if item.status@ == "failed"@ {
                Tally { failed: t.failed + 1, ..t }
            } else if item.status@ == "skipped"@ {
                Tally { skipped: t.skipped + 1, ..t }
            } else {
                Tally { completed: t.completed + 1, ..t }
            }
        } else {
            let updates = t.updates.push(item_ended(item.id, download_failed));
            if download_failed {
                Tally { failed: t.failed + 1, updates, ..t }
            } else {
                Tally { completed: t.completed + 1, updates, ..t }
            }
        }
    }
}

/// What is done at the end of a run that was taken up again.
pub open spec fn resumed_ending(
    t: Tally,
    total: nat,
    run_id: Seq<char>,
    id: Seq<char>,
    owner_uid: u64,
    now: i64,
) -> Seq<EffectView> {
    t.updates + seq![
        EffectView::FinishRun {
            run_id,
            finished_at: now,
            status: if t.failed > 0 {
                RunStatus::CompletedWithErrors
            } else {
                RunStatus::Completed
            },
            summary: DiffSummary {
                total: total as usize,
                failed: t.failed as usize,
                skipped: t.skipped as usize,
                ..events::no_summary()
            },
            error: None,
        },
        if t.failed == 0 {
            EffectView::PromoteSnapshot { run_id }
        } else {
            EffectView::DeleteSnapshot { run_id }
        },
        EffectView::Publish {
            event: events::EventView::RunCompleted {
                run_id,
                subscription_id: id,
                added: t.completed as usize,
                modified: 0,
                removed: 0,
                failed: t.failed as usize,
                owner_uid,
                duration_ms: None,
                n_bisects: None,
                max_bisect_depth: None,
            },
        },
    ]
}

/// What is done at the end of a run that was taken up again: `items` are its items as they
/// are stored, `rows` the tasks of its subscription.
pub fn finalize_resumed_run(
    items: &Vec<RunItem>,
    rows: &Vec<ShareSyncSubtask>,
    run_id: &str,
    id: &str,
    owner_uid: u64,
    now: i64,
) -> (r: Vec<Effect>)
    ensures
        events::effect_views(r@) == resumed_ending(
            tally(items@, subtasks::has_failed_download(subtasks::row_views(rows@))),
            items@.len(),
            run_id@,
            id@,
            owner_uid,
            now,
        ),
{
    let download_failed = any_download_failed(rows);
    let mut r = no_effects();
    let mut failed: usize = 0;
    let mut completed: usize = 0;
    let mut skipped: usize = 0;
    let mut i: usize = 0;
    proof {
        reveal_strlit("failed");
        reveal_strlit("skipped");
        assert("failed"@.len() == 6 && "skipped"@.len() == 7);
    }
    while i < items.len()
        invariant
            i <= items@.len(),
            failed + completed + skipped == i,
            ({
                let t = tally(items@.take(i as int), download_failed);
                &&& t.failed == failed
                &&& t.completed == completed
                &&& t.skipped == skipped
                &&& t.updates == events::effect_views(r@)
            }),
        decreases items@.len() - i,
    {
        let item = &items[i];
        proof {
            assert(items@.take(i + 1).drop_last() =~= items@.take(i as int));
            assert(items@.take(i + 1).last() == items@[i as int]);
        }
        if is_terminal_run_item_status(item.status.as_str()) {
            if same(item.status.as_str(), "failed") {
                failed += 1;
            } else if same(item.status.as_str(), "skipped") {
                skipped += 1;
            } else {
                completed += 1;
            }
        } else if download_failed {
            failed += 1;
            push_effect(
                &mut r,
                Effect::UpdateRunItem {
                    item_id: item.id,
                    item_status: RunItemStatus::Failed,
                    error: Some("重启续跑：本批下载存在失败项".to_owned()),
                },
            );
        } else {
            completed += 1;
            push_effect(
                &mut r,
                Effect::UpdateRunItem {
                    item_id: item.id,
                    item_status: RunItemStatus::Completed,
                    error: None,
                },
            );
        }
        i += 1;
    }
    assert(items@.take(i as int) =~= items@);
    let ghost t = tally(items@, download_failed);
    let status = if failed > 0 {
        RunStatus::CompletedWithErrors
    } else {
        RunStatus::Completed
    };
    push_effect(
        &mut r,
        Effect::FinishRun {
            run_id: run_id.to_owned(),
            finished_at: now,
            status,
            summary: DiffSummary {
                total: items.len(),
                added: 0,
                modified: 0,
                removed: 0,
                failed,
                skipped,
            },
            error: None,
        },
    );
    if should_advance_snapshot_baseline(status) {
        push_effect(&mut r, Effect::PromoteSnapshot { run_id: run_id.to_owned() });
    } else {
        push_effect(&mut r, Effect::DeleteSnapshot { run_id: run_id.to_owned() });
    }
    push_effect(
        &mut r,
        Effect::Publish {
            event: ShareSyncEvent::RunCompleted {
                run_id: run_id.to_owned(),
                subscription_id: id.to_owned(),
                added: completed,
                modified: 0,
                removed: 0,
                failed,
                owner_uid,
                duration_ms: None,
                n_bisects: None,
                max_bisect_depth: None,
            },
        },
    );
    assert(events::effect_views(r@) =~= resumed_ending(
        t,
        items@.len(),
        run_id@,
        id@,
        owner_uid,
        now,
    ));
    r
}

/// Every item of a run that was taken up again is counted once.
pub proof fn law_every_item_is_counted(items: Seq<RunItem>, download_failed: bool)
    ensures
        tally(items, download_failed).completed + tally(items, download_failed).failed + tally(
            items,
            download_failed,
        ).skipped == items.len(),
    decreases items.len(),
{
    if items.len() > 0 {
        law_every_item_is_counted(items.drop_last(), download_failed);
    }
}

/// A run that was taken up again keeps its snapshot for later runs only where no item
/// failed: where a download failed and an item had not ended, it does not.
pub proof fn law_resumed_run_uses_the_same_rule(
    items: Seq<RunItem>,
    run_id: Seq<char>,
    id: Seq<char>,
    owner_uid: u64,
    now: i64,
    download_failed: bool,
    k: int,
)
    requires
        0 <= k < items.len(),
        items[k].status@ == "failed"@ || (download_failed && !subtasks::is_final_item(
            items[k].status@,
        )),
    ensures
        tally(items, download_failed).failed > 0,
        !resumed_ending(
            tally(items, download_failed),
            items.len(),
            run_id,
            id,
            owner_uid,
            now,
        ).contains(EffectView::PromoteSnapshot { run_id }),
    decreases items.len(),
{
    reveal_strlit("failed");
    reveal_strlit("skipped");
    assert("failed"@.len() == 6 && "skipped"@.len() == 7);
    if k < items.len() - 1 {
        assert(items.drop_last()[k] == items[k]);
        law_resumed_run_uses_the_same_rule(
            items.drop_last(),
            run_id,
            id,
            owner_uid,
            now,
            download_failed,
            k,
        );
    }
    let t = tally(items, download_failed);
    lemma_updates(items, download_failed);
    let e = resumed_ending(t, items.len(), run_id, id, owner_uid, now);
    if e.contains(EffectView::PromoteSnapshot { run_id }) {
        let i = choose|i: int| 0 <= i < e.len() && e[i] == (EffectView::PromoteSnapshot { run_id });
        if i < t.updates.len() {
            assert(t.updates[i] is UpdateRunItem);
        }
    }
}

proof fn lemma_updates(items: Seq<RunItem>, download_failed: bool)
    ensures
        forall|i: int|
            0 <= i < tally(items, download_failed).updates.len() ==> (#[trigger] tally(
                items,
                download_failed,
            ).updates[i]) is UpdateRunItem,
    decreases items.len(),
{
    if items.len() > 0 {
        lemma_updates(items.drop_last(), download_failed);
    }
}

/// What a run captured is kept for later runs exactly where the run was completed and passed over
/// nothing, neither for want of room nor for a while; else it is deleted.
pub proof fn law_baseline_needs_all_carried_out(
    o: ApplyOutcome,
    id: Seq<char>,
    owner_uid: u64,
    duration_ms: u64,
)
    ensures
        ending(o, id, owner_uid, duration_ms).contains(
            EffectView::PromoteSnapshot { run_id: o.run_id@ },
        ) <==> (o.status == RunStatus::Completed && !o.resource_skipped && !o.transient_skipped),
        ending(o, id, owner_uid, duration_ms).contains(
            EffectView::DeleteSnapshot { run_id: o.run_id@ },
        ) <==> !(o.status == RunStatus::Completed && !o.resource_skipped && !o.transient_skipped),
{
    law_baseline_advances_only_when_clean(o, id, owner_uid, duration_ms);
}

/// The end of a run is announced with its numbers, its failure with its error.
pub proof fn law_end_of_a_run_is_announced(
    o: ApplyOutcome,
    id: Seq<char>,
    owner_uid: u64,
    duration_ms: u64,
)
    ensures
        (o.status == RunStatus::Completed || o.status == RunStatus::CompletedWithErrors) ==> (
        ending(o, id, owner_uid, duration_ms).last() matches EffectView::Publish { event }
            && event == (events::EventView::RunCompleted {
            run_id: o.run_id@,
            subscription_id: id,
            added: o.diff_summary.added,
            modified: o.diff_summary.modified,
            removed: o.diff_summary.removed,
            failed: o.diff_summary.failed,
            owner_uid,
            duration_ms: Some(duration_ms),
            n_bisects: None,
            max_bisect_depth: None,
        })),
        o.status == RunStatus::Failed ==> (ending(
            o,
            id,
            owner_uid,
            duration_ms,
        ).last() matches EffectView::Publish { event } && (
        event matches events::EventView::RunFailed { run_id, subscription_id, error, .. } && run_id
            == o.run_id@ && subscription_id == id && (o.error matches Some(e) ==> error == e@))),
{
}

/// A run that fails is stored as failed, with what is said of it, and so announced.
pub proof fn law_failed_run_is_stored_and_announced(
    run_id: Seq<char>,
    subscription_id: Seq<char>,
    owner_uid: u64,
    msg: Seq<char>,
    now: i64,
)
    ensures
        ({
            let f = failure(run_id, subscription_id, owner_uid, msg, now);
            &&& exists|i: int|
                0 <= i < f.len() && (#[trigger] f[i] matches EffectView::FinishRun {
                    run_id: r,
                    status,
                    error,
                    finished_at,
                    ..
                } && r == run_id && status == RunStatus::Failed && error == Some(msg)
                    && finished_at == now)
            &&& exists|i: int|
                0 <= i < f.len() && (#[trigger] f[i] matches EffectView::Publish { event } && (
                event matches events::EventView::RunFailed {
                    run_id: r,
                    subscription_id: s,
                    error,
                    owner_uid: o,
                    ..
                } && r == run_id && s == subscription_id && error == msg && o == owner_uid))
        }),
{
    let f = failure(run_id, subscription_id, owner_uid, msg, now);
    assert(f[1] is FinishRun);
    assert(f[3] is Publish);
}

/// The items of a run that was taken up again are counted one by one: an ended one as it ended,
/// another as failed where a download failed, else as completed, and that is then stored.
pub proof fn law_items_are_counted_as_they_ended(
    items: Seq<RunItem>,
    x: RunItem,
    download_failed: bool,
)
    ensures
        ({
            let t = tally(items, download_failed);
            let u = tally(items.push(x), download_failed);
            let ended = x.status@ == "completed"@ || x.status@ == "failed"@ || x.status@
                == "skipped"@;
            let fails = x.status@ == "failed"@ || (!ended && download_failed);
            &&& u.failed == t.failed + if fails {
                1nat
            } else {
                0
            }
            &&& u.skipped == t.skipped + if x.status@ == "skipped"@ {
                1nat
            } else {
                0
            }
            &&& u.completed == t.completed + if !fails && x.status@ != "skipped"@ {
                1nat
            } else {
                0
            }
            &&& u.updates == if ended {
                t.updates
            } else {
                t.updates.push(
                    EffectView::UpdateRunItem {
                        item_id: x.id,
                        item_status: if download_failed {
                            RunItemStatus::Failed
                        } else {
                            RunItemStatus::Completed
                        },
                        error: if download_failed {
                            Some("重启续跑：本批下载存在失败项"@)
                        } else {
                            None
                        },
                    },
                )
            }
        }),
        tally(seq![], download_failed) == (Tally {
            completed: 0,
            failed: 0,
            skipped: 0,
            updates: seq![],
        }),
{
    reveal_strlit("failed");
    reveal_strlit("skipped");
    reveal_strlit("completed");
    assert("failed"@.len() == 6 && "skipped"@.len() == 7 && "completed"@.len() == 9);
    assert(items.push(x).drop_last() =~= items);
    assert(tally(seq![], download_failed) =~= (Tally {
        completed: 0,
        failed: 0,
        skipped: 0,
        updates: seq![],
    }));
}

/// A run that was taken up again ends with its numbers: completed and kept for later runs where no
/// item failed, else with errors and not kept.
pub proof fn law_resumed_run_ends_by_its_items(
    t: Tally,
    total: nat,
    run_id: Seq<char>,
    id: Seq<char>,
    owner_uid: u64,
    now: i64,
)
    requires
        t.completed <= usize::MAX && t.failed <= usize::MAX && t.skipped <= usize::MAX,
        total <= usize::MAX,
    ensures
        ({
            let e = resumed_ending(t, total, run_id, id, owner_uid, now);
            let n = t.updates.len() as int;
            &&& e.len() == n + 3
            &&& e.take(n) == t.updates
            &&& e[n] matches EffectView::FinishRun { run_id: r, status, summary, error, .. } && r
                == run_id && error is None && summary.total == total && summary.failed == t.failed
                && summary.skipped == t.skipped && status == if t.failed > 0 {
                RunStatus::CompletedWithErrors
            } else {
                RunStatus::Completed
            }
            &&& e[n + 1] == if t.failed == 0 {
                EffectView::PromoteSnapshot { run_id }
            } else {
                EffectView::DeleteSnapshot { run_id }
            }
            &&& e[n + 2] matches EffectView::Publish { event } && (
            event matches events::EventView::RunCompleted {
                run_id: r,
                subscription_id: s,
                added,
                failed,
                ..
            } && r == run_id && s == id && added == t.completed && failed == t.failed)
        }),
{
    let e = resumed_ending(t, total, run_id, id, owner_uid, now);
    assert(e.take(t.updates.len() as int) =~= t.updates);
}

/// A flag is off exactly where its value is `0`, or is `false` in lower case.
pub proof fn law_when_a_flag_is_off(value: Seq<char>, lowered: Seq<char>)
    ensures
        flag_is_on(None, None),
        flag_is_on(Some(value), Some(lowered)) <==> value != "0"@ && lowered != "false"@,
{
}

/// A run of a subscription begins where the subscription is there and its link is not given up,
/// and goes on where its account is logged in and ready.
pub proof fn law_when_a_run_goes_on(
    st: manager::ManagerState,
    id: Seq<char>,
    given: Option<Seq<char>>,
    owner_uid: u64,
    has_netdisk: bool,
    has_transfer: bool,
    now: i64,
)
    ensures
        not_wanted(st, id, given, now) is None <==> st.subs.contains_key(id)
            && !st.subs[id].link_invalid,
        no_account(owner_uid, id, given, has_netdisk, has_transfer, now) is None <==> has_netdisk
            && has_transfer,
        refusal(None, id, owner_uid, seq![], now).len() == 0,
{
}

/// Files are counted, directories are not.
pub proof fn law_files_are_counted(
    items: Seq<ShareSnapshotItem>,
    x: ShareSnapshotItem,
    changed: Seq<ShareModifiedItem>,
    y: ShareModifiedItem,
)
    ensures
        files_in(items.push(x)).len() == files_in(items).len() + if x.is_dir {
            0nat
        } else {
            1
        },
        changed_files_in(changed.push(y)).len() == changed_files_in(changed).len()
            + if y.new.is_dir {
            0nat
        } else {
            1
        },
        files_in(seq![]).len() == 0,
        changed_files_in(seq![]).len() == 0,
{
    reveal(Seq::filter);
    assert(items.push(x).drop_last() =~= items);
    assert(changed.push(y).drop_last() =~= changed);
}

/// What is carried out of a difference is the difference, with whole directories put in only
/// where these are copied.
pub proof fn law_what_is_carried_out(
    r: ShareDiff,
    found: ShareDiff,
    curr: ShareSnapshot,
    whole_dirs: bool,
    x: ShareSnapshotItem,
)
    requires
        is_applied(r, found, curr, whole_dirs),
    ensures
        !whole_dirs ==> r == found,
        r.modified@ == found.modified@,
        r.removed@ == found.removed@,
        found.added@.contains(x) ==> r.added@.contains(x),
        r.added@.contains(x) && !found.added@.contains(x) ==> whole_dirs && x.is_dir
            && curr.items@.contains(x),
{
    if whole_dirs {
        let count = choose|count: nat| #[trigger]
            diff::is_execution_diff(r, count, found, snapshot::indexed(curr.items@));
        diff::law_promotion_only_adds_dirs(r, count, found, curr.items@);
    }
}

} // verus!
