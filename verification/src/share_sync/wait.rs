//! Waiting for a task to finish.
use vstd::prelude::*;
use vstd::string::*;

use crate::numbers;
use crate::numbers::{decimal_wide, parse_u32, parse_u64};
use crate::share_sync::activity;
use crate::share_sync::activity::{task_activity_signature, TaskActivitySignature};
use crate::share_sync::error;
use crate::share_sync::error::ShareSyncError;
use crate::share_sync::subtasks;
use crate::share_sync::subtasks::{no_progress_but_queued, paused_subtasks, ShareSyncSubtask};
use crate::downloader::task::TaskStatus;
use crate::text::concat2;
use crate::time;
use crate::time::{Duration, Instant};
use crate::transfer;
use crate::transfer::{TransferStatus, TransferTask};

verus! {

/// Seconds of standstill after which it is asked whether downloads wait for a slot, and
/// between two such questions.
pub const QUEUE_WAIT_PROBE_SECS: u64 = 30;

/// Seconds between two attempts to wake paused downloads.
pub const PAUSED_RESUME_SECS: u64 = 10;

/// Seconds that a task may take in all, where nothing else is set: seven days.
pub const DEFAULT_HARD_TIMEOUT_SECS: u64 = 604_800;

/// Seconds of standstill after which downloads are restarted, where nothing else is set.
pub const DEFAULT_STALL_RETRY_SECS: u64 = 300;

/// How often downloads are restarted, where nothing else is set.
pub const DEFAULT_STALL_RETRY_MAX: u32 = 3;

/// Seconds between pausing and resuming, where nothing else is set.
pub const DEFAULT_STALL_COOLDOWN_SECS: u64 = 5;

// ---------------------------------------------------------------------------
// Settings
// ---------------------------------------------------------------------------
/// The number that a setting stands for, where it is set and a number.
pub open spec fn number_setting(setting: Option<&str>, max: nat) -> Option<nat> {
    match setting {
        Some(v) => numbers::unsigned_of(v@, max),
        None => None,
    }
}

/// The span that a setting in seconds stands for.
pub open spec fn duration_setting(setting: Option<&str>) -> Option<Duration> {
    match number_setting(setting, u64::MAX as nat) {
        Some(n) => Some(Duration { nanos: Duration::secs(n) as u128 }),
        None => None,
    }
}

/// The span that a setting in seconds stands for.
pub fn env_duration_secs(setting: Option<&str>) -> (r: Option<Duration>)
    ensures
        r == duration_setting(setting),
{
    match setting {
        Some(v) => match parse_u64(v) {
            Some(n) => Some(Duration::from_secs(n)),
            None => None,
        },
        None => None,
    }
}

/// The number that a setting stands for.
pub fn env_u32(setting: Option<&str>) -> (r: Option<u32>)
    ensures
        match r {
            Some(n) => number_setting(setting, u32::MAX as nat) == Some(n as nat),
            None => number_setting(setting, u32::MAX as nat) is None,
        },
{
    match setting {
        Some(v) => parse_u32(v),
        None => None,
    }
}

/// How long a task may stand still.
pub open spec fn idle_timeout_of(setting: Option<&str>, default: Duration) -> Duration {
    match duration_setting(setting) {
        Some(d) => d,
        None => default,
    }
}

/// How long a task may stand still.
pub fn share_sync_task_idle_timeout(setting: Option<&str>, default: Duration) -> (r: Duration)
    ensures
        r == idle_timeout_of(setting, default),
{
    match env_duration_secs(setting) {
        Some(d) => d,
        None => default,
    }
}

/// How long a task may take in all: for ever where the setting is zero.
pub open spec fn hard_timeout_of(setting: Option<&str>) -> Option<Duration> {
    match number_setting(setting, u64::MAX as nat) {
        Some(n) => if n == 0 {
            None
        } else {
            Some(Duration { nanos: Duration::secs(n) as u128 })
        },
        None => Some(
            Duration { nanos: Duration::secs(DEFAULT_HARD_TIMEOUT_SECS as nat) as u128 },
        ),
    }
}

/// How long a task may take in all.
pub fn share_sync_task_hard_timeout(setting: Option<&str>) -> (r: Option<Duration>)
    ensures
        r == hard_timeout_of(setting),
{
    let parsed: Option<u64> = match setting {
        Some(v) => parse_u64(v),
        None => None,
    };
    match parsed {
        Some(0) => None,
        Some(secs) => Some(Duration::from_secs(secs)),
        None => Some(Duration::from_secs(DEFAULT_HARD_TIMEOUT_SECS)),
    }
}

/// After how long a standstill downloads are restarted: before the task is given up, so a
/// second before where the setting is as long as that or longer.
pub open spec fn stall_retry_after_of(setting: Option<&str>, idle_timeout: Duration) -> Option<
    Duration,
> {
    let configured = match duration_setting(setting) {
        Some(d) => d,
        None => Duration { nanos: Duration::secs(DEFAULT_STALL_RETRY_SECS as nat) as u128 },
    };
    if configured.nanos == 0 || idle_timeout.nanos == 0 {
        None
    } else if configured.nanos >= idle_timeout.nanos {
        if idle_timeout.nanos > 1_000_000_000 {
            Some(Duration { nanos: (idle_timeout.nanos - 1_000_000_000) as u128 })
        } else {
            Some(idle_timeout)
        }
    } else {
        Some(configured)
    }
}

/// After how long a standstill downloads are restarted.
pub fn share_sync_stall_retry_after(setting: Option<&str>, idle_timeout: Duration) -> (r: Option<
    Duration,
>)
    ensures
        r == stall_retry_after_of(setting, idle_timeout),
{
    let configured = match env_duration_secs(setting) {
        Some(d) => d,
        None => Duration::from_secs(DEFAULT_STALL_RETRY_SECS),
    };
    if configured.is_zero() || idle_timeout.is_zero() {
        return None;
    }
    if configured.nanos >= idle_timeout.nanos {
        let one_second = Duration::from_secs(1);
        return Some(
            if idle_timeout.nanos > one_second.nanos {
                Duration { nanos: idle_timeout.nanos - one_second.nanos }
            } else {
                idle_timeout
            },
        );
    }
    Some(configured)
}

/// Downloads are restarted no later than the task is given up.
pub proof fn law_retry_comes_before_giving_up(setting: Option<&str>, idle_timeout: Duration)
    ensures
        match stall_retry_after_of(setting, idle_timeout) {
            Some(after) => 0 < after.nanos <= idle_timeout.nanos && (idle_timeout.nanos
                > 1_000_000_000 ==> after.nanos < idle_timeout.nanos),
            None => true,
        },
{
}

/// How often downloads are restarted.
pub fn share_sync_stall_retry_max(setting: Option<&str>) -> (r: u32)
    ensures
        r as nat == match number_setting(setting, u32::MAX as nat) {
            Some(n) => n,
            None => DEFAULT_STALL_RETRY_MAX as nat,
        },
{
    match env_u32(setting) {
        Some(n) => n,
        None => DEFAULT_STALL_RETRY_MAX,
    }
}

/// How long to wait between pausing and resuming.
pub fn share_sync_stall_retry_cooldown(setting: Option<&str>) -> (r: Duration)
    ensures
        r == match duration_setting(setting) {
            Some(d) => d,
            None => Duration { nanos: Duration::secs(DEFAULT_STALL_COOLDOWN_SECS as nat) as u128 },
        },
{
    match env_duration_secs(setting) {
        Some(d) => d,
        None => Duration::from_secs(DEFAULT_STALL_COOLDOWN_SECS),
    }
}

// ---------------------------------------------------------------------------
// The state of the task
// ---------------------------------------------------------------------------
/// How the wait ends by the state of the task; goes on where there is none.
pub open spec fn outcome_of(
    task: Option<TransferTask>,
    task_id: Seq<char>,
    require_download: bool,
) -> Option<Result<(), error::ErrorView>> {
    match task {
        None => Some(Err(error::ErrorView::TransferError("转存任务不存在: "@ + task_id))),
        Some(t) => match t.status {
            TransferStatus::Completed => Some(Ok(())),
            TransferStatus::Transferred => if require_download {
                Some(
                    Err(
                        error::ErrorView::DownloadError(
                            "转存已完成但自动下载未完成或未创建: task_id="@ + task_id,
                        ),
                    ),
                )
            } else {
                Some(Ok(()))
            },
            TransferStatus::TransferFailed => Some(
                Err(
                    error::ErrorView::TransferError(
                        match t.error {
                            Some(e) => e@,
                            None => "转存失败"@,
                        },
                    ),
                ),
            ),
            TransferStatus::DownloadFailed => Some(
                Err(
                    error::ErrorView::DownloadError(
                        match t.error {
                            Some(e) => e@,
                            None => "下载失败"@,
                        },
                    ),
                ),
            ),
            _ => None,
        },
    }
}

/// `r` is the end of a wait that `v` describes.
pub open spec fn ends_as(
    r: Option<Result<(), ShareSyncError>>,
    v: Option<Result<(), error::ErrorView>>,
) -> bool {
    match (r, v) {
        (None, None) => true,
        (Some(Ok(_)), Some(Ok(_))) => true,
        (Some(Err(e)), Some(Err(x))) => e@ == x,
        _ => false,
    }
}

/// How the wait ends by the state of the task. Where a download was asked for, a task
/// that has only been copied is an error: its download was never made.
pub fn task_outcome(task: &Option<TransferTask>, task_id: &str, require_download: bool) -> (r:
    Option<Result<(), ShareSyncError>>)
    ensures
        ends_as(r, outcome_of(*task, task_id@, require_download)),
{
    match task {
        None => Some(
            Err(ShareSyncError::TransferError(concat2("转存任务不存在: ", task_id))),
        ),
        Some(t) => match t.status {
            TransferStatus::Completed => Some(Ok(())),
            TransferStatus::Transferred => if require_download {
                Some(
                    Err(
                        ShareSyncError::DownloadError(
                            concat2(
                                "转存已完成但自动下载未完成或未创建: task_id=",
                                task_id,
                            ),
                        ),
                    ),
                )
            } else {
                Some(Ok(()))
            },
            TransferStatus::TransferFailed => {
                let msg = match &t.error {
                    Some(e) => e.clone(),
                    None => "转存失败".to_owned(),
                };
                Some(Err(ShareSyncError::TransferError(msg)))
            },
            TransferStatus::DownloadFailed => {
                let msg = match &t.error {
                    Some(e) => e.clone(),
                    None => "下载失败".to_owned(),
                };
                Some(Err(ShareSyncError::DownloadError(msg)))
            },
            _ => None,
        },
    }
}

/// Whether downloads wait for a slot: there is a download manager, it has no slot left,
/// and of the downloads some wait and none runs.
pub fn is_waiting_for_download_slot(
    has_manager: bool,
    free_slots: usize,
    statuses: &[TaskStatus],
) -> (r: bool)
    ensures
        r == (has_manager && free_slots == 0 && subtasks::only_waiting(statuses@)),
{
    if !has_manager {
        return false;
    }
    if free_slots > 0 {
        return false;
    }
    no_progress_but_queued(statuses)
}

/// Whether there is a slot for a download. Without a download manager nothing stands in
/// the way.
pub fn has_free_download_slot(has_manager: bool, free_slots: usize) -> (r: bool)
    ensures
        r == (has_manager ==> free_slots > 0),
{
    if has_manager {
        free_slots > 0
    } else {
        true
    }
}

// ---------------------------------------------------------------------------
// The wait
// ---------------------------------------------------------------------------
/// How long to wait and how often to restart.
#[derive(Debug, Clone, Copy, PartialEq, Eq, Structural)]
pub struct WaitLimits {
    pub idle_timeout: Duration,
    pub hard_timeout: Option<Duration>,
    pub stall_retry_after: Option<Duration>,
    pub stall_retry_max: u32,
}

/// The wait for a task.
#[derive(Debug)]
pub struct TaskWait {
    pub task_id: String,
    /// Whether the task's downloads have to finish too.
    pub require_download: bool,
    pub limits: WaitLimits,
    pub started_at: Instant,
    pub last_activity_at: Instant,
    pub last_stall_retry_at: Option<Instant>,
    pub last_paused_resume_at: Option<Instant>,
    pub last_slot_probe_at: Option<Instant>,
    pub stall_retry_attempts: u32,
    pub last_signature: Option<TaskActivitySignature>,
}

/// What a `TaskWait` holds.
#[verifier::ext_equal]
pub struct WaitView {
    pub task_id: Seq<char>,
    pub require_download: bool,
    pub limits: WaitLimits,
    pub started_at: Instant,
    pub last_activity_at: Instant,
    pub last_stall_retry_at: Option<Instant>,
    pub last_paused_resume_at: Option<Instant>,
    pub last_slot_probe_at: Option<Instant>,
    pub stall_retry_attempts: u32,
    pub last_signature: Option<activity::TaskActivityView>,
}

impl View for TaskWait {
    type V = WaitView;

    open spec fn view(&self) -> WaitView {
        WaitView {
            task_id: self.task_id@,
            require_download: self.require_download,
            limits: self.limits,
            started_at: self.started_at,
            last_activity_at: self.last_activity_at,
            last_stall_retry_at: self.last_stall_retry_at,
            last_paused_resume_at: self.last_paused_resume_at,
            last_slot_probe_at: self.last_slot_probe_at,
            stall_retry_attempts: self.stall_retry_attempts,
            last_signature: match self.last_signature {
                Some(s) => Some(s@),
                None => None,
            },
        }
    }
}

/// Whether so long has passed since the last time, or there was none.
pub open spec fn is_due(last: Option<Instant>, now: Instant, every: Duration) -> bool {
    match last {
        Some(t) => time::span(t, now).nanos >= every.nanos,
        None => true,
    }
}

fn due(last: Option<Instant>, now: Instant, every: Duration) -> (r: bool)
    ensures
        r == is_due(last, now, every),
{
    match last {
        Some(t) => now.duration_since(t).nanos >= every.nanos,
        None => true,
    }
}

/// A span of so many seconds.
pub open spec fn seconds(n: u64) -> Duration {
    Duration { nanos: Duration::secs(n as nat) as u128 }
}

/// Whether paused downloads are to be woken now.
pub open spec fn wake_due(w: WaitView, rows: Seq<subtasks::SubtaskView>, now: Instant) -> bool {
    &&& w.require_download
    &&& subtasks::paused(rows).len() > 0
    &&& is_due(w.last_paused_resume_at, now, seconds(PAUSED_RESUME_SECS))
}

/// Whether it is to be asked now if downloads wait for a slot.
pub open spec fn probe_due(w: WaitView, now: Instant) -> bool {
    &&& w.require_download
    &&& time::span(w.last_activity_at, now).nanos >= seconds(QUEUE_WAIT_PROBE_SECS).nanos
    &&& is_due(w.last_slot_probe_at, now, seconds(QUEUE_WAIT_PROBE_SECS))
}

/// Whether downloads are to be restarted now.
pub open spec fn retry_due(w: WaitView, now: Instant) -> bool {
    &&& w.require_download
    &&& w.limits.stall_retry_after matches Some(after)
    &&& time::span(w.last_activity_at, now).nanos >= after.nanos
    &&& w.stall_retry_attempts < w.limits.stall_retry_max
    &&& is_due(w.last_stall_retry_at, now, after)
}

/// Whether the task has taken too long in all.
pub open spec fn overdue(w: WaitView, now: Instant) -> bool {
    w.limits.hard_timeout matches Some(cap) && time::span(w.started_at, now).nanos >= cap.nanos
}

/// Whether the task has stood still for too long.
pub open spec fn stalled(w: WaitView, now: Instant) -> bool {
    time::span(w.last_activity_at, now).nanos >= w.limits.idle_timeout.nanos
}

/// What is said of a task that took too long in all.
pub open spec fn overdue_text(w: WaitView, status: TransferStatus, now: Instant) -> Seq<char> {
    "等待任务完成超过硬上限: task_id="@ + w.task_id + ", status="@
        + transfer::transfer_status_name(status) + ", elapsed_secs="@ + numbers::decimal_of(
        (time::span(w.started_at, now).nanos / time::NANOS_PER_SEC) as nat,
    ) + ", hard_timeout_secs="@ + numbers::decimal_of(
        (w.limits.hard_timeout->0.nanos / time::NANOS_PER_SEC) as nat,
    )
}

/// What is said of a task that stood still for too long.
pub open spec fn stalled_text(w: WaitView, status: TransferStatus, now: Instant) -> Seq<char> {
    "等待任务完成超时: task_id="@ + w.task_id + ", status="@
        + transfer::transfer_status_name(status) + ", idle_secs="@ + numbers::decimal_of(
        (time::span(w.last_activity_at, now).nanos / time::NANOS_PER_SEC) as nat,
    ) + ", idle_timeout_secs="@ + numbers::decimal_of(
        (w.limits.idle_timeout.nanos / time::NANOS_PER_SEC) as nat,
    )
}

/// The error of a wait that is given up.
pub open spec fn given_up(w: WaitView, msg: Seq<char>) -> error::ErrorView {
    if w.require_download {
        error::ErrorView::DownloadError(msg)
    } else {
        error::ErrorView::TransferError(msg)
    }
}

fn timeout_text(
    head: &str,
    task_id: &str,
    status: TransferStatus,
    passed_label: &str,
    passed: Duration,
    limit_label: &str,
    limit: Duration,
) -> (r: String)
    ensures
        r@ == head@ + task_id@ + ", status="@ + transfer::transfer_status_name(status)
            + passed_label@ + numbers::decimal_of((passed.nanos / time::NANOS_PER_SEC) as nat)
            + limit_label@ + numbers::decimal_of((limit.nanos / time::NANOS_PER_SEC) as nat),
{
    let a = decimal_wide(passed.as_secs());
    let b = decimal_wide(limit.as_secs());
    let mut r = concat2(head, task_id);
    r.append(", status=");
    r.append(status.name());
    r.append(passed_label);
    r.append(a.as_str());
    r.append(limit_label);
    r.append(b.as_str());
    r
}

impl TaskWait {
    /// Begins to wait.
    pub fn begin(
        task_id: &str,
        require_download: bool,
        limits: WaitLimits,
        started_at: Instant,
    ) -> (r: TaskWait)
        ensures
            r@ == (WaitView {
                task_id: task_id@,
                require_download,
                limits,
                started_at,
                last_activity_at: started_at,
                last_stall_retry_at: None,
                last_paused_resume_at: None,
                last_slot_probe_at: None,
                stall_retry_attempts: 0,
                last_signature: None,
            }),
    {
        TaskWait {
            task_id: task_id.to_owned(),
            require_download,
            limits,
            started_at,
            last_activity_at: started_at,
            last_stall_retry_at: None,
            last_paused_resume_at: None,
            last_slot_probe_at: None,
            stall_retry_attempts: 0,
            last_signature: None,
        }
    }

    /// The paused rows, where they are to be woken now if there is a slot. Whether or not
    /// they are then woken, the next attempt comes later.
    pub fn rows_to_wake(&mut self, rows: &Vec<ShareSyncSubtask>, now: Instant) -> (r: Option<
        Vec<ShareSyncSubtask>,
    >)
        ensures
            match r {
                Some(v) => wake_due(old(self)@, subtasks::row_views(rows@), now)
                    && subtasks::row_views(v@) == subtasks::paused(subtasks::row_views(rows@))
                    && final(self)@ == (WaitView {
                    last_paused_resume_at: Some(now),
                    ..old(self)@
                }),
                None => !wake_due(old(self)@, subtasks::row_views(rows@), now) && final(self)@
                    == old(self)@,
            },
    {
        if !self.require_download {
            return None;
        }
        let paused = paused_subtasks(rows);
        assert(subtasks::row_views(paused@).len() == paused@.len());
        if paused.len() == 0 {
            return None;
        }
        if !due(self.last_paused_resume_at, now, Duration::from_secs(PAUSED_RESUME_SECS)) {
            return None;
        }
        self.last_paused_resume_at = Some(now);
        Some(paused)
    }

    /// Notes what the task and its rows show; `noted_at` is when. A task that shows
    /// something new is active.
    pub fn note_activity(
        &mut self,
        task: &TransferTask,
        rows: &Vec<ShareSyncSubtask>,
        noted_at: Instant,
    )
        ensures
            exists|sig: TaskActivitySignature|
                #[trigger] activity::is_activity(sig, *task, subtasks::row_views(rows@))
                    && final(self)@ == if old(self)@.last_signature == Some(sig@) {
                    old(self)@
                } else {
                    WaitView {
                        last_activity_at: noted_at,
                        last_signature: Some(sig@),
                        ..old(self)@
                    }
                },
    {
        let sig = task_activity_signature(task, rows);
        assert(activity::is_activity(sig, *task, subtasks::row_views(rows@)));
        let known = match &self.last_signature {
            Some(last) => last.same_as(&sig),
            None => false,
        };
        if !known {
            self.last_activity_at = noted_at;
            self.last_signature = Some(sig);
        }
    }

    /// The error where the task has taken too long in all.
    pub fn check_hard_timeout(&self, status: TransferStatus, now: Instant) -> (r: Option<
        ShareSyncError,
    >)
        ensures
            match r {
                Some(e) => overdue(self@, now) && e@ == given_up(
                    self@,
                    overdue_text(self@, status, now),
                ),
                None => !overdue(self@, now),
            },
    {
        match self.limits.hard_timeout {
            Some(cap) => {
                let passed = now.duration_since(self.started_at);
                if passed.nanos >= cap.nanos {
                    let msg = timeout_text(
                        "等待任务完成超过硬上限: task_id=",
                        self.task_id.as_str(),
                        status,
                        ", elapsed_secs=",
                        passed,
                        ", hard_timeout_secs=",
                        cap,
                    );
                    Some(
                        if self.require_download {
                            ShareSyncError::DownloadError(msg)
                        } else {
                            ShareSyncError::TransferError(msg)
                        },
                    )
                } else {
                    None
                }
            },
            None => None,
        }
    }

    /// Whether it is to be asked now if downloads wait for a slot; the next time comes
    /// later.
    pub fn wants_slot_probe(&mut self, now: Instant) -> (r: bool)
        ensures
            r == probe_due(old(self)@, now),
            final(self)@ == if r {
                WaitView { last_slot_probe_at: Some(now), ..old(self)@ }
            } else {
                old(self)@
            },
    {
        let gap = Duration::from_secs(QUEUE_WAIT_PROBE_SECS);
        let idle = now.duration_since(self.last_activity_at);
        if self.require_download && idle.nanos >= gap.nanos && due(
            self.last_slot_probe_at,
            now,
            gap,
        ) {
            self.last_slot_probe_at = Some(now);
            true
        } else {
            false
        }
    }

    /// Notes that downloads wait for a slot: that is no standstill.
    pub fn note_slot_wait(&mut self, now: Instant)
        ensures
            final(self)@ == (WaitView { last_activity_at: now, ..old(self)@ }),
    {
        self.last_activity_at = now;
    }

    /// Whether downloads are to be restarted now.
    pub fn wants_restart(&mut self, now: Instant) -> (r: bool)
        ensures
            r == retry_due(old(self)@, now),
            final(self)@ == if r {
                WaitView { last_stall_retry_at: Some(now), ..old(self)@ }
            } else {
                old(self)@
            },
    {
        match self.limits.stall_retry_after {
            Some(after) => {
                let idle = now.duration_since(self.last_activity_at);
                if self.require_download && idle.nanos >= after.nanos && self.stall_retry_attempts
                    < self.limits.stall_retry_max && due(self.last_stall_retry_at, now, after) {
                    self.last_stall_retry_at = Some(now);
                    true
                } else {
                    false
                }
            },
            None => false,
        }
    }

    /// Notes that downloads have been restarted.
    pub fn note_restart(&mut self, noted_at: Instant)
        requires
            old(self).stall_retry_attempts < old(self).limits.stall_retry_max,
        ensures
            final(self)@ == (WaitView {
                last_activity_at: noted_at,
                stall_retry_attempts: (old(self)@.stall_retry_attempts + 1) as u32,
                ..old(self)@
            }),
    {
        self.stall_retry_attempts = self.stall_retry_attempts + 1;
        self.last_activity_at = noted_at;
    }

    /// The error where the task has stood still for too long.
    pub fn check_idle_timeout(&self, status: TransferStatus, now: Instant) -> (r: Option<
        ShareSyncError,
    >)
        ensures
            match r {
                Some(e) => stalled(self@, now) && e@ == given_up(
                    self@,
                    stalled_text(self@, status, now),
                ),
                None => !stalled(self@, now),
            },
    {
        let idle = now.duration_since(self.last_activity_at);
        if idle.nanos >= self.limits.idle_timeout.nanos {
            let msg = timeout_text(
                "等待任务完成超时: task_id=",
                self.task_id.as_str(),
                status,
                ", idle_secs=",
                idle,
                ", idle_timeout_secs=",
                self.limits.idle_timeout,
            );
            Some(
                if self.require_download {
                    ShareSyncError::DownloadError(msg)
                } else {
                    ShareSyncError::TransferError(msg)
                },
            )
        } else {
            None
        }
    }
}

// ---------------------------------------------------------------------------
// One look at the task
// ---------------------------------------------------------------------------
/// What to do next while waiting.
#[derive(Debug)]
pub enum WaitAction {
    /// The wait is over.
    Finish(Result<(), ShareSyncError>),
    /// Wake the rows if there is a slot for a download, and report how many move again.
    Wake(Vec<ShareSyncSubtask>),
    /// Find out whether downloads wait for a slot.
    Probe,
    /// Restart what can be restarted, and report how many move again.
    Restart,
    /// Look again in a second.
    Sleep,
}

/// What a `WaitAction` says.
#[verifier::ext_equal]
pub enum WaitStep {
    Finish(Result<(), error::ErrorView>),
    Wake(Seq<subtasks::SubtaskView>),
    Probe,
    Restart,
    Sleep,
}

impl View for WaitAction {
    type V = WaitStep;

    open spec fn view(&self) -> WaitStep {
        match self {
            WaitAction::Finish(Ok(_)) => WaitStep::Finish(Ok(())),
            WaitAction::Finish(Err(e)) => WaitStep::Finish(Err(e@)),
            WaitAction::Wake(rows) => WaitStep::Wake(subtasks::row_views(rows@)),
            WaitAction::Probe => WaitStep::Probe,
            WaitAction::Restart => WaitStep::Restart,
            WaitAction::Sleep => WaitStep::Sleep,
        }
    }
}

/// Gives up where the task has stood still for too long, else sleeps.
pub open spec fn settled(w: WaitView, status: TransferStatus, now: Instant) -> WaitStep {
    if stalled(w, now) {
        WaitStep::Finish(Err(given_up(w, stalled_text(w, status, now))))
    } else {
        WaitStep::Sleep
    }
}

/// After it was asked, or not, whether downloads wait for a slot.
pub open spec fn probed(w: WaitView, waiting: bool, status: TransferStatus, now: Instant) -> (
    WaitView,
    WaitStep,
) {
    let v = if waiting {
        WaitView { last_activity_at: now, ..w }
    } else {
        w
    };
    if retry_due(v, now) {
        (WaitView { last_stall_retry_at: Some(now), ..v }, WaitStep::Restart)
    } else {
        (v, settled(v, status, now))
    }
}

/// After a restart by which so many downloads move again.
pub open spec fn restarted_by(
    w: WaitView,
    restarted: usize,
    status: TransferStatus,
    now: Instant,
    noted_at: Instant,
) -> (WaitView, WaitStep) {
    if restarted > 0 {
        (
            WaitView {
                last_activity_at: noted_at,
                stall_retry_attempts: (w.stall_retry_attempts + 1) as u32,
                ..w
            },
            WaitStep::Sleep,
        )
    } else {
        (w, settled(w, status, now))
    }
}

/// The wait with what the task showed at `noted_at`.
pub open spec fn noted(
    w: WaitView,
    sig: activity::TaskActivityView,
    noted_at: Instant,
) -> WaitView {
    if w.last_signature == Some(sig) {
        w
    } else {
        WaitView { last_activity_at: noted_at, last_signature: Some(sig), ..w }
    }
}

/// After paused downloads were woken, or not: notes what the task shows, gives up where it
/// took too long in all, asks whether downloads wait for a slot where that is due.
pub open spec fn observed(
    w: WaitView,
    sig: activity::TaskActivityView,
    status: TransferStatus,
    now: Instant,
    noted_at: Instant,
) -> (WaitView, WaitStep) {
    let v = noted(w, sig, noted_at);
    if overdue(v, now) {
        (v, WaitStep::Finish(Err(given_up(v, overdue_text(v, status, now)))))
    } else if probe_due(v, now) {
        (WaitView { last_slot_probe_at: Some(now), ..v }, WaitStep::Probe)
    } else {
        probed(v, false, status, now)
    }
}

/// The rows that count: where no download has to finish, none.
pub open spec fn counted_rows(w: WaitView, rows: Seq<subtasks::SubtaskView>) -> Seq<
    subtasks::SubtaskView,
> {
    if w.require_download {
        rows
    } else {
        Seq::empty()
    }
}

/// `next` and `step` follow from what the task and its rows show.
pub open spec fn follows(
    w: WaitView,
    task: TransferTask,
    rows: Seq<subtasks::SubtaskView>,
    now: Instant,
    noted_at: Instant,
    next: WaitView,
    step: WaitStep,
) -> bool {
    exists|sig: TaskActivitySignature|
        #[trigger] activity::is_activity(sig, task, counted_rows(w, rows)) && (next, step)
            == observed(w, sig@, task.status, now, noted_at)
}

impl TaskWait {
    /// Gives up where the task has stood still for too long, else sleeps.
    fn settle(&self, status: TransferStatus, now: Instant) -> (r: WaitAction)
        ensures
            r@ == settled(self@, status, now),
    {
        match self.check_idle_timeout(status, now) {
            Some(e) => WaitAction::Finish(Err(e)),
            None => WaitAction::Sleep,
        }
    }

    /// Goes on once it is known whether downloads wait for a slot.
    pub fn after_probe(&mut self, waiting: bool, status: TransferStatus, now: Instant) -> (r:
        WaitAction)
        ensures
            (final(self)@, r@) == probed(old(self)@, waiting, status, now),
    {
        if waiting {
            self.note_slot_wait(now);
        }
        if self.wants_restart(now) {
            return WaitAction::Restart;
        }
        self.settle(status, now)
    }

    /// Goes on after a restart by which so many downloads move again.
    pub fn after_restart(
        &mut self,
        restarted: usize,
        status: TransferStatus,
        now: Instant,
        noted_at: Instant,
    ) -> (r: WaitAction)
        requires
            old(self).stall_retry_attempts < old(self).limits.stall_retry_max,
        ensures
            (final(self)@, r@) == restarted_by(old(self)@, restarted, status, now, noted_at),
    {
        if restarted > 0 {
            self.note_restart(noted_at);
            return WaitAction::Sleep;
        }
        self.settle(status, now)
    }

    fn observe(
        &mut self,
        task: &TransferTask,
        rows: &Vec<ShareSyncSubtask>,
        now: Instant,
        noted_at: Instant,
    ) -> (r: WaitAction)
        ensures
            follows(
                old(self)@,
                *task,
                subtasks::row_views(rows@),
                now,
                noted_at,
                final(self)@,
                r@,
            ),
    {
        let ghost w = self@;
        let none: Vec<ShareSyncSubtask> = Vec::new();
        let counted = if self.require_download {
            rows
        } else {
            &none
        };
        assert(subtasks::row_views(counted@) =~= counted_rows(w, subtasks::row_views(rows@)));
        self.note_activity(task, counted, noted_at);
        let ghost sig = choose|sig: TaskActivitySignature|
            #[trigger] activity::is_activity(
                sig,
                *task,
                subtasks::row_views(counted@),
            ) && self@ == noted(w, sig@, noted_at);
        assert(self@ == noted(w, sig@, noted_at));
        match self.check_hard_timeout(task.status, now) {
            Some(e) => {
                return WaitAction::Finish(Err(e));
            },
            None => {},
        }
        if self.wants_slot_probe(now) {
            return WaitAction::Probe;
        }
        self.after_probe(false, task.status, now)
    }

    /// Goes on after paused downloads were to be woken, and so many move again.
    pub fn after_wake(
        &mut self,
        restarted: usize,
        task: &TransferTask,
        rows: &Vec<ShareSyncSubtask>,
        now: Instant,
        noted_at: Instant,
    ) -> (r: WaitAction)
        ensures
            if restarted > 0 {
                final(self)@ == old(self)@ && r@ == WaitStep::Sleep
            } else {
                follows(
                    old(self)@,
                    *task,
                    subtasks::row_views(rows@),
                    now,
                    noted_at,
                    final(self)@,
                    r@,
                )
            },
    {
        if restarted > 0 {
            return WaitAction::Sleep;
        }
        self.observe(task, rows, now, noted_at)
    }

    /// One look at the task: `now` is when its rows were listed, `noted_at` when they were
    /// compared with what was known.
    pub fn look(
        &mut self,
        task: &Option<TransferTask>,
        rows: &Vec<ShareSyncSubtask>,
        now: Instant,
        noted_at: Instant,
    ) -> (r: WaitAction)
        ensures
            match outcome_of(*task, old(self)@.task_id, old(self)@.require_download) {
                Some(end) => final(self)@ == old(self)@ && r@ == WaitStep::Finish(end),
                None => if wake_due(old(self)@, subtasks::row_views(rows@), now) {
                    &&& r@ == WaitStep::Wake(subtasks::paused(subtasks::row_views(rows@)))
                    &&& final(self)@ == (WaitView {
                        last_paused_resume_at: Some(now),
                        ..old(self)@
                    })
                } else {
                    follows(
                        old(self)@,
                        task->0,
                        subtasks::row_views(rows@),
                        now,
                        noted_at,
                        final(self)@,
                        r@,
                    )
                },
            },
    {
        match task_outcome(task, self.task_id.as_str(), self.require_download) {
            Some(end) => {
                return WaitAction::Finish(end);
            },
            None => {},
        }
        match self.rows_to_wake(rows, now) {
            Some(paused) => {
                return WaitAction::Wake(paused);
            },
            None => {},
        }
        match task {
            Some(t) => self.observe(t, rows, now, noted_at),
            None => WaitAction::Sleep,
        }
    }
}

/// A task that waits for a slot is not given up for standing still, unless it may not
/// stand still at all.
pub proof fn law_slot_wait_is_no_standstill(w: WaitView, now: Instant)
    requires
        w.last_activity_at == now,
        w.limits.idle_timeout.nanos > 0,
    ensures
        !stalled(w, now),
        !retry_due(w, now) || w.limits.stall_retry_after->0.nanos == 0,
{
}

/// Downloads are restarted no more often than allowed: once the limit is reached none
/// ever is.
pub proof fn law_restarts_are_bounded(w: WaitView, now: Instant)
    requires
        w.stall_retry_attempts >= w.limits.stall_retry_max,
    ensures
        !retry_due(w, now),
{
}

/// A task has ended well where it is completed, or where it was copied and no download is wanted;
/// it has ended badly where it failed, where it is gone, or where it was copied and the download
/// never came; else it goes on.
pub proof fn law_how_a_task_ends(task: TransferTask, task_id: Seq<char>, require_download: bool)
    ensures
        outcome_of(None, task_id, require_download) matches Some(r) && r is Err,
        outcome_of(Some(task), task_id, require_download) == Some(
            Ok::<(), error::ErrorView>(()),
        ) <==> (task.status == TransferStatus::Completed || (task.status
            == TransferStatus::Transferred && !require_download)),
        outcome_of(Some(task), task_id, require_download) is None <==> (task.status
            != TransferStatus::Completed && task.status != TransferStatus::Transferred
            && task.status != TransferStatus::TransferFailed && task.status
            != TransferStatus::DownloadFailed),
        task.status == TransferStatus::TransferFailed ==> (task.error matches Some(e) ==> outcome_of(
            Some(task),
            task_id,
            require_download,
        ) == Some(Err::<(), error::ErrorView>(error::ErrorView::TransferError(e@)))),
        task.status == TransferStatus::DownloadFailed ==> (task.error matches Some(e) ==> outcome_of(
            Some(task),
            task_id,
            require_download,
        ) == Some(Err::<(), error::ErrorView>(error::ErrorView::DownloadError(e@)))),
{
}

/// A task is given up for standing still exactly where nothing has moved for the idle time, and
/// for taking too long exactly where the whole wait has reached its limit, if it has one.
pub proof fn law_when_a_wait_is_given_up(w: WaitView, status: TransferStatus, now: Instant)
    requires
        w.started_at.nanos <= now.nanos,
        w.last_activity_at.nanos <= now.nanos,
    ensures
        settled(w, status, now) is Finish <==> now.nanos - w.last_activity_at.nanos
            >= w.limits.idle_timeout.nanos,
        !(settled(w, status, now) is Finish) ==> settled(w, status, now) is Sleep,
        overdue(w, now) <==> (w.limits.hard_timeout matches Some(cap) && now.nanos
            - w.started_at.nanos >= cap.nanos),
        settled(w, status, now) matches WaitStep::Finish(r) ==> (r matches Err(e) && if w.require_download {
            e is DownloadError
        } else {
            e is TransferError
        }),
{
}

/// Movement is what counts: where the task shows something new the idle time begins anew, where
/// it shows what it showed it goes on.
pub proof fn law_movement_is_noted(w: WaitView, sig: activity::TaskActivityView, at: Instant)
    ensures
        w.last_signature == Some(sig) ==> noted(w, sig, at) == w,
        w.last_signature != Some(sig) ==> noted(w, sig, at).last_activity_at == at
            && noted(w, sig, at).last_signature == Some(sig),
        noted(w, sig, at).started_at == w.started_at,
        noted(w, sig, at).limits == w.limits,
        noted(w, sig, at).stall_retry_attempts == w.stall_retry_attempts,
        noted(w, sig, at).task_id == w.task_id,
        noted(w, sig, at).require_download == w.require_download,
{
}

/// Downloads that stand still are restarted before the wait is given up: where a download is
/// wanted, nothing has moved for long enough, it was not tried too often, and the last try is
/// long enough ago.
pub proof fn law_when_downloads_are_restarted(w: WaitView, status: TransferStatus, now: Instant)
    requires
        w.last_activity_at.nanos <= now.nanos,
        w.last_stall_retry_at matches Some(t) ==> t.nanos <= now.nanos,
    ensures
        probed(w, false, status, now).1 is Restart <==> (w.require_download && (
        w.limits.stall_retry_after matches Some(after) && {
            &&& now.nanos - w.last_activity_at.nanos >= after.nanos
            &&& w.stall_retry_attempts < w.limits.stall_retry_max
            &&& w.last_stall_retry_at matches Some(t) ==> now.nanos - t.nanos >= after.nanos
        })),
        probed(w, false, status, now).1 is Restart ==> probed(
            w,
            false,
            status,
            now,
        ).0.last_stall_retry_at == Some(now),
        probed(w, true, status, now).0.last_activity_at == now,
{
}

/// A restart that brought something back begins the idle time anew and is counted; one that
/// brought nothing changes nothing.
pub proof fn law_restarts_are_counted(
    w: WaitView,
    restarted: usize,
    status: TransferStatus,
    now: Instant,
    at: Instant,
)
    requires
        w.stall_retry_attempts < w.limits.stall_retry_max,
    ensures
        restarted > 0 ==> restarted_by(w, restarted, status, now, at).0.stall_retry_attempts
            == w.stall_retry_attempts + 1 && restarted_by(
            w,
            restarted,
            status,
            now,
            at,
        ).0.last_activity_at == at && restarted_by(w, restarted, status, now, at).1 is Sleep,
        restarted == 0 ==> restarted_by(w, restarted, status, now, at).0 == w,
{
}

/// Paused rows are woken, and free places looked for, only for a download, and each only every so
/// many seconds.
pub proof fn law_when_rows_are_woken(
    w: WaitView,
    rows: Seq<subtasks::SubtaskView>,
    row: subtasks::SubtaskView,
    now: Instant,
)
    requires
        w.last_activity_at.nanos <= now.nanos,
        w.last_paused_resume_at matches Some(t) ==> t.nanos <= now.nanos,
        w.last_slot_probe_at matches Some(t) ==> t.nanos <= now.nanos,
    ensures
        wake_due(w, rows, now) ==> w.require_download && (w.last_paused_resume_at matches Some(t)
            ==> now.nanos - t.nanos >= 10 * time::NANOS_PER_SEC),
        w.require_download && row.status == "paused"@ && w.last_paused_resume_at is None
            ==> wake_due(w, rows.push(row), now),
        probe_due(w, now) <==> (w.require_download && now.nanos - w.last_activity_at.nanos >= 30
            * time::NANOS_PER_SEC && (w.last_slot_probe_at matches Some(t) ==> now.nanos - t.nanos
            >= 30 * time::NANOS_PER_SEC)),
{
    reveal(Seq::filter);
    assert(rows.push(row).drop_last() =~= rows);
}

/// Without a setting a wait lasts a week at most; a setting of zero takes the limit off, another
/// number is the limit in seconds.
pub proof fn law_hard_limit_follows_the_setting(setting: Option<&str>)
    ensures
        setting is None ==> hard_timeout_of(setting) == Some(
            Duration { nanos: (7 * 24 * 60 * 60 * 1_000_000_000) as u128 },
        ),
        setting matches Some(s) ==> (numbers::unsigned_of(s@, u64::MAX as nat) == Some(0nat)
            ==> hard_timeout_of(setting) is None),
        setting matches Some(s) ==> (numbers::unsigned_of(s@, u64::MAX as nat) matches Some(n)
            ==> (n > 0 ==> (hard_timeout_of(setting) matches Some(d) && d.nanos == n
            * 1_000_000_000))),
{
}

/// A look at a task ends the wait where its hard limit has passed, whatever the task does. It
/// changes nothing of what is waited for, nor when the wait began, and counts no restart.
pub proof fn law_what_a_look_keeps(
    w: WaitView,
    task: TransferTask,
    rows: Seq<subtasks::SubtaskView>,
    now: Instant,
    noted_at: Instant,
    next: WaitView,
    step: WaitStep,
)
    requires
        follows(w, task, rows, now, noted_at, next, step),
    ensures
        (w.limits.hard_timeout matches Some(cap) && time::span(w.started_at, now).nanos >= cap.nanos)
            ==> step matches WaitStep::Finish(Err(_)),
        next.task_id == w.task_id,
        next.require_download == w.require_download,
        next.limits == w.limits,
        next.started_at == w.started_at,
        next.stall_retry_attempts == w.stall_retry_attempts,
        next.last_signature is Some,
        next.last_signature->Some_0.status == task.status,
        next.last_signature->Some_0.transferred_count == task.transferred_count,
        next.last_signature->Some_0.total_count == task.total_count,
        next.last_activity_at == if w.last_signature == next.last_signature {
            w.last_activity_at
        } else {
            noted_at
        },
        !w.require_download ==> next.last_signature->Some_0.subtasks.len() == 0,
        step == WaitStep::Probe ==> next.last_slot_probe_at == Some(now),
        step == WaitStep::Restart ==> next.last_stall_retry_at == Some(now),
{
    let sig = choose|sig: TaskActivitySignature|
        #[trigger] activity::is_activity(sig, task, counted_rows(w, rows)) && (next, step)
            == observed(w, sig@, task.status, now, noted_at);
    assert(next.last_signature == Some(sig@));
    if !w.require_download {
        let unsorted = choose|unsorted: Seq<activity::SubtaskActivitySignature>|
            activity::activity_views(unsorted) == activity::row_activities(
                counted_rows(w, rows),
            ) && #[trigger] crate::sorting::is_stable_sort(sig.subtasks@, unsorted);
        assert(activity::activity_views(unsorted).len() == unsorted.len());
        assert(activity::row_activities(counted_rows(w, rows)).len() == 0);
        assert(sig@.subtasks.len() == sig.subtasks@.len());
    }
}

} // verus!
