//! What a synchronisation tells the world, and what it asks of it.
use vstd::prelude::*;

use crate::share_sync::config::{ShareSubscription, SubscriptionView};
use crate::share_sync::subtasks;
use crate::share_sync::subtasks::ShareSyncSubtask;
use crate::text;

verus! {

/// The state of a run.
#[derive(Debug, Clone, Copy, PartialEq, Eq, Structural)]
pub enum RunStatus {
    Running,
    Completed,
    CompletedWithErrors,
    Failed,
    Interrupted,
}

/// The state of one item of a run.
#[derive(Debug, Clone, Copy, PartialEq, Eq, Structural)]
pub enum RunItemStatus {
    Completed,
    Failed,
}

/// What a run did, in numbers.
#[derive(Debug, Clone, Copy, PartialEq, Eq, Structural)]
pub struct DiffSummary {
    pub total: usize,
    pub added: usize,
    pub modified: usize,
    pub removed: usize,
    pub failed: usize,
    pub skipped: usize,
}

/// Nothing was done.
pub open spec fn no_summary() -> DiffSummary {
    DiffSummary { total: 0, added: 0, modified: 0, removed: 0, failed: 0, skipped: 0 }
}

impl Default for DiffSummary {
    fn default() -> (r: Self)
        ensures
            r == no_summary(),
    {
        DiffSummary { total: 0, added: 0, modified: 0, removed: 0, failed: 0, skipped: 0 }
    }
}

/// Something that those who listen are told.
#[derive(Debug)]
pub enum ShareSyncEvent {
    SubscriptionCreated {
        subscription_id: String,
        name: String,
        owner_uid: u64,
    },
    SubscriptionUpdated {
        subscription_id: String,
        owner_uid: u64,
    },
    SubscriptionDeleted {
        subscription_id: String,
        owner_uid: u64,
    },
    StatusChanged {
        subscription_id: String,
        enabled: bool,
        owner_uid: u64,
    },
    RunStarted {
        run_id: String,
        subscription_id: String,
        owner_uid: u64,
    },
    /// How many files are new, changed and gone.
    DiffDetected {
        run_id: String,
        subscription_id: String,
        added: usize,
        modified: usize,
        removed: usize,
        owner_uid: u64,
    },
    ItemProgress {
        run_id: String,
        subscription_id: String,
        row: ShareSyncSubtask,
        owner_uid: u64,
    },
    RunCompleted {
        run_id: String,
        subscription_id: String,
        added: usize,
        modified: usize,
        removed: usize,
        failed: usize,
        owner_uid: u64,
        duration_ms: Option<u64>,
        n_bisects: Option<u32>,
        max_bisect_depth: Option<u32>,
    },
    RunFailed {
        run_id: String,
        subscription_id: String,
        error: String,
        owner_uid: u64,
        reason: Option<String>,
    },
}

/// What a `ShareSyncEvent` tells.
#[verifier::ext_equal]
pub enum EventView {
    SubscriptionCreated {
        subscription_id: Seq<char>,
        name: Seq<char>,
        owner_uid: u64,
    },
    SubscriptionUpdated {
        subscription_id: Seq<char>,
        owner_uid: u64,
    },
    SubscriptionDeleted {
        subscription_id: Seq<char>,
        owner_uid: u64,
    },
    StatusChanged {
        subscription_id: Seq<char>,
        enabled: bool,
        owner_uid: u64,
    },
    RunStarted {
        run_id: Seq<char>,
        subscription_id: Seq<char>,
        owner_uid: u64,
    },
    DiffDetected {
        run_id: Seq<char>,
        subscription_id: Seq<char>,
        added: usize,
        modified: usize,
        removed: usize,
        owner_uid: u64,
    },
    ItemProgress {
        run_id: Seq<char>,
        subscription_id: Seq<char>,
        row: subtasks::SubtaskView,
        owner_uid: u64,
    },
    RunCompleted {
        run_id: Seq<char>,
        subscription_id: Seq<char>,
        added: usize,
        modified: usize,
        removed: usize,
        failed: usize,
        owner_uid: u64,
        duration_ms: Option<u64>,
        n_bisects: Option<u32>,
        max_bisect_depth: Option<u32>,
    },
    RunFailed {
        run_id: Seq<char>,
        subscription_id: Seq<char>,
        error: Seq<char>,
        owner_uid: u64,
        reason: Option<Seq<char>>,
    },
}

impl View for ShareSyncEvent {
    type V = EventView;

    open spec fn view(&self) -> EventView {
        match self {
            ShareSyncEvent::SubscriptionCreated { subscription_id, name, owner_uid } => EventView::SubscriptionCreated {
                subscription_id: subscription_id@,
                name: name@,
                owner_uid: *owner_uid,
            },
            ShareSyncEvent::SubscriptionUpdated { subscription_id, owner_uid } => EventView::SubscriptionUpdated {
                subscription_id: subscription_id@,
                owner_uid: *owner_uid,
            },
            ShareSyncEvent::SubscriptionDeleted { subscription_id, owner_uid } => EventView::SubscriptionDeleted {
                subscription_id: subscription_id@,
                owner_uid: *owner_uid,
            },
            ShareSyncEvent::StatusChanged { subscription_id, enabled, owner_uid } => EventView::StatusChanged {
                subscription_id: subscription_id@,
                enabled: *enabled,
                owner_uid: *owner_uid,
            },
            ShareSyncEvent::RunStarted { run_id, subscription_id, owner_uid } => EventView::RunStarted {
                run_id: run_id@,
                subscription_id: subscription_id@,
                owner_uid: *owner_uid,
            },
            ShareSyncEvent::DiffDetected { run_id, subscription_id, added, modified, removed, owner_uid } => EventView::DiffDetected {
                run_id: run_id@,
                subscription_id: subscription_id@,
                added: *added,
                modified: *modified,
                removed: *removed,
                owner_uid: *owner_uid,
            },
            ShareSyncEvent::ItemProgress { run_id, subscription_id, row, owner_uid } => EventView::ItemProgress {
                run_id: run_id@,
                subscription_id: subscription_id@,
                row: row@,
                owner_uid: *owner_uid,
            },
            ShareSyncEvent::RunCompleted { run_id, subscription_id, added, modified, removed, failed, owner_uid, duration_ms, n_bisects, max_bisect_depth } => EventView::RunCompleted {
                run_id: run_id@,
                subscription_id: subscription_id@,
                added: *added,
                modified: *modified,
                removed: *removed,
                failed: *failed,
                owner_uid: *owner_uid,
                duration_ms: *duration_ms,
                n_bisects: *n_bisects,
                max_bisect_depth: *max_bisect_depth,
            },
            ShareSyncEvent::RunFailed { run_id, subscription_id, error, owner_uid, reason } => EventView::RunFailed {
                run_id: run_id@,
                subscription_id: subscription_id@,
                error: error@,
                owner_uid: *owner_uid,
                reason: text::opt_text(*reason),
            },
        }
    }
}

/// What several events tell.
pub open spec fn event_views(events: Seq<ShareSyncEvent>) -> Seq<EventView> {
    events.map_values(|e: ShareSyncEvent| e@)
}

/// Something that is to be done outside of the library.
#[derive(Debug)]
pub enum Effect {
    /// Tell those who listen.
    Publish {
        event: ShareSyncEvent,
    },
    /// Write the subscription to the store; a failure is passed over.
    SaveSubscription {
        subscription: ShareSubscription,
    },
    /// Delete the subscription from the store; a failure is passed over.
    DeleteSubscription {
        subscription_id: String,
    },
    /// Begin to poll the subscription.
    StartScheduler {
        subscription_id: String,
        interval_secs: u64,
    },
    /// Stop to poll the subscription.
    StopScheduler {
        subscription_id: String,
    },
    /// Begin a run of the subscription; a failure is passed over.
    Trigger {
        subscription_id: String,
    },
    /// Delete all tasks that carry the mark.
    DeleteTasks {
        backup_config_id: String,
        owner_uid: u64,
    },
    /// Note in the store that the run has begun; a failure is passed over.
    StartRun {
        run_id: String,
        subscription_id: String,
        started_at: i64,
    },
    /// Note in the store how the run has ended; a failure is passed over.
    FinishRun {
        run_id: String,
        finished_at: i64,
        status: RunStatus,
        summary: DiffSummary,
        error: Option<String>,
    },
    /// Note in the store how an item of a run has ended; a failure is passed over.
    UpdateRunItem {
        item_id: i64,
        item_status: RunItemStatus,
        error: Option<String>,
    },
    /// Note in the store that the run goes on, in its executing phase; a failure is passed over.
    MarkRunRunning {
        run_id: String,
    },
    /// Make the run's snapshot the one that later runs compare with; a failure is passed over.
    PromoteSnapshot {
        run_id: String,
    },
    /// Delete the run's snapshot; a failure is passed over.
    DeleteSnapshot {
        run_id: String,
    },
}

/// What an `Effect` asks.
#[verifier::ext_equal]
pub enum EffectView {
    Publish {
        event: EventView,
    },
    SaveSubscription {
        subscription: SubscriptionView,
    },
    DeleteSubscription {
        subscription_id: Seq<char>,
    },
    StartScheduler {
        subscription_id: Seq<char>,
        interval_secs: u64,
    },
    StopScheduler {
        subscription_id: Seq<char>,
    },
    Trigger {
        subscription_id: Seq<char>,
    },
    DeleteTasks {
        backup_config_id: Seq<char>,
        owner_uid: u64,
    },
    StartRun {
        run_id: Seq<char>,
        subscription_id: Seq<char>,
        started_at: i64,
    },
    FinishRun {
        run_id: Seq<char>,
        finished_at: i64,
        status: RunStatus,
        summary: DiffSummary,
        error: Option<Seq<char>>,
    },
    UpdateRunItem {
        item_id: i64,
        item_status: RunItemStatus,
        error: Option<Seq<char>>,
    },
    MarkRunRunning {
        run_id: Seq<char>,
    },
    PromoteSnapshot {
        run_id: Seq<char>,
    },
    DeleteSnapshot {
        run_id: Seq<char>,
    },
}

impl View for Effect {
    type V = EffectView;

    open spec fn view(&self) -> EffectView {
        match self {
            Effect::Publish { event } => EffectView::Publish {
                event: event@,
            },
            Effect::SaveSubscription { subscription } => EffectView::SaveSubscription {
                subscription: subscription@,
            },
            Effect::DeleteSubscription { subscription_id } => EffectView::DeleteSubscription {
                subscription_id: subscription_id@,
            },
            Effect::StartScheduler { subscription_id, interval_secs } => EffectView::StartScheduler {
                subscription_id: subscription_id@,
                interval_secs: *interval_secs,
            },
            Effect::StopScheduler { subscription_id } => EffectView::StopScheduler {
                subscription_id: subscription_id@,
            },
            Effect::Trigger { subscription_id } => EffectView::Trigger {
                subscription_id: subscription_id@,
            },
            Effect::DeleteTasks { backup_config_id, owner_uid } => EffectView::DeleteTasks {
                backup_config_id: backup_config_id@,
                owner_uid: *owner_uid,
            },
            Effect::StartRun { run_id, subscription_id, started_at } => EffectView::StartRun {
                run_id: run_id@,
                subscription_id: subscription_id@,
                started_at: *started_at,
            },
            Effect::FinishRun { run_id, finished_at, status, summary, error } => EffectView::FinishRun {
                run_id: run_id@,
                finished_at: *finished_at,
                status: *status,
                summary: *summary,
                error: text::opt_text(*error),
            },
            Effect::UpdateRunItem { item_id, item_status, error } => EffectView::UpdateRunItem {
                item_id: *item_id,
                item_status: *item_status,
                error: text::opt_text(*error),
            },
            Effect::MarkRunRunning { run_id } => EffectView::MarkRunRunning {
                run_id: run_id@,
            },
            Effect::PromoteSnapshot { run_id } => EffectView::PromoteSnapshot {
                run_id: run_id@,
            },
            Effect::DeleteSnapshot { run_id } => EffectView::DeleteSnapshot {
                run_id: run_id@,
            },
        }
    }
}

/// What several effects ask.
pub open spec fn effect_views(effects: Seq<Effect>) -> Seq<EffectView> {
    effects.map_values(|e: Effect| e@)
}

/// What the effects ask does not change but for the one that is added.
pub proof fn lemma_push_effect(effects: Seq<Effect>, e: Effect)
    ensures
        effect_views(effects.push(e)) == effect_views(effects).push(e@),
{
    assert(effect_views(effects.push(e)) =~= effect_views(effects).push(e@));
}

/// Adds an effect.
pub fn push_effect(effects: &mut Vec<Effect>, e: Effect)
    ensures
        effect_views(final(effects)@) == effect_views(old(effects)@).push(e@),
{
    proof {
        lemma_push_effect(effects@, e);
    }
    effects.push(e);
}

/// No effects.
pub fn no_effects() -> (r: Vec<Effect>)
    ensures
        effect_views(r@) == Seq::<EffectView>::empty(),
{
    let r: Vec<Effect> = Vec::new();
    assert(effect_views(r@) =~= Seq::<EffectView>::empty());
    r
}

} // verus!
