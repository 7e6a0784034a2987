//! The subscriptions, and what is done when they change.
//!
//! What has to be done outside of the library is handed back as a list of effects, in the
//! order in which it is to be done. Where a change must not go on when the store cannot
//! take it, the change comes in two steps: the first says what is to be stored, the second
//! goes on once it is.
use vstd::prelude::*;

use crate::ids::{fresh_id, now_utc};
use crate::numbers;
use crate::numbers::decimal;
use crate::share_sync::config::{ShareSubscription, SubscriptionView};
use crate::share_sync::error;
use crate::share_sync::error::ShareSyncError;
use crate::share_sync::events;
use crate::share_sync::events::{no_effects, push_effect, Effect, EffectView, ShareSyncEvent};
use crate::registry;
use crate::share_sync::subtasks;
use crate::share_sync::subtasks::{
    share_sync_backup_config_id, visible_subtasks, ShareSyncSubtask,
};
use crate::share_sync::wait;
use crate::text;
use crate::text::concat3;

verus! {

/// Where the subscriptions are kept.
#[derive(Debug)]
pub struct ManagerConfig {
    /// A file of subscriptions that an older version may have left.
    pub config_path: String,
    pub db_path: String,
}

/// What was cleared of the past runs of a subscription.
#[derive(Debug, Clone, Copy, PartialEq, Eq, Structural)]
pub struct ClearRunsAndOrphansResult {
    pub db_deleted: usize,
    pub transfer_mem: usize,
    pub transfer_hist: usize,
    pub folder_count: usize,
    pub days: u32,
}

/// All subscriptions, which of them are polled, and which are being synchronised.
pub struct ShareSyncManager {
    subscriptions: dashmap::DashMap<String, ShareSubscription>,
    schedulers: dashmap::DashMap<String, u64>,
    running: dashmap::DashMap<String, u64>,
}

/// What a `ShareSyncManager` holds.
#[verifier::ext_equal]
pub struct ManagerState {
    pub subs: Map<Seq<char>, SubscriptionView>,
    /// The subscriptions that are polled, with the seconds between two polls.
    pub schedulers: Map<Seq<char>, u64>,
    /// The subscriptions that are being synchronised.
    pub running: Set<Seq<char>>,
}

impl View for ShareSyncManager {
    type V = ManagerState;

    closed spec fn view(&self) -> ManagerState {
        ManagerState {
            subs: registry::subscriptions_in(self.subscriptions),
            schedulers: registry::marks_in(self.schedulers),
            running: registry::marks_in(self.running).dom(),
        }
    }
}

/// A manager without subscriptions.
pub open spec fn no_subscriptions() -> ManagerState {
    ManagerState { subs: Map::empty(), schedulers: Map::empty(), running: Set::empty() }
}

/// Each subscription is kept under its own id, and only what is there is polled.
pub open spec fn sound(st: ManagerState) -> bool {
    &&& forall|id: Seq<char>| #[trigger] st.subs.contains_key(id) ==> st.subs[id].id == id
    &&& forall|id: Seq<char>| #[trigger] st.schedulers.contains_key(id) ==> st.subs.contains_key(id)
}

/// The subscriptions of an account.
pub open spec fn owned_by(subs: Seq<SubscriptionView>, owner_uid: u64) -> Seq<SubscriptionView> {
    subs.filter(|s: SubscriptionView| s.owner_uid == owner_uid)
}

// ---------------------------------------------------------------------------
// Polling
// ---------------------------------------------------------------------------
/// Begins to poll a subscription, unless it has no interval or is polled already.
pub open spec fn started(st: ManagerState, sub: SubscriptionView) -> (
    ManagerState,
    Seq<EffectView>,
) {
    if sub.poll_config.interval_secs == 0 || st.schedulers.contains_key(sub.id) {
        (st, Seq::empty())
    } else {
        (
            ManagerState {
                schedulers: st.schedulers.insert(sub.id, sub.poll_config.interval_secs),
                ..st
            },
            seq![
                EffectView::StartScheduler {
                    subscription_id: sub.id,
                    interval_secs: sub.poll_config.interval_secs,
                },
            ],
        )
    }
}

/// Whether a subscription is to be polled.
pub open spec fn wants_polling(sub: SubscriptionView) -> bool {
    sub.enabled && sub.poll_config.enabled
}

/// Begins to poll a subscription where it is to be polled.
pub open spec fn polled(st: ManagerState, sub: SubscriptionView) -> (
    ManagerState,
    Seq<EffectView>,
) {
    if wants_polling(sub) {
        started(st, sub)
    } else {
        (st, Seq::empty())
    }
}

/// Stops to poll a subscription.
pub open spec fn stopped(st: ManagerState, id: Seq<char>) -> (ManagerState, Seq<EffectView>) {
    if st.schedulers.contains_key(id) {
        (
            ManagerState { schedulers: st.schedulers.remove(id), ..st },
            seq![EffectView::StopScheduler { subscription_id: id }],
        )
    } else {
        (st, Seq::empty())
    }
}

// ---------------------------------------------------------------------------
// Loading
// ---------------------------------------------------------------------------
/// A subscription that belongs to no account yet goes to the active one.
pub open spec fn migrated(sub: SubscriptionView, active: Option<u64>) -> SubscriptionView {
    match active {
        Some(uid) => if sub.owner_uid == 0 {
            SubscriptionView { owner_uid: uid, ..sub }
        } else {
            sub
        },
        None => sub,
    }
}

/// The subscriptions that change hands are stored.
pub open spec fn migration_effects(subs: Seq<SubscriptionView>, active: Option<u64>) -> Seq<
    EffectView,
>
    decreases subs.len(),
{
    if subs.len() == 0 {
        Seq::empty()
    } else {
        let front = migration_effects(subs.drop_last(), active);
        let sub = subs.last();
        if active is Some && sub.owner_uid == 0 {
            front.push(EffectView::SaveSubscription { subscription: migrated(sub, active) })
        } else {
            front
        }
    }
}

/// The subscriptions after some changed hands.
pub open spec fn all_migrated(subs: Seq<SubscriptionView>, active: Option<u64>) -> Seq<
    SubscriptionView,
> {
    subs.map_values(|s: SubscriptionView| migrated(s, active))
}

/// A manager that has taken up the subscriptions, one after another, and what it asks.
pub open spec fn loaded(subs: Seq<SubscriptionView>) -> (ManagerState, Seq<EffectView>)
    decreases subs.len(),
{
    if subs.len() == 0 {
        (no_subscriptions(), Seq::empty())
    } else {
        let (st, effects) = loaded(subs.drop_last());
        let sub = subs.last();
        let (next, more) = polled(
            ManagerState { subs: st.subs.insert(sub.id, sub), ..st },
            sub,
        );
        (next, effects + more)
    }
}

// ---------------------------------------------------------------------------
// Changes
// ---------------------------------------------------------------------------
/// A new subscription: it is polled where it is to be, announced, and synchronised at once
/// where it is enabled.
pub open spec fn created(st: ManagerState, sub: SubscriptionView) -> (
    ManagerState,
    Seq<EffectView>,
) {
    let (next, polls) = polled(ManagerState { subs: st.subs.insert(sub.id, sub), ..st }, sub);
    let told = polls.push(
        EffectView::Publish {
            event: events::EventView::SubscriptionCreated {
                subscription_id: sub.id,
                name: sub.name,
                owner_uid: sub.owner_uid,
            },
        },
    );
    if sub.enabled {
        (next, told.push(EffectView::Trigger { subscription_id: sub.id }))
    } else {
        (next, told)
    }
}

/// A changed subscription: its polling begins anew, and it is announced.
pub open spec fn updated(st: ManagerState, id: Seq<char>, sub: SubscriptionView) -> (
    ManagerState,
    Seq<EffectView>,
) {
    let (still, stops) = stopped(ManagerState { subs: st.subs.insert(id, sub), ..st }, id);
    let (next, polls) = polled(still, sub);
    (
        next,
        (stops + polls).push(
            EffectView::Publish {
                event: events::EventView::SubscriptionUpdated {
                    subscription_id: id,
                    owner_uid: sub.owner_uid,
                },
            },
        ),
    )
}

/// The announcement that a subscription was enabled or disabled, or its link found dead.
pub open spec fn status_changed(id: Seq<char>, sub: SubscriptionView) -> EffectView {
    EffectView::Publish {
        event: events::EventView::StatusChanged {
            subscription_id: id,
            enabled: sub.enabled,
            owner_uid: sub.owner_uid,
        },
    }
}

/// A subscription that was enabled or disabled is polled or not.
pub open spec fn switched(st: ManagerState, id: Seq<char>, sub: SubscriptionView) -> (
    ManagerState,
    Seq<EffectView>,
) {
    let (next, effects) = if wants_polling(sub) {
        started(st, sub)
    } else {
        stopped(st, id)
    };
    (next, effects.push(status_changed(id, sub)))
}

/// A subscription whose link was found dead once more.
pub open spec fn link_failed(sub: SubscriptionView, reason: Seq<char>, threshold: u32) -> SubscriptionView {
    let count: u32 = if sub.consecutive_link_failures == u32::MAX {
        u32::MAX
    } else {
        (sub.consecutive_link_failures + 1) as u32
    };
    if count >= threshold {
        SubscriptionView {
            consecutive_link_failures: count,
            link_invalid: true,
            link_invalid_reason: Some(reason),
            ..sub
        }
    } else {
        SubscriptionView { consecutive_link_failures: count, ..sub }
    }
}

/// Notes that the link of a subscription was found dead; so many times in a row, and it
/// is not polled any more.
pub open spec fn failure_noted(
    st: ManagerState,
    id: Seq<char>,
    reason: Seq<char>,
    threshold: u32,
) -> (ManagerState, Seq<EffectView>) {
    if !st.subs.contains_key(id) || st.subs[id].link_invalid {
        (st, Seq::empty())
    } else {
        let sub = link_failed(st.subs[id], reason, threshold);
        let saved = seq![EffectView::SaveSubscription { subscription: sub }];
        (
            ManagerState { subs: st.subs.insert(id, sub), ..st },
            if sub.link_invalid {
                saved.push(status_changed(id, sub))
            } else {
                saved
            },
        )
    }
}

/// A subscription whose link is alive.
pub open spec fn link_alive(sub: SubscriptionView) -> SubscriptionView {
    SubscriptionView {
        consecutive_link_failures: 0,
        link_invalid: false,
        link_invalid_reason: None,
        ..sub
    }
}

/// Notes that the link of a subscription is alive; nothing is stored where that is known.
pub open spec fn failure_cleared(st: ManagerState, id: Seq<char>) -> (
    ManagerState,
    Seq<EffectView>,
) {
    if !st.subs.contains_key(id) || (st.subs[id].consecutive_link_failures == 0
        && !st.subs[id].link_invalid) {
        (st, Seq::empty())
    } else {
        let sub = link_alive(st.subs[id]);
        (
            ManagerState { subs: st.subs.insert(id, sub), ..st },
            seq![EffectView::SaveSubscription { subscription: sub }],
        )
    }
}

/// A subscription whose link the user has mended: polled again, announced, synchronised.
pub open spec fn link_resumed(st: ManagerState, id: Seq<char>, sub: SubscriptionView) -> (
    ManagerState,
    Seq<EffectView>,
) {
    let (next, polls) = polled(st, sub);
    (
        next,
        polls.push(status_changed(id, sub)).push(EffectView::Trigger { subscription_id: id }),
    )
}

/// A subscription that is deleted: not polled any more, gone from the store with its
/// tasks, and announced.
pub open spec fn deleted(st: ManagerState, id: Seq<char>) -> (ManagerState, Seq<EffectView>) {
    let owner_uid = st.subs[id].owner_uid;
    let (next, stops) = stopped(ManagerState { subs: st.subs.remove(id), ..st }, id);
    (
        next,
        stops + seq![
            EffectView::DeleteSubscription { subscription_id: id },
            EffectView::DeleteTasks {
                backup_config_id: subtasks::backup_config_of(id),
                owner_uid,
            },
            EffectView::Publish {
                event: events::EventView::SubscriptionDeleted { subscription_id: id, owner_uid },
            },
        ],
    )
}

/// How often in a row a link is found dead before it is not polled any more.
pub open spec fn threshold_of(setting: Option<&str>) -> nat {
    match wait::number_setting(setting, u32::MAX as nat) {
        Some(n) => if n == 0 {
            1
        } else {
            n
        },
        None => 2,
    }
}

/// How often in a row a link is found dead before it is not polled any more.
pub fn link_fail_threshold(setting: Option<&str>) -> (r: u32)
    ensures
        r == threshold_of(setting),
{
    match wait::env_u32(setting) {
        Some(n) => if n == 0 {
            1
        } else {
            n
        },
        None => 2,
    }
}

/// Why a subscription whose link is dead is not synchronised.
pub open spec fn dead_link_text(sub: SubscriptionView) -> Seq<char> {
    match sub.link_invalid_reason {
        Some(r) => r,
        None => "分享链接已失效，已暂停轮询；请更新链接后恢复"@,
    }
}

/// What is said when nobody is logged in to the account.
pub open spec fn not_logged_in_text(owner_uid: u64) -> Seq<char> {
    "订阅所属账号(uid="@ + numbers::decimal_of(owner_uid as nat)
        + ")未登录，请先登录该账号后再同步"@
}

/// What is said when the account's transfer manager is not there.
pub open spec fn no_transfer_text(owner_uid: u64) -> Seq<char> {
    "订阅所属账号(uid="@ + numbers::decimal_of(owner_uid as nat) + ")的转存管理器未就绪"@
}

/// Why a subscription cannot be synchronised by hand, if it cannot.
pub open spec fn trigger_refusal(
    st: ManagerState,
    id: Seq<char>,
    has_netdisk: bool,
    has_transfer: bool,
) -> Option<error::ErrorView> {
    if !st.subs.contains_key(id) {
        Some(error::ErrorView::SubscriptionNotFound(id))
    } else {
        let sub = st.subs[id];
        if sub.owner_uid == 0 {
            Some(
                error::ErrorView::ConfigError(
                    "订阅所属账号未设置（owner_uid=0），请等待启动迁移完成或在前端编辑订阅"@,
                ),
            )
        } else if sub.link_invalid {
            Some(error::ErrorView::ShareLinkError(dead_link_text(sub)))
        } else if st.running.contains(id) {
            Some(
                error::ErrorView::AlreadyRunning(
                    "订阅 "@ + id + " 正在同步中，请等待当前运行结束"@,
                ),
            )
        } else if !has_netdisk {
            Some(error::ErrorView::ConfigError(not_logged_in_text(sub.owner_uid)))
        } else if !has_transfer {
            Some(error::ErrorView::ConfigError(no_transfer_text(sub.owner_uid)))
        } else {
            None
        }
    }
}

pub(crate) fn not_logged_in(owner_uid: u64) -> (r: String)
    ensures
        r@ == not_logged_in_text(owner_uid),
{
    let uid = decimal(owner_uid);
    concat3(
        "订阅所属账号(uid=",
        uid.as_str(),
        ")未登录，请先登录该账号后再同步",
    )
}

pub(crate) fn no_transfer(owner_uid: u64) -> (r: String)
    ensures
        r@ == no_transfer_text(owner_uid),
{
    let uid = decimal(owner_uid);
    concat3("订阅所属账号(uid=", uid.as_str(), ")的转存管理器未就绪")
}

pub(crate) fn dead_link_reason(sub: &ShareSubscription) -> (r: String)
    ensures
        r@ == dead_link_text(sub@),
{
    match &sub.link_invalid_reason {
        Some(r) => r.clone(),
        None => "分享链接已失效，已暂停轮询；请更新链接后恢复".to_owned(),
    }
}

fn status_event(id: &str, sub: &ShareSubscription) -> (r: Effect)
    ensures
        r@ == status_changed(id@, sub@),
{
    Effect::Publish {
        event: ShareSyncEvent::StatusChanged {
            subscription_id: id.to_owned(),
            enabled: sub.enabled,
            owner_uid: sub.owner_uid,
        },
    }
}

/// A run that is to begin.
#[derive(Debug)]
pub struct NewRun {
    pub run_id: String,
    pub subscription_id: String,
    pub owner_uid: u64,
    /// Seconds since the Unix epoch.
    pub started_at: i64,
}

impl NewRun {
    /// The announcement of the run.
    pub fn announcement(&self) -> (r: ShareSyncEvent)
        ensures
            r@ == (events::EventView::RunStarted {
                run_id: self.run_id@,
                subscription_id: self.subscription_id@,
                owner_uid: self.owner_uid,
            }),
    {
        ShareSyncEvent::RunStarted {
            run_id: self.run_id.clone(),
            subscription_id: self.subscription_id.clone(),
            owner_uid: self.owner_uid,
        }
    }
}

/// A run with a fresh id that begins now. Nothing is claimed of the id but its length, nor
/// of the time.
pub(crate) fn fresh_run(subscription_id: &str, owner_uid: u64) -> (r: NewRun)
    ensures
        r.run_id@.len() == 36,
        r.subscription_id@ == subscription_id@,
        r.owner_uid == owner_uid,
{
    NewRun {
        run_id: fresh_id(),
        subscription_id: subscription_id.to_owned(),
        owner_uid,
        started_at: now_utc().secs,
    }
}

impl ShareSyncManager {
    /// A manager without subscriptions.
    fn empty() -> (r: ShareSyncManager)
        ensures
            r@ == no_subscriptions(),
    {
        let r = ShareSyncManager {
            subscriptions: registry::new_subscriptions(),
            schedulers: registry::new_marks(),
            running: registry::new_marks(),
        };
        proof {
            assert(r@.subs =~= Map::<Seq<char>, SubscriptionView>::empty());
            assert(r@.schedulers =~= Map::<Seq<char>, u64>::empty());
            assert(r@.running =~= Set::<Seq<char>>::empty());
        }
        r
    }

    fn start_scheduler_for(&mut self, sub: &ShareSubscription, effects: &mut Vec<Effect>)
        ensures
            final(self)@ == started(old(self)@, sub@).0,
            events::effect_views(final(effects)@) == events::effect_views(old(effects)@) + started(
                old(self)@,
                sub@,
            ).1,
    {
        let interval: u64 = sub.poll_config.interval_secs;
        proof {
            let e = events::effect_views(effects@);
            assert(e + Seq::<EffectView>::empty() =~= e);
        }
        if interval == 0 || registry::has_mark(&self.schedulers, sub.id.as_str()) {
            return ;
        }
        registry::put_mark(&mut self.schedulers, sub.id.clone(), interval);
        let ghost before = events::effect_views(effects@);
        push_effect(
            effects,
            Effect::StartScheduler { subscription_id: sub.id.clone(), interval_secs: interval },
        );
        assert(events::effect_views(effects@) =~= before + started(old(self)@, sub@).1);
    }

    fn stop_scheduler_for(&mut self, id: &str, effects: &mut Vec<Effect>)
        ensures
            final(self)@ == stopped(old(self)@, id@).0,
            events::effect_views(final(effects)@) == events::effect_views(old(effects)@) + stopped(
                old(self)@,
                id@,
            ).1,
    {
        let ghost before = events::effect_views(effects@);
        assert(before + Seq::<EffectView>::empty() =~= before);
        let was = registry::take_mark(&mut self.schedulers, id);
        if was.is_some() {
            push_effect(effects, Effect::StopScheduler { subscription_id: id.to_owned() });
            assert(events::effect_views(effects@) =~= before + stopped(old(self)@, id@).1);
        } else {
            assert(self@.schedulers =~= old(self)@.schedulers);
        }
    }

    fn poll(&mut self, sub: &ShareSubscription, effects: &mut Vec<Effect>)
        ensures
            final(self)@ == polled(old(self)@, sub@).0,
            events::effect_views(final(effects)@) == events::effect_views(old(effects)@) + polled(
                old(self)@,
                sub@,
            ).1,
    {
        if sub.enabled && sub.poll_config.enabled {
            self.start_scheduler_for(sub, effects);
        } else {
            proof {
                let e = events::effect_views(effects@);
                assert(e + Seq::<EffectView>::empty() =~= e);
            }
        }
    }

    /// A manager that takes up the stored subscriptions. Those of no account go to the
    /// active one.
    pub fn new(subs: Vec<ShareSubscription>, active_uid: Option<u64>) -> (r: (
        ShareSyncManager,
        Vec<Effect>,
    ))
        ensures
            r.0@ == loaded(
                all_migrated(registry::subscription_views(subs@), active_uid),
            ).0,
            events::effect_views(r.1@) == migration_effects(
                registry::subscription_views(subs@),
                active_uid,
            ) + loaded(all_migrated(registry::subscription_views(subs@), active_uid)).1,
    {
        let ghost given = registry::subscription_views(subs@);
        let ghost all = all_migrated(given, active_uid);
        let mut effects = no_effects();
        let mut ready: Vec<ShareSubscription> = Vec::new();
        let mut i: usize = 0;
        assert(registry::subscription_views(ready@) =~= all.take(0));
        while i < subs.len()
            invariant
                i <= subs@.len(),
                given == registry::subscription_views(subs@),
                all == all_migrated(given, active_uid),
                registry::subscription_views(ready@) == all.take(i as int),
                events::effect_views(effects@) == migration_effects(
                    given.take(i as int),
                    active_uid,
                ),
            decreases subs@.len() - i,
        {
            let mut sub = subs[i].clone();
            let ghost before = registry::subscription_views(ready@);
            proof {
                assert(given[i as int] == sub@);
                assert(given.take(i + 1).drop_last() =~= given.take(i as int));
                assert(given.take(i + 1).last() == sub@);
                assert(all[i as int] == migrated(sub@, active_uid));
            }
            match active_uid {
                Some(uid) => {
                    if sub.owner_uid == 0 {
                        sub.owner_uid = uid;
                        push_effect(
                            &mut effects,
                            Effect::SaveSubscription { subscription: sub.clone() },
                        );
                    }
                },
                None => {},
            }
            let ghost gsub = sub@;
            ready.push(sub);
            i += 1;
            proof {
                assert(registry::subscription_views(ready@) =~= before.push(gsub));
                assert(all.take(i as int) =~= before.push(gsub));
            }
        }
        proof {
            assert(given.take(i as int) =~= given);
            assert(all.take(i as int) =~= all);
        }
        let ghost moved = events::effect_views(effects@);
        let mut manager = ShareSyncManager::empty();
        let mut k: usize = 0;
        assert(moved + loaded(all.take(0)).1 =~= moved);
        while k < ready.len()
            invariant
                k <= ready@.len(),
                registry::subscription_views(ready@) == all,
                manager@ == loaded(all.take(k as int)).0,
                events::effect_views(effects@) == moved + loaded(all.take(k as int)).1,
            decreases ready@.len() - k,
        {
            let sub = &ready[k];
            let ghost st = manager@;
            let ghost so_far = loaded(all.take(k as int)).1;
            proof {
                assert(all[k as int] == sub@);
                assert(all.take(k + 1).drop_last() =~= all.take(k as int));
                assert(all.take(k + 1).last() == sub@);
            }
            registry::put_subscription(
                &mut manager.subscriptions,
                sub.id.clone(),
                sub.clone(),
            );
            assert(manager@ == (ManagerState { subs: st.subs.insert(sub@.id, sub@), ..st }));
            let ghost more = polled(manager@, sub@).1;
            manager.poll(sub, &mut effects);
            assert(moved + so_far + more =~= moved + (so_far + more));
            k += 1;
        }
        assert(all.take(k as int) =~= all);
        (manager, effects)
    }

    /// All subscriptions, in no particular order.
    pub fn list_subscriptions(&self) -> (r: Vec<ShareSubscription>)
        ensures
            registry::lists_all(registry::subscription_views(r@), self@.subs),
    {
        registry::all_subscriptions(&self.subscriptions)
    }

    /// The subscriptions of an account, in no particular order.
    pub fn list_for_owner(&self, owner_uid: u64) -> (r: Vec<ShareSubscription>)
        ensures
            exists|all: Seq<SubscriptionView>| #[trigger]
                registry::lists_all(all, self@.subs) && registry::subscription_views(r@)
                    == owned_by(all, owner_uid),
    {
        let everything = registry::all_subscriptions(&self.subscriptions);
        let ghost all = registry::subscription_views(everything@);
        let mut r: Vec<ShareSubscription> = Vec::new();
        let mut i: usize = 0;
        proof {
            reveal(Seq::filter);
            assert(registry::subscription_views(r@) =~= owned_by(all.take(0), owner_uid));
        }
        while i < everything.len()
            invariant
                i <= everything@.len(),
                all == registry::subscription_views(everything@),
                registry::subscription_views(r@) == owned_by(all.take(i as int), owner_uid),
            decreases everything@.len() - i,
        {
            let ghost before = registry::subscription_views(r@);
            proof {
                reveal(Seq::filter);
                assert(all.take(i + 1).drop_last() =~= all.take(i as int));
                assert(all.take(i + 1).last() == everything@[i as int]@);
            }
            if everything[i].owner_uid == owner_uid {
                let one = everything[i].clone();
                let ghost gone = one@;
                r.push(one);
                assert(registry::subscription_views(r@) =~= before.push(gone));
            }
            i += 1;
        }
        assert(all.take(i as int) =~= all);
        assert(registry::lists_all(all, self@.subs));
        r
    }

    /// The subscription with the id.
    pub fn get_subscription(&self, id: &str) -> (r: Option<ShareSubscription>)
        ensures
            match r {
                Some(s) => self@.subs.contains_key(id@) && s@ == self@.subs[id@],
                None => !self@.subs.contains_key(id@),
            },
    {
        registry::get_subscription(&self.subscriptions, id)
    }

    /// The tasks that a subscription has under way, of all its `rows`; none where its
    /// account has no transfer manager.
    pub fn subtasks(&self, id: &str, rows: Option<&Vec<ShareSyncSubtask>>) -> (r: Result<
        Vec<ShareSyncSubtask>,
        ShareSyncError,
    >)
        ensures
            match r {
                Ok(v) => self@.subs.contains_key(id@) && match rows {
                    Some(all) => subtasks::row_views(v@) == subtasks::without_orphans(
                        subtasks::unfinished(subtasks::row_views(all@)),
                    ),
                    None => v@.len() == 0,
                },
                Err(e) => !self@.subs.contains_key(id@) && e@
                    == error::ErrorView::SubscriptionNotFound(id@),
            },
    {
        match self.get_subscription(id) {
            Some(_) => match rows {
                Some(all) => Ok(visible_subtasks(all)),
                None => Ok(Vec::new()),
            },
            None => Err(ShareSyncError::SubscriptionNotFound(id.to_owned())),
        }
    }

    /// Whether a subscription may be added: `valid` says what its own check found. The
    /// caller stores it and goes on with `subscription_created`.
    pub fn create_subscription(&self, sub: &ShareSubscription, valid: Result<(), String>) -> (r:
        Result<(), ShareSyncError>)
        ensures
            match valid {
                Err(msg) => r matches Err(e) && e@ == error::ErrorView::ConfigError(msg@),
                Ok(_) => if self@.subs.contains_key(sub@.id) {
                    r matches Err(e) && e@ == error::ErrorView::SubscriptionExists(sub@.id)
                } else {
                    r is Ok
                },
            },
    {
        match valid {
            Err(msg) => Err(ShareSyncError::ConfigError(msg)),
            Ok(_) => match registry::get_subscription(&self.subscriptions, sub.id.as_str()) {
                Some(_) => Err(ShareSyncError::SubscriptionExists(sub.id.clone())),
                None => Ok(()),
            },
        }
    }

    /// Takes up a subscription that was stored.
    pub fn subscription_created(&mut self, sub: &ShareSubscription) -> (r: Vec<Effect>)
        ensures
            final(self)@ == created(old(self)@, sub@).0,
            events::effect_views(r@) == created(old(self)@, sub@).1,
    {
        let mut effects = no_effects();
        registry::put_subscription(&mut self.subscriptions, sub.id.clone(), sub.clone());
        self.poll(sub, &mut effects);
        assert(events::effect_views(effects@) =~= polled(
            ManagerState { subs: old(self)@.subs.insert(sub@.id, sub@), ..old(self)@ },
            sub@,
        ).1);
        push_effect(
            &mut effects,
            Effect::Publish {
                event: ShareSyncEvent::SubscriptionCreated {
                    subscription_id: sub.id.clone(),
                    name: sub.name.clone(),
                    owner_uid: sub.owner_uid,
                },
            },
        );
        if sub.enabled {
            push_effect(&mut effects, Effect::Trigger { subscription_id: sub.id.clone() });
        }
        effects
    }

    /// What a subscription becomes when it is changed: it keeps its id and the time when
    /// it was made. The caller stores it and goes on with `subscription_updated`.
    pub fn update_subscription(
        &self,
        id: &str,
        new_sub: ShareSubscription,
        valid: Result<(), String>,
        now: i64,
    ) -> (r: Result<ShareSubscription, ShareSyncError>)
        ensures
            match valid {
                Err(msg) => r matches Err(e) && e@ == error::ErrorView::ConfigError(msg@),
                Ok(_) => if self@.subs.contains_key(id@) {
                    r matches Ok(s) && s@ == (SubscriptionView {
                        id: self@.subs[id@].id,
                        created_at: self@.subs[id@].created_at,
                        updated_at: now,
                        ..new_sub@
                    })
                } else {
                    r matches Err(e) && e@ == error::ErrorView::SubscriptionNotFound(id@)
                },
            },
    {
        match valid {
            Err(msg) => Err(ShareSyncError::ConfigError(msg)),
            Ok(_) => match registry::get_subscription(&self.subscriptions, id) {
                Some(existing) => {
                    let mut sub = new_sub;
                    sub.id = existing.id;
                    sub.created_at = existing.created_at;
                    sub.updated_at = now;
                    Ok(sub)
                },
                None => Err(ShareSyncError::SubscriptionNotFound(id.to_owned())),
            },
        }
    }

    /// Takes up a changed subscription that was stored.
    pub fn subscription_updated(&mut self, id: &str, sub: &ShareSubscription) -> (r: Vec<Effect>)
        ensures
            final(self)@ == updated(old(self)@, id@, sub@).0,
            events::effect_views(r@) == updated(old(self)@, id@, sub@).1,
    {
        let mut effects = no_effects();
        registry::put_subscription(&mut self.subscriptions, id.to_owned(), sub.clone());
        let ghost put = self@;
        self.stop_scheduler_for(id, &mut effects);
        let ghost stops = stopped(put, id@).1;
        assert(events::effect_views(effects@) =~= stops);
        self.poll(sub, &mut effects);
        push_effect(
            &mut effects,
            Effect::Publish {
                event: ShareSyncEvent::SubscriptionUpdated {
                    subscription_id: id.to_owned(),
                    owner_uid: sub.owner_uid,
                },
            },
        );
        effects
    }

    /// Enables or disables a subscription. The caller stores what comes back and goes on
    /// with `subscription_switched`.
    pub fn set_enabled(&mut self, id: &str, enabled: bool, now: i64) -> (r: Result<
        ShareSubscription,
        ShareSyncError,
    >)
        ensures
            if old(self)@.subs.contains_key(id@) {
                &&& r matches Ok(s)
                &&& s@ == (SubscriptionView { enabled, updated_at: now, ..old(self)@.subs[id@] })
                &&& final(self)@ == (ManagerState {
                    subs: old(self)@.subs.insert(id@, s@),
                    ..old(self)@
                })
            } else {
                &&& final(self)@ == old(self)@
                &&& r matches Err(e)
                &&& e@ == error::ErrorView::SubscriptionNotFound(id@)
            },
    {
        match registry::get_subscription(&self.subscriptions, id) {
            Some(existing) => {
                let mut sub = existing;
                sub.enabled = enabled;
                sub.updated_at = now;
                registry::put_subscription(&mut self.subscriptions, id.to_owned(), sub.clone());
                Ok(sub)
            },
            None => Err(ShareSyncError::SubscriptionNotFound(id.to_owned())),
        }
    }

    /// Polls a subscription that was enabled, or stops to poll it.
    pub fn subscription_switched(&mut self, id: &str, sub: &ShareSubscription) -> (r: Vec<Effect>)
        ensures
            final(self)@ == switched(old(self)@, id@, sub@).0,
            events::effect_views(r@) == switched(old(self)@, id@, sub@).1,
    {
        let mut effects = no_effects();
        let ghost none = Seq::<EffectView>::empty();
        if sub.enabled && sub.poll_config.enabled {
            self.start_scheduler_for(sub, &mut effects);
            assert(none + started(old(self)@, sub@).1 =~= started(old(self)@, sub@).1);
        } else {
            self.stop_scheduler_for(id, &mut effects);
            assert(none + stopped(old(self)@, id@).1 =~= stopped(old(self)@, id@).1);
        }
        push_effect(&mut effects, status_event(id, sub));
        effects
    }

    /// Notes that the link of a subscription was found dead.
    pub fn note_link_failure(&mut self, id: &str, reason: &str, threshold: u32) -> (r: Vec<Effect>)
        ensures
            final(self)@ == failure_noted(old(self)@, id@, reason@, threshold).0,
            events::effect_views(r@) == failure_noted(old(self)@, id@, reason@, threshold).1,
    {
        let mut effects = no_effects();
        match registry::get_subscription(&self.subscriptions, id) {
            Some(existing) => {
                let mut sub = existing;
                if sub.link_invalid {
                    return effects;
                }
                let count: u32 = if sub.consecutive_link_failures == u32::MAX {
                    u32::MAX
                } else {
                    sub.consecutive_link_failures + 1
                };
                sub.consecutive_link_failures = count;
                if count >= threshold {
                    sub.link_invalid = true;
                    sub.link_invalid_reason = Some(reason.to_owned());
                }
                registry::put_subscription(&mut self.subscriptions, id.to_owned(), sub.clone());
                let ghost none = events::effect_views(effects@);
                push_effect(&mut effects, Effect::SaveSubscription { subscription: sub.clone() });
                assert(events::effect_views(effects@) =~= seq![
                    EffectView::SaveSubscription { subscription: sub@ },
                ]);
                if sub.link_invalid {
                    push_effect(&mut effects, status_event(id, &sub));
                }
                effects
            },
            None => effects,
        }
    }

    /// Notes a failure of a run: it counts only where the link was found dead.
    pub fn maybe_note_link_failure(
        &mut self,
        id: &str,
        is_link_invalid: bool,
        reason: &str,
        threshold: u32,
    ) -> (r: Vec<Effect>)
        ensures
            if is_link_invalid {
                &&& final(self)@ == failure_noted(old(self)@, id@, reason@, threshold).0
                &&& events::effect_views(r@) == failure_noted(
                    old(self)@,
                    id@,
                    reason@,
                    threshold,
                ).1
            } else {
                final(self)@ == old(self)@ && r@.len() == 0
            },
    {
        if is_link_invalid {
            self.note_link_failure(id, reason, threshold)
        } else {
            Vec::new()
        }
    }

    /// Notes that the link of a subscription is alive.
    pub fn clear_link_failure(&mut self, id: &str) -> (r: Vec<Effect>)
        ensures
            final(self)@ == failure_cleared(old(self)@, id@).0,
            events::effect_views(r@) == failure_cleared(old(self)@, id@).1,
    {
        let mut effects = no_effects();
        match registry::get_subscription(&self.subscriptions, id) {
            Some(existing) => {
                let mut sub = existing;
                if sub.consecutive_link_failures == 0 && !sub.link_invalid {
                    return effects;
                }
                sub.consecutive_link_failures = 0;
                sub.link_invalid = false;
                sub.link_invalid_reason = None;
                registry::put_subscription(&mut self.subscriptions, id.to_owned(), sub.clone());
                push_effect(&mut effects, Effect::SaveSubscription { subscription: sub.clone() });
                assert(events::effect_views(effects@) =~= seq![
                    EffectView::SaveSubscription { subscription: sub@ },
                ]);
                effects
            },
            None => effects,
        }
    }

    /// Takes a subscription up again whose link the user has mended. The caller stores
    /// what comes back and goes on with `link_invalid_resumed`.
    pub fn resume_link_invalid(&mut self, id: &str, now: i64) -> (r: Result<
        ShareSubscription,
        ShareSyncError,
    >)
        ensures
            if old(self)@.subs.contains_key(id@) {
                &&& r matches Ok(s)
                &&& s@ == (SubscriptionView {
                    updated_at: now,
                    ..link_alive(old(self)@.subs[id@])
                })
                &&& final(self)@ == (ManagerState {
                    subs: old(self)@.subs.insert(id@, s@),
                    ..old(self)@
                })
            } else {
                &&& final(self)@ == old(self)@
                &&& r matches Err(e)
                &&& e@ == error::ErrorView::SubscriptionNotFound(id@)
            },
    {
        match registry::get_subscription(&self.subscriptions, id) {
            Some(existing) => {
                let mut sub = existing;
                sub.link_invalid = false;
                sub.link_invalid_reason = None;
                sub.consecutive_link_failures = 0;
                sub.updated_at = now;
                registry::put_subscription(&mut self.subscriptions, id.to_owned(), sub.clone());
                Ok(sub)
            },
            None => Err(ShareSyncError::SubscriptionNotFound(id.to_owned())),
        }
    }

    /// Polls and synchronises a subscription whose link was mended and that was stored.
    pub fn link_invalid_resumed(&mut self, id: &str, sub: &ShareSubscription) -> (r: Vec<Effect>)
        ensures
            final(self)@ == link_resumed(old(self)@, id@, sub@).0,
            events::effect_views(r@) == link_resumed(old(self)@, id@, sub@).1,
    {
        let mut effects = no_effects();
        self.poll(sub, &mut effects);
        assert(events::effect_views(effects@) =~= polled(old(self)@, sub@).1);
        push_effect(&mut effects, status_event(id, sub));
        push_effect(&mut effects, Effect::Trigger { subscription_id: id.to_owned() });
        effects
    }

    /// Deletes a subscription.
    pub fn delete_subscription(&mut self, id: &str) -> (r: Result<Vec<Effect>, ShareSyncError>)
        ensures
            if old(self)@.subs.contains_key(id@) {
                &&& r matches Ok(effects)
                &&& final(self)@ == deleted(old(self)@, id@).0
                &&& events::effect_views(effects@) == deleted(old(self)@, id@).1
            } else {
                &&& final(self)@ == old(self)@
                &&& r matches Err(e)
                &&& e@ == error::ErrorView::SubscriptionNotFound(id@)
            },
    {
        match registry::take_subscription(&mut self.subscriptions, id) {
            Some(removed) => {
                let mut effects = no_effects();
                let ghost gone = self@;
                self.stop_scheduler_for(id, &mut effects);
                let ghost stops = stopped(gone, id@).1;
                assert(events::effect_views(effects@) =~= stops);
                push_effect(
                    &mut effects,
                    Effect::DeleteSubscription { subscription_id: id.to_owned() },
                );
                push_effect(
                    &mut effects,
                    Effect::DeleteTasks {
                        backup_config_id: share_sync_backup_config_id(id),
                        owner_uid: removed.owner_uid,
                    },
                );
                push_effect(
                    &mut effects,
                    Effect::Publish {
                        event: ShareSyncEvent::SubscriptionDeleted {
                            subscription_id: id.to_owned(),
                            owner_uid: removed.owner_uid,
                        },
                    },
                );
                assert(events::effect_views(effects@) =~= deleted(old(self)@, id@).1);
                Ok(effects)
            },
            None => {
                assert(self@.subs =~= old(self)@.subs);
                Err(ShareSyncError::SubscriptionNotFound(id.to_owned()))
            },
        }
    }

    /// Which past runs of a subscription to clear: those that began before the time that
    /// comes back, `days` days before `now`.
    pub fn clear_runs_and_orphans(&self, subscription_id: &str, days: u32, now: i64) -> (r: Result<
        i64,
        ShareSyncError,
    >)
        requires
            now - days * 86_400 >= i64::MIN,
        ensures
            match r {
                Ok(cutoff) => self@.subs.contains_key(subscription_id@) && cutoff == now - days
                    * 86_400,
                Err(e) => !self@.subs.contains_key(subscription_id@) && e@
                    == error::ErrorView::SubscriptionNotFound(subscription_id@),
            },
    {
        match self.get_subscription(subscription_id) {
            Some(_) => Ok(now - (days as i64) * 86_400),
            None => Err(ShareSyncError::SubscriptionNotFound(subscription_id.to_owned())),
        }
    }

    /// Whether a subscription can be synchronised by hand now, and the run that is then to
    /// begin: the caller clears what earlier runs of the subscription left behind, and
    /// stores the run before it announces it. `has_netdisk` and `has_transfer` say what its
    /// account has.
    pub fn trigger_one(&self, id: &str, has_netdisk: bool, has_transfer: bool) -> (r: Result<
        NewRun,
        ShareSyncError,
    >)
        ensures
            match r {
                Ok(run) => trigger_refusal(self@, id@, has_netdisk, has_transfer) is None
                    && run.run_id@.len() == 36 && run.subscription_id@ == id@ && run.owner_uid
                    == self@.subs[id@].owner_uid,
                Err(e) => trigger_refusal(self@, id@, has_netdisk, has_transfer) == Some(e@),
            },
    {
        let sub = match self.get_subscription(id) {
            Some(s) => s,
            None => {
                return Err(ShareSyncError::SubscriptionNotFound(id.to_owned()));
            },
        };
        if sub.owner_uid == 0 {
            return Err(
                ShareSyncError::ConfigError(
                    "订阅所属账号未设置（owner_uid=0），请等待启动迁移完成或在前端编辑订阅".to_owned(),
                ),
            );
        }
        if sub.link_invalid {
            return Err(ShareSyncError::ShareLinkError(dead_link_reason(&sub)));
        }
        if registry::has_mark(&self.running, id) {
            return Err(
                ShareSyncError::AlreadyRunning(
                    concat3("订阅 ", id, " 正在同步中，请等待当前运行结束"),
                ),
            );
        }
        if !has_netdisk {
            return Err(ShareSyncError::ConfigError(not_logged_in(sub.owner_uid)));
        }
        if !has_transfer {
            return Err(ShareSyncError::ConfigError(no_transfer(sub.owner_uid)));
        }
        Ok(fresh_run(id, sub.owner_uid))
    }

    /// Whether a subscription is being synchronised.
    pub fn is_running(&self, id: &str) -> (r: bool)
        ensures
            r == self@.running.contains(id@),
    {
        registry::has_mark(&self.running, id)
    }

    /// Notes that a subscription is being synchronised; fails where it already is.
    pub fn enter_run(&mut self, id: &str) -> (r: bool)
        ensures
            r == !old(self)@.running.contains(id@),
            final(self)@ == (ManagerState {
                running: old(self)@.running.insert(id@),
                ..old(self)@
            }),
    {
        let was = registry::put_mark(&mut self.running, id.to_owned(), 1);
        assert(self@.running =~= old(self)@.running.insert(id@));
        was.is_none()
    }

    /// Notes that a subscription is not being synchronised any more.
    pub fn leave_run(&mut self, id: &str)
        ensures
            final(self)@ == (ManagerState {
                running: old(self)@.running.remove(id@),
                ..old(self)@
            }),
    {
        registry::take_mark(&mut self.running, id);
        assert(self@.running =~= old(self)@.running.remove(id@));
    }

    /// Stops to poll, in no particular order.
    pub fn shutdown(&mut self) -> (r: Vec<Effect>)
        ensures
            final(self)@ == (ManagerState { schedulers: Map::empty(), ..old(self)@ }),
            exists|ids: Seq<Seq<char>>| #[trigger]
                registry::is_walk(ids, old(self)@.schedulers) && events::effect_views(r@)
                    == ids.map_values(
                    |id: Seq<char>| EffectView::StopScheduler { subscription_id: id },
                ),
    {
        let ids = registry::marked_ids(&self.schedulers);
        let ghost names = text::texts(ids@);
        let ghost all = names.map_values(
            |id: Seq<char>| EffectView::StopScheduler { subscription_id: id },
        );
        let ghost start = self@;
        let mut effects = no_effects();
        let mut i: usize = 0;
        proof {
            assert(all.take(0) =~= Seq::<EffectView>::empty());
            assert(names.skip(0) =~= names);
            assert forall|id: Seq<char>|
                #![trigger self@.schedulers.contains_key(id)]
                self@.schedulers.contains_key(id) <==> names.skip(0).contains(id) by {
                assert(names.contains(id) <==> start.schedulers.contains_key(id));
            }
        }
        while i < ids.len()
            invariant
                i <= ids@.len(),
                names == text::texts(ids@),
                registry::is_walk(names, start.schedulers),
                all == names.map_values(
                    |id: Seq<char>| EffectView::StopScheduler { subscription_id: id },
                ),
                events::effect_views(effects@) == all.take(i as int),
                self@.subs == start.subs,
                self@.running == start.running,
                forall|id: Seq<char>|
                    #![trigger self@.schedulers.contains_key(id)]
                    self@.schedulers.contains_key(id) <==> names.skip(i as int).contains(id),
            decreases ids@.len() - i,
        {
            let ghost before = events::effect_views(effects@);
            let ghost was = self@;
            let ghost rest = names.skip(i as int);
            proof {
                assert(names[i as int] == ids@[i as int]@);
                assert(rest[0] == names[i as int]);
                assert(rest.contains(names[i as int]));
                assert(was.schedulers.contains_key(names[i as int]));
            }
            self.stop_scheduler_for(ids[i].as_str(), &mut effects);
            i += 1;
            proof {
                assert(all[i - 1] == (EffectView::StopScheduler { subscription_id: names[i - 1] }));
                assert(events::effect_views(effects@) =~= all.take(i as int));
                let left = names.skip(i as int);
                assert forall|id: Seq<char>|
                    #![trigger self@.schedulers.contains_key(id)]
                    self@.schedulers.contains_key(id) <==> left.contains(id) by {
                    if self@.schedulers.contains_key(id) {
                        assert(was.schedulers.contains_key(id));
                        let k = choose|k: int| 0 <= k < rest.len() && rest[k] == id;
                        assert(k > 0);
                        assert(left[k - 1] == id);
                    }
                    if left.contains(id) {
                        let k = choose|k: int| 0 <= k < left.len() && left[k] == id;
                        assert(rest[k + 1] == id);
                        assert(names[i + k] == id && names[i - 1] != id);
                        assert(rest.contains(id));
                        assert(was.schedulers.contains_key(id));
                    }
                }
            }
        }
        proof {
            assert(all.take(i as int) =~= all);
            assert(names.skip(i as int) =~= Seq::<Seq<char>>::empty());
            assert(self@.schedulers =~= Map::<Seq<char>, u64>::empty()) by {
                assert forall|id: Seq<char>| !(#[trigger] self@.schedulers.contains_key(id)) by {}
            }
        }
        effects
    }
}

/// What was cleared: without a transfer manager no tasks, without a folder manager no
/// folders.
pub fn cleared_runs(
    db_deleted: usize,
    transfer: Option<(usize, usize)>,
    folders: Option<usize>,
    days: u32,
) -> (r: ClearRunsAndOrphansResult)
    ensures
        r == (ClearRunsAndOrphansResult {
            db_deleted,
            transfer_mem: match transfer {
                Some(t) => t.0,
                None => 0,
            },
            transfer_hist: match transfer {
                Some(t) => t.1,
                None => 0,
            },
            folder_count: match (transfer, folders) {
                (Some(_), Some(n)) => n,
                _ => 0,
            },
            days,
        }),
{
    match transfer {
        Some(t) => ClearRunsAndOrphansResult {
            db_deleted,
            transfer_mem: t.0,
            transfer_hist: t.1,
            folder_count: match folders {
                Some(n) => n,
                None => 0,
            },
            days,
        },
        None => ClearRunsAndOrphansResult {
            db_deleted,
            transfer_mem: 0,
            transfer_hist: 0,
            folder_count: 0,
            days,
        },
    }
}

/// What a manager holds stays sound, whatever is done.
pub proof fn law_manager_stays_sound(
    st: ManagerState,
    id: Seq<char>,
    sub: SubscriptionView,
    reason: Seq<char>,
    threshold: u32,
)
    requires
        sound(st),
    ensures
        sound(created(st, sub).0),
        st.subs.contains_key(id) && sub.id == id ==> sound(updated(st, id, sub).0),
        st.subs.contains_key(id) && sub.id == id ==> sound(switched(st, id, sub).0),
        st.subs.contains_key(id) && sub.id == id ==> sound(link_resumed(st, id, sub).0),
        sound(failure_noted(st, id, reason, threshold).0),
        sound(failure_cleared(st, id).0),
        sound(deleted(st, id).0),
{
}

/// A manager that has taken up stored subscriptions is sound.
pub proof fn law_loaded_manager_is_sound(subs: Seq<SubscriptionView>)
    ensures
        sound(loaded(subs).0),
    decreases subs.len(),
{
    if subs.len() > 0 {
        law_loaded_manager_is_sound(subs.drop_last());
    }
}

/// A deleted subscription is gone: it is neither there nor polled.
pub proof fn law_deleted_is_gone(st: ManagerState, id: Seq<char>)
    ensures
        !deleted(st, id).0.subs.contains_key(id),
        !deleted(st, id).0.schedulers.contains_key(id),
        forall|other: Seq<char>|
            other != id ==> (#[trigger] deleted(st, id).0.subs.contains_key(other)
                == st.subs.contains_key(other)) && deleted(st, id).0.subs[other]
                == st.subs[other],
{
}

/// What a subscription becomes when its link is found dead so many times in a row.
pub open spec fn link_failed_times(
    sub: SubscriptionView,
    reason: Seq<char>,
    threshold: u32,
    times: nat,
) -> SubscriptionView
    decreases times,
{
    if times == 0 {
        sub
    } else {
        let before = link_failed_times(sub, reason, threshold, (times - 1) as nat);
        if before.link_invalid {
            before
        } else {
            link_failed(before, reason, threshold)
        }
    }
}

/// A link is given up when it is found dead so many times in a row as the threshold says,
/// and not before.
pub proof fn law_link_is_given_up_at_the_threshold(
    sub: SubscriptionView,
    reason: Seq<char>,
    threshold: u32,
    times: nat,
)
    requires
        sub.consecutive_link_failures == 0,
        !sub.link_invalid,
        threshold >= 1,
    ensures
        link_failed_times(sub, reason, threshold, times).link_invalid == (times >= threshold),
        times < threshold ==> link_failed_times(
            sub,
            reason,
            threshold,
            times,
        ).consecutive_link_failures == times,
        times >= threshold ==> link_failed_times(
            sub,
            reason,
            threshold,
            times,
        ).link_invalid_reason == Some(reason),
    decreases times,
{
    if times > 0 {
        law_link_is_given_up_at_the_threshold(sub, reason, threshold, (times - 1) as nat);
    }
}

/// A link that is alive again counts its failures from the start.
pub proof fn law_living_link_starts_anew(st: ManagerState, id: Seq<char>)
    requires
        st.subs.contains_key(id),
    ensures
        !failure_cleared(st, id).0.subs[id].link_invalid,
        failure_cleared(st, id).0.subs[id].consecutive_link_failures == 0,
{
}

/// What is polled follows the settings: after a subscription was made or changed it is polled
/// exactly where it is enabled, its polling is, and there is time between two polls; then so
/// often as it says. No other subscription is touched by that, and no run.
pub proof fn law_polling_follows_the_settings(
    st: ManagerState,
    id: Seq<char>,
    sub: SubscriptionView,
    other: Seq<char>,
)
    requires
        sub.id == id,
    ensures
        !st.schedulers.contains_key(id) ==> created(st, sub).0.schedulers.contains_key(id) == (
        sub.enabled && sub.poll_config.enabled && sub.poll_config.interval_secs > 0),
        updated(st, id, sub).0.schedulers.contains_key(id) == (sub.enabled
            && sub.poll_config.enabled && sub.poll_config.interval_secs > 0),
        !st.schedulers.contains_key(id) ==> link_resumed(st, id, sub).0.schedulers.contains_key(id)
            == (sub.enabled && sub.poll_config.enabled && sub.poll_config.interval_secs > 0),
        !st.schedulers.contains_key(id) ==> switched(st, id, sub).0.schedulers.contains_key(id) == (
        sub.enabled && sub.poll_config.enabled && sub.poll_config.interval_secs > 0),
        !(sub.enabled && sub.poll_config.enabled) ==> !switched(
            st,
            id,
            sub,
        ).0.schedulers.contains_key(id),
        updated(st, id, sub).0.schedulers.contains_key(id) ==> updated(st, id, sub).0.schedulers[id]
            == sub.poll_config.interval_secs,
        !st.schedulers.contains_key(id) && created(st, sub).0.schedulers.contains_key(id)
            ==> created(st, sub).0.schedulers[id] == sub.poll_config.interval_secs,
        forall|next: ManagerState|
            (next == created(st, sub).0 || next == updated(st, id, sub).0 || next == switched(
                st,
                id,
                sub,
            ).0 || next == link_resumed(st, id, sub).0 || next == deleted(st, id).0) && other != id
                ==> {
                &&& #[trigger] next.schedulers.contains_key(other) == st.schedulers.contains_key(
                    other,
                )
                &&& next.schedulers.contains_key(other) ==> next.schedulers[other]
                    == st.schedulers[other]
                &&& next.subs.contains_key(other) == st.subs.contains_key(other)
                &&& next.subs.contains_key(other) ==> next.subs[other] == st.subs[other]
                &&& next.running == st.running
            },
{
}

/// A subscription that was made or changed is kept as it is given.
pub proof fn law_subscription_is_kept_as_given(
    st: ManagerState,
    id: Seq<char>,
    sub: SubscriptionView,
)
    requires
        sub.id == id,
    ensures
        created(st, sub).0.subs.contains_key(id) && created(st, sub).0.subs[id] == sub,
        updated(st, id, sub).0.subs.contains_key(id) && updated(st, id, sub).0.subs[id] == sub,
        switched(st, id, sub).0.subs == st.subs,
        link_resumed(st, id, sub).0.subs == st.subs,
{
}

/// What is done about a subscription: polling is begun and ended where it changes, what happened
/// is announced, one that is new and enabled is synchronised at once, as is one whose link was
/// mended; one that is deleted is deleted from the store with its tasks.
pub proof fn law_changes_are_carried_out(st: ManagerState, id: Seq<char>, sub: SubscriptionView)
    requires
        sub.id == id,
    ensures
        created(st, sub).1.contains(EffectView::Trigger { subscription_id: id }) <==> sub.enabled,
        created(st, sub).1.contains(
            EffectView::StartScheduler {
                subscription_id: id,
                interval_secs: sub.poll_config.interval_secs,
            },
        ) <==> !st.schedulers.contains_key(id) && sub.enabled && sub.poll_config.enabled
            && sub.poll_config.interval_secs > 0,
        updated(st, id, sub).1.contains(EffectView::StopScheduler { subscription_id: id })
            <==> st.schedulers.contains_key(id),
        updated(st, id, sub).1.contains(
            EffectView::StartScheduler {
                subscription_id: id,
                interval_secs: sub.poll_config.interval_secs,
            },
        ) <==> sub.enabled && sub.poll_config.enabled && sub.poll_config.interval_secs > 0,
        switched(st, id, sub).1.contains(EffectView::StopScheduler { subscription_id: id })
            <==> st.schedulers.contains_key(id) && !(sub.enabled && sub.poll_config.enabled),
        link_resumed(st, id, sub).1.contains(EffectView::Trigger { subscription_id: id }),
        deleted(st, id).1.contains(EffectView::StopScheduler { subscription_id: id })
            <==> st.schedulers.contains_key(id),
        deleted(st, id).1.contains(EffectView::DeleteSubscription { subscription_id: id }),
        deleted(st, id).1.contains(
            EffectView::DeleteTasks {
                backup_config_id: "share-sync:"@ + id,
                owner_uid: st.subs[id].owner_uid,
            },
        ),
        created(st, sub).1.contains(
            EffectView::Publish {
                event: events::EventView::SubscriptionCreated {
                    subscription_id: id,
                    name: sub.name,
                    owner_uid: sub.owner_uid,
                },
            },
        ),
        updated(st, id, sub).1.contains(
            EffectView::Publish {
                event: events::EventView::SubscriptionUpdated {
                    subscription_id: id,
                    owner_uid: sub.owner_uid,
                },
            },
        ),
        switched(st, id, sub).1.contains(
            EffectView::Publish {
                event: events::EventView::StatusChanged {
                    subscription_id: id,
                    enabled: sub.enabled,
                    owner_uid: sub.owner_uid,
                },
            },
        ),
        deleted(st, id).1.contains(
            EffectView::Publish {
                event: events::EventView::SubscriptionDeleted {
                    subscription_id: id,
                    owner_uid: st.subs[id].owner_uid,
                },
            },
        ),
{
    let c = created(st, sub).1;
    let u = updated(st, id, sub).1;
    let w = switched(st, id, sub).1;
    let l = link_resumed(st, id, sub).1;
    let d = deleted(st, id).1;
    assert(c.len() <= 3 && u.len() <= 3 && w.len() <= 2 && d.len() <= 4);
    assert(c.len() >= 1 && u.len() >= 1 && w.len() >= 1 && d.len() >= 3);
    assert(forall|i: int| 0 <= i < c.len() ==> c.contains(#[trigger] c[i]));
    assert(forall|i: int| 0 <= i < u.len() ==> u.contains(#[trigger] u[i]));
    assert(forall|i: int| 0 <= i < w.len() ==> w.contains(#[trigger] w[i]));
    assert(forall|i: int| 0 <= i < l.len() ==> l.contains(#[trigger] l[i]));
    assert(forall|i: int| 0 <= i < d.len() ==> d.contains(#[trigger] d[i]));
    let (nc, nu, nl, nd) = (c.len() as int, u.len() as int, l.len() as int, d.len() as int);
    assert(c.contains(c[0]) && c.contains(c[nc - 1]) && (nc > 1 ==> c.contains(c[1])));
    assert(u.contains(u[0]) && u.contains(u[nu - 1]) && (nu > 1 ==> u.contains(u[1])));
    assert(w.contains(w[0]) && w.contains(w[w.len() - 1]));
    assert(l.contains(l[nl - 1]));
    assert(d.contains(d[0]) && d.contains(d[nd - 1]) && d.contains(d[nd - 2]) && d.contains(
        d[nd - 3],
    ));
}

/// A failure of a link is counted, one at a time. At the threshold the link is given up, with the
/// reason, and that is announced. A link that was given up stays so, and nothing but the link is
/// touched.
pub proof fn law_link_failures_are_counted(
    st: ManagerState,
    id: Seq<char>,
    reason: Seq<char>,
    threshold: u32,
)
    requires
        st.subs.contains_key(id),
    ensures
        ({
            let was = st.subs[id];
            let (next, effects) = failure_noted(st, id, reason, threshold);
            let now = next.subs[id];
            &&& was.link_invalid ==> next == st && effects.len() == 0
            &&& !was.link_invalid ==> {
                &&& now.consecutive_link_failures == if was.consecutive_link_failures < u32::MAX {
                    was.consecutive_link_failures + 1
                } else {
                    u32::MAX as int
                }
                &&& now.link_invalid == (now.consecutive_link_failures >= threshold)
                &&& now.link_invalid ==> now.link_invalid_reason == Some(reason)
                &&& now.name == was.name && now.share_url == was.share_url && now.enabled
                    == was.enabled && now.owner_uid == was.owner_uid && now.targets == was.targets
                    && now.include_paths == was.include_paths && now.exclude_patterns
                    == was.exclude_patterns && now.poll_config == was.poll_config && now.id == was.id
                    && now.password == was.password
                &&& effects[0] == (EffectView::SaveSubscription { subscription: now })
                &&& effects.len() == if now.link_invalid {
                    2int
                } else {
                    1
                }
            }
            &&& next.schedulers == st.schedulers && next.running == st.running
            &&& next.subs.dom() == st.subs.dom()
        }),
{
    let next = failure_noted(st, id, reason, threshold).0;
    assert(next.subs.dom() =~= st.subs.dom());
}

/// A link that answers is no longer counted against, and that is stored; where there was nothing
/// to forgive, nothing is done.
pub proof fn law_living_link_is_stored_once(st: ManagerState, id: Seq<char>)
    requires
        st.subs.contains_key(id),
    ensures
        ({
            let was = st.subs[id];
            let (next, effects) = failure_cleared(st, id);
            let now = next.subs[id];
            &&& now.consecutive_link_failures == 0 && !now.link_invalid
            &&& effects.len() == if was.consecutive_link_failures == 0 && !was.link_invalid {
                0int
            } else {
                1
            }
            &&& effects.len() > 0 ==> effects[0] == (EffectView::SaveSubscription {
                subscription: now,
            }) && now.link_invalid_reason is None
            &&& now.name == was.name && now.share_url == was.share_url && now.enabled == was.enabled
                && now.owner_uid == was.owner_uid && now.targets == was.targets
            &&& next.schedulers == st.schedulers && next.running == st.running
        }),
{
}

/// A run begins exactly where the subscription is there and belongs to an account, its link is
/// not given up, it is not being synchronised, and the account is logged in and ready.
pub proof fn law_when_a_run_begins(
    st: ManagerState,
    id: Seq<char>,
    has_netdisk: bool,
    has_transfer: bool,
)
    ensures
        trigger_refusal(st, id, has_netdisk, has_transfer) is None <==> {
            &&& st.subs.contains_key(id)
            &&& st.subs[id].owner_uid != 0
            &&& !st.subs[id].link_invalid
            &&& !st.running.contains(id)
            &&& has_netdisk
            &&& has_transfer
        },
        !st.subs.contains_key(id) ==> trigger_refusal(st, id, has_netdisk, has_transfer) == Some(
            error::ErrorView::SubscriptionNotFound(id),
        ),
{
}

/// A subscription without an account gets the active one, and is stored; every other stays as it
/// is, and nothing is stored for it.
pub proof fn law_ownerless_subscriptions_are_adopted(
    subs: Seq<SubscriptionView>,
    sub: SubscriptionView,
    uid: u64,
)
    ensures
        migrated(sub, None) == sub,
        sub.owner_uid != 0 ==> migrated(sub, Some(uid)) == sub,
        sub.owner_uid == 0 ==> migrated(sub, Some(uid)).owner_uid == uid,
        migrated(sub, Some(uid)).id == sub.id,
        migrated(sub, Some(uid)).enabled == sub.enabled,
        migrated(sub, Some(uid)).share_url == sub.share_url,
        migration_effects(subs, None).len() == 0,
        migration_effects(subs.push(sub), Some(uid)) == if sub.owner_uid == 0 {
            migration_effects(subs, Some(uid)).push(
                EffectView::SaveSubscription { subscription: migrated(sub, Some(uid)) },
            )
        } else {
            migration_effects(subs, Some(uid))
        },
    decreases subs.len(),
{
    assert(subs.push(sub).drop_last() =~= subs);
    if subs.len() > 0 {
        law_ownerless_subscriptions_are_adopted(subs.drop_last(), sub, uid);
    }
}

/// Stored subscriptions are taken up: each is there as the last one stored under its id, each is
/// polled as its settings say, and no run is under way.
pub proof fn law_stored_subscriptions_are_taken_up(
    subs: Seq<SubscriptionView>,
    sub: SubscriptionView,
)
    ensures
        loaded(subs.push(sub)).0.subs == loaded(subs).0.subs.insert(sub.id, sub),
        loaded(subs).0.running == Set::<Seq<char>>::empty(),
        loaded(seq![]).0.subs == Map::<Seq<char>, SubscriptionView>::empty(),
        !loaded(subs).0.schedulers.contains_key(sub.id) ==> loaded(
            subs.push(sub),
        ).0.schedulers.contains_key(sub.id) == (sub.enabled && sub.poll_config.enabled
            && sub.poll_config.interval_secs > 0),
    decreases subs.len(),
{
    assert(subs.push(sub).drop_last() =~= subs);
    if subs.len() > 0 {
        law_stored_subscriptions_are_taken_up(subs.drop_last(), subs.last());
        assert(subs.drop_last().push(subs.last()) =~= subs);
    }
}

/// A link is given up after two failures unless the setting says otherwise, and never before one.
pub proof fn law_threshold_is_at_least_one(setting: Option<&str>)
    ensures
        threshold_of(setting) >= 1,
        setting is None ==> threshold_of(setting) == 2,
        setting matches Some(s) ==> (numbers::unsigned_of(s@, u32::MAX as nat) matches Some(n)
            ==> (n >= 1 ==> threshold_of(setting) == n)),
        setting matches Some(s) ==> (numbers::unsigned_of(s@, u32::MAX as nat) is None
            ==> threshold_of(setting) == 2),
{
}

proof fn lemma_owned_from(
    all: Seq<SubscriptionView>,
    owner_uid: u64,
    s: SubscriptionView,
) -> (j: int)
    requires
        owned_by(all, owner_uid).contains(s),
    ensures
        0 <= j < all.len(),
        all[j] == s,
        s.owner_uid == owner_uid,
    decreases all.len(),
{
    reveal(Seq::filter);
    let init = all.drop_last();
    if owned_by(init, owner_uid).contains(s) {
        let j = lemma_owned_from(init, owner_uid, s);
        assert(all[j] == init[j]);
        j
    } else {
        let own = owned_by(all, owner_uid);
        let before = owned_by(init, owner_uid);
        let i = choose|i: int| 0 <= i < own.len() && own[i] == s;
        if i < before.len() {
            assert(before[i] == s);
        }
        all.len() - 1
    }
}

/// The subscriptions of an account are all that are kept for it, and no other.
pub proof fn law_account_sees_its_subscriptions(
    all: Seq<SubscriptionView>,
    map: Map<Seq<char>, SubscriptionView>,
    owner_uid: u64,
    k: Seq<char>,
    s: SubscriptionView,
)
    requires
        registry::lists_all(all, map),
        map.dom().finite(),
    ensures
        map.contains_key(k) && map[k].owner_uid == owner_uid ==> owned_by(all, owner_uid).contains(
            map[k],
        ),
        owned_by(all, owner_uid).contains(s) ==> s.owner_uid == owner_uid && exists|key: Seq<char>|
         #[trigger]
            map.contains_key(key) && map[key] == s,
{
    let p = |x: SubscriptionView| x.owner_uid == owner_uid;
    if map.contains_key(k) && map[k].owner_uid == owner_uid {
        registry::law_all_are_listed_once(all, map, k, 0);
        let i = choose|i: int| 0 <= i < all.len() && all[i] == map[k];
        all.lemma_filter_contains(p, i);
    }
    if owned_by(all, owner_uid).contains(s) {
        let j = lemma_owned_from(all, owner_uid, s);
        registry::law_all_are_listed_once(all, map, k, j);
    }
}

} // verus!
