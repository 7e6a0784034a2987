//! The course of a start: interrupted runs are taken up, or their subscriptions are run anew.
use vstd::prelude::*;

use crate::share_sync::config::SubscriptionView;
use crate::share_sync::events;
use crate::share_sync::events::{no_effects, Effect, EffectView};
use crate::share_sync::manager;
use crate::share_sync::manager::ShareSyncManager;
use crate::share_sync::run;
use crate::share_sync::run::{finalize_resumed_run, RunItem};
use crate::share_sync::startup;
use crate::share_sync::startup::{
    account_ready, downloads_done, rerun, runs_to_try, taken_up, ReadyStep, ResumeTarget,
    ResumedWait, POLL_INTERVAL_SECS, READY_RETRY_DELAY_SECS,
};
use crate::share_sync::subtasks;
use crate::share_sync::subtasks::{paused_subtasks, ShareSyncSubtask};
use crate::share_sync::sync_run;
use crate::text;
use crate::time::{Duration, Instant};

verus! {

// ---------------------------------------------------------------------------
// A run that is taken up
// ---------------------------------------------------------------------------
/// What a run that was taken up waits for.
#[derive(Debug, Clone, Copy, PartialEq, Eq, Structural)]
pub enum ResumedPhase {
    FindingTransfer,
    Looking,
    AskingSlot,
    ListingPaused,
    Waking,
    ListingRows,
    Ending,
    Over,
}

/// A run that was taken up: its downloads are woken until they are done, then it ends like any
/// other.
pub struct ResumedRun {
    /// The subscription.
    pub id: String,
    pub run_id: String,
    pub owner_uid: u64,
    pub wait: ResumedWait,
    pub phase: ResumedPhase,
}

/// What shall be done next for a run that was taken up.
#[derive(Debug)]
pub enum ResumedAsk {
    /// Find out whether the account can copy.
    FindTransfer,
    /// Wait so many seconds, then look.
    Look { after_secs: u64 },
    /// Find out whether there is a slot for a download.
    AskSlot,
    /// List the tasks of the subscription.
    ListRows,
    /// Wake these tasks.
    Wake { rows: Vec<ShareSyncSubtask> },
    /// List the items of the run, and the tasks of the subscription.
    ListItems,
    /// Nothing: the run is over.
    Done,
}

impl ResumedRun {
    /// Takes up a run, unless one of the subscription goes on.
    pub fn begin(
        manager: &mut ShareSyncManager,
        id: &str,
        run_id: &str,
        owner_uid: u64,
        started_at: Instant,
        hard_timeout: Option<Duration>,
    ) -> (r: (ResumedRun, ResumedAsk))
        ensures
            r.0.id@ == id@,
            r.0.run_id@ == run_id@,
            r.0.owner_uid == owner_uid,
            r.0.wait == (ResumedWait { started_at, hard_timeout, last_resume_at: None }),
            if old(manager)@.running.contains(id@) {
                &&& final(manager)@ == old(manager)@
                &&& r.0.phase == ResumedPhase::Over
                &&& r.1 == ResumedAsk::Done
            } else {
                &&& final(manager)@ == sync_run::entered(old(manager)@, id@)
                &&& r.0.phase == ResumedPhase::FindingTransfer
                &&& r.1 == ResumedAsk::FindTransfer
            },
    {
        let ghost st = manager@;
        let mut run = ResumedRun {
            id: id.to_owned(),
            run_id: run_id.to_owned(),
            owner_uid,
            wait: ResumedWait::begin(started_at, hard_timeout),
            phase: ResumedPhase::FindingTransfer,
        };
        if manager.enter_run(id) {
            (run, ResumedAsk::FindTransfer)
        } else {
            assert(st.running.insert(id@) =~= st.running);
            run.phase = ResumedPhase::Over;
            (run, ResumedAsk::Done)
        }
    }

    /// Goes on once it is known whether the account can copy: the run is noted as one that goes
    /// on, or is left.
    pub fn transfer_found(&mut self, manager: &mut ShareSyncManager, has_transfer: bool) -> (r: (
        Vec<Effect>,
        ResumedAsk,
    ))
        requires
            old(self).phase == ResumedPhase::FindingTransfer,
        ensures
            if has_transfer {
                &&& *final(self) == (ResumedRun { phase: ResumedPhase::Looking, ..*old(self) })
                &&& final(manager)@ == old(manager)@
                &&& events::effect_views(r.0@) == seq![
                    EffectView::MarkRunRunning { run_id: old(self).run_id@ },
                ]
                &&& r.1 == (ResumedAsk::Look { after_secs: 0 })
            } else {
                &&& *final(self) == (ResumedRun { phase: ResumedPhase::Over, ..*old(self) })
                &&& final(manager)@ == sync_run::left(old(manager)@, old(self).id@)
                &&& events::effect_views(r.0@) == Seq::<EffectView>::empty()
                &&& r.1 == ResumedAsk::Done
            },
    {
        if has_transfer {
            self.phase = ResumedPhase::Looking;
            (taken_up(self.run_id.as_str()), ResumedAsk::Look { after_secs: 0 })
        } else {
            self.phase = ResumedPhase::Over;
            manager.leave_run(self.id.as_str());
            (no_effects(), ResumedAsk::Done)
        }
    }

    /// Looks at the run: one that has taken too long ends; the downloads are woken now and then.
    pub fn look(&mut self, now: Instant) -> (r: ResumedAsk)
        requires
            old(self).phase == ResumedPhase::Looking,
        ensures
            ({
                let b = *old(self);
                if startup::is_late(b.wait, now) {
                    &&& *final(self) == (ResumedRun { phase: ResumedPhase::Ending, ..b })
                    &&& r == ResumedAsk::ListItems
                } else if startup::wakes(b.wait, now) {
                    &&& *final(self) == (ResumedRun {
                        phase: ResumedPhase::AskingSlot,
                        wait: ResumedWait { last_resume_at: Some(now), ..b.wait },
                        ..b
                    })
                    &&& r == ResumedAsk::AskSlot
                } else {
                    &&& *final(self) == (ResumedRun { phase: ResumedPhase::ListingRows, ..b })
                    &&& r == ResumedAsk::ListRows
                }
            }),
    {
        if self.wait.is_overdue(now) {
            self.phase = ResumedPhase::Ending;
            return ResumedAsk::ListItems;
        }
        if self.wait.wants_wake(now) {
            self.phase = ResumedPhase::AskingSlot;
            ResumedAsk::AskSlot
        } else {
            self.phase = ResumedPhase::ListingRows;
            ResumedAsk::ListRows
        }
    }

    /// Goes on once it is known whether there is a slot for a download: only then is one woken.
    pub fn slot_asked(&mut self, free: bool) -> (r: ResumedAsk)
        requires
            old(self).phase == ResumedPhase::AskingSlot,
        ensures
            *final(self) == (ResumedRun {
                phase: if free {
                    ResumedPhase::ListingPaused
                } else {
                    ResumedPhase::ListingRows
                },
                ..*old(self)
            }),
            r == ResumedAsk::ListRows,
    {
        self.phase = if free {
            ResumedPhase::ListingPaused
        } else {
            ResumedPhase::ListingRows
        };
        ResumedAsk::ListRows
    }

    /// Goes on with the tasks of the subscription: those that are paused are woken, or it is seen
    /// whether all downloads are done.
    pub fn rows_listed(&mut self, rows: &Vec<ShareSyncSubtask>) -> (r: ResumedAsk)
        requires
            old(self).phase == ResumedPhase::ListingPaused || old(self).phase
                == ResumedPhase::ListingRows,
        ensures
            ({
                let b = *old(self);
                let all = subtasks::row_views(rows@);
                if b.phase == ResumedPhase::ListingPaused {
                    if subtasks::paused(all).len() > 0 {
                        &&& *final(self) == (ResumedRun { phase: ResumedPhase::Waking, ..b })
                        &&& r matches ResumedAsk::Wake { rows: woken } && subtasks::row_views(
                            woken@,
                        ) == subtasks::paused(all)
                    } else {
                        &&& *final(self) == (ResumedRun { phase: ResumedPhase::ListingRows, ..b })
                        &&& r == ResumedAsk::ListRows
                    }
                } else if subtasks::open_downloads(all).len() == 0 {
                    &&& *final(self) == (ResumedRun { phase: ResumedPhase::Ending, ..b })
                    &&& r == ResumedAsk::ListItems
                } else {
                    &&& *final(self) == (ResumedRun { phase: ResumedPhase::Looking, ..b })
                    &&& r == (ResumedAsk::Look { after_secs: POLL_INTERVAL_SECS })
                }
            }),
    {
        if self.phase == ResumedPhase::ListingPaused {
            let woken = paused_subtasks(rows);
            assert(subtasks::row_views(woken@).len() == woken@.len());
            if woken.len() > 0 {
                self.phase = ResumedPhase::Waking;
                ResumedAsk::Wake { rows: woken }
            } else {
                self.phase = ResumedPhase::ListingRows;
                ResumedAsk::ListRows
            }
        } else if downloads_done(rows) {
            self.phase = ResumedPhase::Ending;
            ResumedAsk::ListItems
        } else {
            self.phase = ResumedPhase::Looking;
            ResumedAsk::Look { after_secs: POLL_INTERVAL_SECS }
        }
    }

    /// Goes on once the paused tasks were woken.
    pub fn woken(&mut self) -> (r: ResumedAsk)
        requires
            old(self).phase == ResumedPhase::Waking,
        ensures
            *final(self) == (ResumedRun { phase: ResumedPhase::ListingRows, ..*old(self) }),
            r == ResumedAsk::ListRows,
    {
        self.phase = ResumedPhase::ListingRows;
        ResumedAsk::ListRows
    }

    /// Ends the run, from its items and the tasks of the subscription.
    pub fn items_listed(
        &mut self,
        manager: &mut ShareSyncManager,
        items: &Vec<RunItem>,
        rows: &Vec<ShareSyncSubtask>,
        now: i64,
    ) -> (r: Vec<Effect>)
        requires
            old(self).phase == ResumedPhase::Ending,
        ensures
            *final(self) == (ResumedRun { phase: ResumedPhase::Over, ..*old(self) }),
            final(manager)@ == sync_run::left(old(manager)@, old(self).id@),
            events::effect_views(r@) == run::resumed_ending(
                run::tally(
                    items@,
                    subtasks::has_failed_download(subtasks::row_views(rows@)),
                ),
                items@.len(),
                old(self).run_id@,
                old(self).id@,
                old(self).owner_uid,
                now,
            ),
    {
        self.phase = ResumedPhase::Over;
        manager.leave_run(self.id.as_str());
        finalize_resumed_run(
            items,
            rows,
            self.run_id.as_str(),
            self.id.as_str(),
            self.owner_uid,
            now,
        )
    }
}

// ---------------------------------------------------------------------------
// All interrupted runs
// ---------------------------------------------------------------------------
/// What the queue of interrupted runs waits for.
#[derive(Debug, Clone, Copy, PartialEq, Eq, Structural)]
pub enum QueuePhase {
    /// The next subscription.
    Between,
    FindingAccount,
    Probing,
    Over,
}

/// The subscriptions whose runs were interrupted, one after the other.
pub struct ResumeQueue {
    pub targets: Vec<(String, ResumeTarget)>,
    /// The one that is being looked at.
    pub at: usize,
    /// Its account.
    pub owner_uid: u64,
    /// How often it was tried whether the account is ready.
    pub attempt: u32,
    /// Its runs, in the order in which they are tried.
    pub runs: Vec<String>,
    /// The one that is tried.
    pub run_at: usize,
    pub phase: QueuePhase,
}

/// What shall be done next about interrupted runs.
#[derive(Debug)]
pub enum QueueAsk {
    /// Wait so many seconds, then find out what the account has.
    FindAccount { after_secs: u64, owner_uid: u64 },
    /// Wait so many seconds; then go on.
    Wait { secs: u64 },
    /// Find out whether the run can be taken up.
    Probe { id: String, run_id: String },
    /// Take up the run; then go on.
    TakeUp { id: String, run_id: String, owner_uid: u64 },
    /// Do this, then run the subscription anew; then go on.
    Rerun { id: String, effects: Vec<Effect> },
    /// Nothing: all subscriptions were looked at.
    Done,
}

/// The first of the targets from position `i` on whose subscription is there.
pub open spec fn first_there(
    targets: Seq<(String, ResumeTarget)>,
    subs: Map<Seq<char>, SubscriptionView>,
    i: int,
) -> int
    decreases targets.len() - i,
{
    if i < 0 || i >= targets.len() {
        targets.len() as int
    } else if subs.contains_key(targets[i].0@) {
        i
    } else {
        first_there(targets, subs, i + 1)
    }
}

/// The queue goes on with the first subscription from position `i` on that is there.
pub open spec fn moves_on(
    before: ResumeQueue,
    i: int,
    st: manager::ManagerState,
    after: ResumeQueue,
    ask: QueueAsk,
) -> bool {
    let k = first_there(before.targets@, st.subs, i);
    &&& after.targets == before.targets
    &&& after.at == k
    &&& after.attempt == 0
    &&& after.runs@ == Seq::<String>::empty()
    &&& after.run_at == 0
    &&& if k < before.targets@.len() {
        let owner_uid = st.subs[before.targets@[k].0@].owner_uid;
        &&& after.phase == QueuePhase::FindingAccount
        &&& after.owner_uid == owner_uid
        &&& ask == (QueueAsk::FindAccount { after_secs: 0, owner_uid })
    } else {
        &&& after.phase == QueuePhase::Over
        &&& ask == QueueAsk::Done
    }
}

/// The queue tries run `k` of its subscription; where there is none left, the subscription is run
/// anew, unless only old runs were interrupted.
pub open spec fn tries(
    before: ResumeQueue,
    runs: Seq<Seq<char>>,
    k: int,
    st: manager::ManagerState,
    after: ResumeQueue,
    ask: QueueAsk,
) -> bool {
    let target = before.targets@[before.at as int];
    if k < runs.len() {
        &&& after.targets == before.targets
        &&& after.at == before.at
        &&& after.owner_uid == before.owner_uid
        &&& text::texts(after.runs@) == runs
        &&& after.run_at == k
        &&& after.phase == QueuePhase::Probing
        &&& ask matches QueueAsk::Probe { id, run_id } && id@ == target.0@ && run_id@ == runs[k]
    } else if target.1.fresh@.len() > 0 {
        &&& after.targets == before.targets
        &&& after.at == before.at + 1
        &&& after.phase == QueuePhase::Between
        &&& ask matches QueueAsk::Rerun { id, effects } && id@ == target.0@
            && events::effect_views(effects@) == startup::clean_up(
            target.1,
            target.0@,
            before.owner_uid,
        )
    } else {
        moves_on(before, before.at + 1, st, after, ask)
    }
}

impl ResumeQueue {
    /// The queue looks at one of its targets, and knows what its phase needs.
    pub open spec fn wf(self) -> bool {
        &&& self.at <= self.targets@.len()
        &&& self.phase == QueuePhase::FindingAccount || self.phase == QueuePhase::Probing
            ==> self.at < self.targets@.len()
        &&& self.phase == QueuePhase::FindingAccount ==> self.attempt
            < startup::READY_MAX_ATTEMPTS
        &&& self.phase == QueuePhase::Probing ==> self.run_at < self.runs@.len()
            && text::texts(self.runs@) == startup::trial_order(self.targets@[self.at as int].1)
    }

    /// A queue of interrupted runs.
    pub fn begin(targets: Vec<(String, ResumeTarget)>) -> (r: ResumeQueue)
        ensures
            r.wf(),
            r.targets == targets,
            r.at == 0,
            r.phase == QueuePhase::Between,
    {
        ResumeQueue {
            targets,
            at: 0,
            owner_uid: 0,
            attempt: 0,
            runs: Vec::new(),
            run_at: 0,
            phase: QueuePhase::Between,
        }
    }

    fn go_on(&mut self, manager: &ShareSyncManager) -> (r: QueueAsk)
        requires
            old(self).at <= old(self).targets@.len(),
        ensures
            final(self).wf(),
            moves_on(*old(self), old(self).at as int, manager@, *final(self), r),
    {
        let ghost start = *self;
        let ghost st = manager@;
        self.attempt = 0;
        self.runs = Vec::new();
        self.run_at = 0;
        while self.at < self.targets.len()
            invariant
                start == *old(self),
                self.targets == start.targets,
                self.at <= self.targets@.len(),
                self.attempt == 0,
                self.runs@ == Seq::<String>::empty(),
                self.run_at == 0,
                st == manager@,
                first_there(start.targets@, st.subs, start.at as int) == first_there(
                    start.targets@,
                    st.subs,
                    self.at as int,
                ),
            decreases self.targets@.len() - self.at,
        {
            match manager.get_subscription(self.targets[self.at].0.as_str()) {
                Some(sub) => {
                    let owner_uid: u64 = sub.owner_uid;
                    self.owner_uid = owner_uid;
                    self.phase = QueuePhase::FindingAccount;
                    return QueueAsk::FindAccount { after_secs: 0, owner_uid };
                },
                None => {},
            }
            self.at = self.at + 1;
        }
        self.phase = QueuePhase::Over;
        QueueAsk::Done
    }

    /// Goes on with the next subscription.
    pub fn next(&mut self, manager: &ShareSyncManager) -> (r: QueueAsk)
        requires
            old(self).wf(),
            old(self).phase == QueuePhase::Between,
        ensures
            final(self).wf(),
            moves_on(*old(self), old(self).at as int, manager@, *final(self), r),
    {
        self.go_on(manager)
    }

    fn try_run(&mut self, manager: &ShareSyncManager) -> (r: QueueAsk)
        requires
            old(self).at < old(self).targets@.len(),
            old(self).run_at <= old(self).runs@.len(),
            text::texts(old(self).runs@) == startup::trial_order(
                old(self).targets@[old(self).at as int].1,
            ),
        ensures
            final(self).wf(),
            tries(
                *old(self),
                text::texts(old(self).runs@),
                old(self).run_at as int,
                manager@,
                *final(self),
                r,
            ),
    {
        if self.run_at < self.runs.len() {
            self.phase = QueuePhase::Probing;
            assert(text::texts(self.runs@)[self.run_at as int] == self.runs@[self.run_at as int]@);
            return QueueAsk::Probe {
                id: self.targets[self.at].0.clone(),
                run_id: self.runs[self.run_at].clone(),
            };
        }
        assert(self.at < self.targets.len());
        let id = self.targets[self.at].0.clone();
        match rerun(&self.targets[self.at].1, id.as_str(), self.owner_uid) {
            Some(effects) => {
                self.at = self.at + 1;
                self.phase = QueuePhase::Between;
                QueueAsk::Rerun { id, effects }
            },
            None => {
                let ghost before = *self;
                self.at = self.at + 1;
                let r = self.go_on(manager);
                assert(moves_on(before, before.at + 1, manager@, *self, r));
                r
            },
        }
    }

    /// Goes on once it is known what the account has: one that is not ready is waited for, a few
    /// times, and after the last of them too, before the next subscription is looked at; a
    /// subscription that is being synchronised by then is left alone.
    pub fn account_found(
        &mut self,
        manager: &ShareSyncManager,
        has_netdisk: bool,
        has_transfer: bool,
    ) -> (r: QueueAsk)
        requires
            old(self).wf(),
            old(self).phase == QueuePhase::FindingAccount,
        ensures
            final(self).wf(),
            ({
                let b = *old(self);
                let target = b.targets@[b.at as int];
                if has_netdisk && has_transfer {
                    if manager@.running.contains(target.0@) {
                        moves_on(b, b.at + 1, manager@, *final(self), r)
                    } else {
                        tries(b, startup::trial_order(target.1), 0, manager@, *final(self), r)
                    }
                } else if b.attempt + 1 < startup::READY_MAX_ATTEMPTS {
                    &&& *final(self) == (ResumeQueue { attempt: (b.attempt + 1) as u32, ..b })
                    &&& r == (QueueAsk::FindAccount {
                        after_secs: READY_RETRY_DELAY_SECS,
                        owner_uid: b.owner_uid,
                    })
                } else {
                    &&& *final(self) == (ResumeQueue {
                        at: (b.at + 1) as usize,
                        phase: QueuePhase::Between,
                        ..b
                    })
                    &&& r == (QueueAsk::Wait { secs: READY_RETRY_DELAY_SECS })
                }
            }),
    {
        let ghost before = *self;
        assert(self.at < self.targets.len());
        match account_ready(self.attempt, has_netdisk, has_transfer) {
            ReadyStep::Retry => {
                self.attempt = self.attempt + 1;
                QueueAsk::FindAccount {
                    after_secs: READY_RETRY_DELAY_SECS,
                    owner_uid: self.owner_uid,
                }
            },
            ReadyStep::GiveUp => {
                self.at = self.at + 1;
                self.phase = QueuePhase::Between;
                QueueAsk::Wait { secs: READY_RETRY_DELAY_SECS }
            },
            ReadyStep::Ready => {
                if manager.is_running(self.targets[self.at].0.as_str()) {
                    self.at = self.at + 1;
                    let r = self.go_on(manager);
                    assert(moves_on(before, before.at + 1, manager@, *self, r));
                    r
                } else {
                    self.runs = runs_to_try(&self.targets[self.at].1);
                    self.run_at = 0;
                    let r = self.try_run(manager);
                    assert(tries(
                        before,
                        startup::trial_order(before.targets@[before.at as int].1),
                        0,
                        manager@,
                        *self,
                        r,
                    ));
                    r
                }
            },
        }
    }

    /// Goes on once it is known whether a run can be taken up: the first that can is.
    pub fn probed(&mut self, manager: &ShareSyncManager, resumable: bool) -> (r: QueueAsk)
        requires
            old(self).wf(),
            old(self).phase == QueuePhase::Probing,
        ensures
            final(self).wf(),
            ({
                let b = *old(self);
                if resumable {
                    &&& *final(self) == (ResumeQueue {
                        at: (b.at + 1) as usize,
                        phase: QueuePhase::Between,
                        ..b
                    })
                    &&& r matches QueueAsk::TakeUp { id, run_id, owner_uid } && id@
                        == b.targets@[b.at as int].0@ && run_id@ == b.runs@[b.run_at as int]@
                        && owner_uid == b.owner_uid
                } else {
                    tries(
                        b,
                        startup::trial_order(b.targets@[b.at as int].1),
                        b.run_at + 1,
                        manager@,
                        *final(self),
                        r,
                    )
                }
            }),
    {
        let ghost before = *self;
        assert(self.at < self.targets.len() && self.run_at < self.runs.len());
        if resumable {
            let r = QueueAsk::TakeUp {
                id: self.targets[self.at].0.clone(),
                run_id: self.runs[self.run_at].clone(),
                owner_uid: self.owner_uid,
            };
            self.at = self.at + 1;
            self.phase = QueuePhase::Between;
            r
        } else {
            self.run_at = self.run_at + 1;
            let r = self.try_run(manager);
            assert(tries(
                before,
                startup::trial_order(before.targets@[before.at as int].1),
                before.run_at + 1,
                manager@,
                *self,
                r,
            ));
            r
        }
    }
}

// ---------------------------------------------------------------------------
// Laws
// ---------------------------------------------------------------------------
/// A start brings about no run that nobody asked for: a subscription is run anew only where this
/// restart has interrupted a run of it.
pub proof fn law_old_interruptions_bring_no_run(
    before: ResumeQueue,
    runs: Seq<Seq<char>>,
    k: int,
    st: manager::ManagerState,
    after: ResumeQueue,
    ask: QueueAsk,
)
    requires
        tries(before, runs, k, st, after, ask),
        ask is Rerun,
    ensures
        before.targets@[before.at as int].1.fresh@.len() > 0,
{
}

/// The queue comes to an end: with each subscription it moves on, and never back.
pub proof fn law_queue_moves_on(
    before: ResumeQueue,
    i: int,
    st: manager::ManagerState,
    after: ResumeQueue,
    ask: QueueAsk,
)
    requires
        0 <= i <= before.targets@.len(),
        moves_on(before, i, st, after, ask),
    ensures
        i <= after.at <= before.targets@.len(),
        after.phase == QueuePhase::Over <==> after.at == before.targets@.len(),
    decreases before.targets@.len() - i,
{
    lemma_first_there(before.targets@, st.subs, i);
}

proof fn lemma_first_there(
    targets: Seq<(String, ResumeTarget)>,
    subs: Map<Seq<char>, SubscriptionView>,
    i: int,
)
    requires
        0 <= i <= targets.len(),
    ensures
        i <= first_there(targets, subs, i) <= targets.len(),
    decreases targets.len() - i,
{
    if i < targets.len() && !subs.contains_key(targets[i].0@) {
        lemma_first_there(targets, subs, i + 1);
    }
}

/// The next subscription is the first one that is still there.
pub proof fn law_next_is_the_first_that_is_there(
    targets: Seq<(String, ResumeTarget)>,
    subs: Map<Seq<char>, SubscriptionView>,
    i: int,
)
    requires
        0 <= i <= targets.len(),
    ensures
        i <= first_there(targets, subs, i) <= targets.len(),
        first_there(targets, subs, i) < targets.len() ==> subs.contains_key(
            targets[first_there(targets, subs, i)].0@,
        ),
        forall|j: int|
            i <= j < first_there(targets, subs, i) ==> !subs.contains_key(
                (#[trigger] targets[j]).0@,
            ),
    decreases targets.len() - i,
{
    if i < targets.len() && !subs.contains_key(targets[i].0@) {
        law_next_is_the_first_that_is_there(targets, subs, i + 1);
    }
}

} // verus!
