//! The course of one run of a subscription.
//!
//! A run is entered, finds its account, is stored and announced, clears what an earlier run left,
//! captures the share (more than once where that fails in passing; what one attempt has listed
//! the next one need not list again), compares it with the last time, and carries out what differs. It stops at the first of these that fails, and it is left
//! however it ends.
use vstd::prelude::*;

use crate::share_sync::config::ShareSubscription;
use crate::share_sync::diff;
use crate::share_sync::diff::{augment_diff_with_local_target_state, ShareDiff};
use crate::share_sync::error::{ErrorView, ShareSyncError};
use crate::share_sync::events;
use crate::share_sync::events::{no_effects, push_effect, Effect, EffectView};
use crate::share_sync::manager;
use crate::share_sync::manager::{NewRun, ShareSyncManager};
use crate::share_sync::run;
use crate::share_sync::run::{
    account_of, capture_failed, captured, diff_detected, diff_to_apply, enter, finished,
    run_to_begin, sweep, targets_failed, wanted, ApplyOutcome, CaptureFailure, CaptureStep,
    Stopped, StoppedView,
};
use crate::share_sync::scan;
use crate::share_sync::snapshot::{CapturedShare, ScanCache, ShareSnapshot};
use crate::share_sync::subtasks;
use crate::share_sync::subtasks::ShareSyncSubtask;
use crate::text;
use crate::transfer::SharedFileInfo;

verus! {

/// What a run waits for.
#[derive(Debug, Clone, Copy, PartialEq, Eq, Structural)]
pub enum RunPhase {
    FindingAccount,
    Storing,
    Sweeping,
    Capturing,
    Comparing,
    /// The local targets could not be looked at; the error is to be shown.
    Failing,
    Applying,
    Over,
}

/// What is set for a run.
#[derive(Debug, Clone, Copy, PartialEq, Eq, Structural)]
pub struct RunSettings {
    /// How often the capture is tried again.
    pub max_retries: u32,
    /// The first delay between two captures in milliseconds.
    pub base_ms: u64,
    /// How many failures in a row make a link dead.
    pub threshold: u32,
    /// Whether whole directories are copied.
    pub whole_dirs: bool,
}

/// A run of a subscription.
pub struct SyncRun {
    /// The subscription.
    pub id: String,
    /// The id that the run was announced under, where it was.
    pub given: Option<String>,
    pub settings: RunSettings,
    pub phase: RunPhase,
    pub sub: Option<ShareSubscription>,
    pub run_id: String,
    /// How often the capture has failed.
    pub attempt: u32,
    /// What was captured.
    pub taken: Option<(CapturedShare, ShareSnapshot)>,
    /// Why the local targets could not be looked at.
    pub failed: Option<ShareSyncError>,
}

/// What shall be done next for a run.
pub enum RunAsk {
    /// Find out what the account has.
    FindAccount { owner_uid: u64 },
    /// Store the run.
    StoreRun { run: NewRun },
    /// List the tasks of the subscription.
    ListRows,
    /// Wait so many milliseconds, then capture the share; `cache` holds what this run has listed
    /// before.
    Capture { after_ms: u64, cache: ScanCache },
    /// Store the captured snapshot for the run, a failure of which is passed over; compare it
    /// with the last one, and look at the local targets.
    Compare,
    /// Show the error of the run.
    ShowError,
    /// Carry out what differs: with `whole_dirs` directory by directory, each submitted as a
    /// whole, else file by file.
    Apply { found: ShareDiff, whole_dirs: bool },
    /// The run is over.
    Done { result: Result<ApplyOutcome, ShareSyncError> },
}

/// What shall be done for a run: the effects first, then what is asked for.
pub struct RunAction {
    pub effects: Vec<Effect>,
    pub ask: RunAsk,
}

/// The action asks for something and has these effects.
pub open spec fn has_effects(a: RunAction, effects: Seq<EffectView>) -> bool {
    events::effect_views(a.effects@) == effects
}

/// The action stops the run.
pub open spec fn stops(a: RunAction, s: StoppedView) -> bool {
    &&& has_effects(a, s.effects)
    &&& a.ask matches RunAsk::Done { result: Err(e) } && e@ == s.error
}

/// The manager once the run was left.
pub open spec fn left(st: manager::ManagerState, id: Seq<char>) -> manager::ManagerState {
    manager::ManagerState { running: st.running.remove(id), ..st }
}

/// The manager once the run was entered.
pub open spec fn entered(st: manager::ManagerState, id: Seq<char>) -> manager::ManagerState {
    manager::ManagerState { running: st.running.insert(id), ..st }
}

fn stop(s: Stopped) -> (r: RunAction)
    ensures
        stops(r, s@),
{
    RunAction { effects: s.effects, ask: RunAsk::Done { result: Err(s.error) } }
}

fn only(ask: RunAsk) -> (r: RunAction)
    ensures
        r.ask == ask,
        has_effects(r, Seq::empty()),
{
    RunAction { effects: no_effects(), ask }
}

impl SyncRun {
    /// The run has what its phase needs.
    pub open spec fn wf(self) -> bool {
        &&& self.phase == RunPhase::FindingAccount || self.phase == RunPhase::Over
            || self.sub is Some
        &&& self.phase == RunPhase::FindingAccount ==> self.sub is Some
        &&& self.phase == RunPhase::Comparing || self.phase == RunPhase::Failing || self.phase
            == RunPhase::Applying ==> self.taken is Some
        &&& self.phase == RunPhase::Failing ==> self.failed is Some
    }

    /// The account of the subscription.
    pub open spec fn owner(self) -> u64 {
        match self.sub {
            Some(s) => s.owner_uid,
            None => 0,
        }
    }

    /// What was captured.
    pub open spec fn shot(self) -> ShareSnapshot {
        (self.taken->0).1
    }

    fn owner_uid(&self) -> (r: u64)
        ensures
            r == self.owner(),
    {
        match &self.sub {
            Some(s) => s.owner_uid,
            None => 0,
        }
    }

    /// Begins a run. `given` is its id where it was announced.
    pub fn begin(
        manager: &mut ShareSyncManager,
        id: &str,
        given: Option<String>,
        settings: RunSettings,
        now: i64,
    ) -> (r: (SyncRun, RunAction))
        ensures
            r.0.wf(),
            r.0.id@ == id@,
            r.0.given == given,
            r.0.settings == settings,
            r.0.attempt == 0,
            ({
                let st = old(manager)@;
                let name = text::opt_text(given);
                if st.running.contains(id@) {
                    &&& r.0.phase == RunPhase::Over
                    &&& final(manager)@ == st
                    &&& stops(
                        r.1,
                        (StoppedView {
                            error: ErrorView::AlreadyRunning(id@),
                            effects: run::refusal(
                                name,
                                id@,
                                if st.subs.contains_key(id@) {
                                    st.subs[id@].owner_uid
                                } else {
                                    0
                                },
                                "已有同步任务在执行，已取消本次触发"@,
                                now,
                            ),
                        }),
                    )
                } else {
                    match run::not_wanted(st, id@, name, now) {
                        Some(s) => {
                            &&& r.0.phase == RunPhase::Over
                            &&& final(manager)@ == st
                            &&& stops(r.1, s)
                        },
                        None => {
                            &&& r.0.phase == RunPhase::FindingAccount
                            &&& r.0.sub matches Some(sub) && sub@ == st.subs[id@]
                            &&& final(manager)@ == entered(st, id@)
                            &&& has_effects(r.1, Seq::empty())
                            &&& r.1.ask == (RunAsk::FindAccount {
                                owner_uid: st.subs[id@].owner_uid,
                            })
                        },
                    }
                }
            }),
    {
        let ghost st = manager@;
        let mut run = SyncRun {
            id: id.to_owned(),
            given,
            settings,
            phase: RunPhase::Over,
            sub: None,
            run_id: String::new(),
            attempt: 0,
            taken: None,
            failed: None,
        };
        match enter(manager, id, &run.given, now) {
            Ok(_) => {},
            Err(s) => {
                assert(st.running.insert(id@) =~= st.running);
                return (run, stop(s));
            },
        }
        match wanted(manager, id, &run.given, now) {
            Ok(sub) => {
                let owner_uid: u64 = sub.owner_uid;
                run.phase = RunPhase::FindingAccount;
                run.sub = Some(sub);
                (run, only(RunAsk::FindAccount { owner_uid }))
            },
            Err(s) => {
                manager.leave_run(id);
                assert(st.running.insert(id@).remove(id@) =~= st.running);
                (run, stop(s))
            },
        }
    }

    /// Goes on once it is known what the account has.
    pub fn account_found(
        &mut self,
        manager: &mut ShareSyncManager,
        has_netdisk: bool,
        has_transfer: bool,
        now: i64,
    ) -> (r: RunAction)
        requires
            old(self).wf(),
            old(self).phase == RunPhase::FindingAccount,
        ensures
            final(self).wf(),
            ({
                let b = *old(self);
                let name = text::opt_text(b.given);
                match run::no_account(b.owner(), b.id@, name, has_netdisk, has_transfer, now) {
                    Some(s) => {
                        &&& *final(self) == (SyncRun { phase: RunPhase::Over, ..b })
                        &&& final(manager)@ == left(old(manager)@, b.id@)
                        &&& stops(r, s)
                    },
                    None => {
                        &&& final(manager)@ == old(manager)@
                        &&& has_effects(r, Seq::empty())
                        &&& *final(self) == (SyncRun {
                            run_id: final(self).run_id,
                            phase: final(self).phase,
                            ..b
                        })
                        &&& match name {
                            Some(n) => {
                                &&& final(self).run_id@ == n
                                &&& final(self).phase == RunPhase::Sweeping
                                &&& r.ask == RunAsk::ListRows
                            },
                            None => {
                                &&& final(self).run_id@.len() == 36
                                &&& final(self).phase == RunPhase::Storing
                                &&& r.ask matches RunAsk::StoreRun { run } && run.run_id@
                                    == final(self).run_id@ && run.subscription_id@ == b.id@
                                    && run.owner_uid == b.owner()
                            },
                        }
                    },
                }
            }),
    {
        let owner_uid: u64 = self.owner_uid();
        match account_of(
            owner_uid,
            self.id.as_str(),
            &self.given,
            has_netdisk,
            has_transfer,
            now,
        ) {
            Ok(_) => {},
            Err(s) => {
                self.phase = RunPhase::Over;
                manager.leave_run(self.id.as_str());
                return stop(s);
            },
        }
        match run_to_begin(&self.given, self.id.as_str(), owner_uid) {
            Ok(run_id) => {
                self.run_id = run_id;
                self.phase = RunPhase::Sweeping;
                only(RunAsk::ListRows)
            },
            Err(run) => {
                self.run_id = run.run_id.clone();
                self.phase = RunPhase::Storing;
                only(RunAsk::StoreRun { run })
            },
        }
    }

    /// Goes on once a new run was stored, or was not.
    pub fn run_stored(&mut self, manager: &mut ShareSyncManager, reply: Result<(), ShareSyncError>) -> (r:
        RunAction)
        requires
            old(self).wf(),
            old(self).phase == RunPhase::Storing,
        ensures
            final(self).wf(),
            match reply {
                Ok(_) => {
                    &&& *final(self) == (SyncRun { phase: RunPhase::Sweeping, ..*old(self) })
                    &&& final(manager)@ == old(manager)@
                    &&& has_effects(
                        r,
                        seq![
                            EffectView::Publish {
                                event: events::EventView::RunStarted {
                                    run_id: old(self).run_id@,
                                    subscription_id: old(self).id@,
                                    owner_uid: old(self).owner(),
                                },
                            },
                        ],
                    )
                    &&& r.ask == RunAsk::ListRows
                },
                Err(e) => {
                    &&& *final(self) == (SyncRun { phase: RunPhase::Over, ..*old(self) })
                    &&& final(manager)@ == left(old(manager)@, old(self).id@)
                    &&& stops(r, (StoppedView { error: e@, effects: Seq::empty() }))
                },
            },
    {
        match reply {
            Ok(_) => {
                let mut effects = no_effects();
                push_effect(
                    &mut effects,
                    Effect::Publish {
                        event: events::ShareSyncEvent::RunStarted {
                            run_id: self.run_id.clone(),
                            subscription_id: self.id.clone(),
                            owner_uid: self.owner_uid(),
                        },
                    },
                );
                assert(events::effect_views(effects@) =~= seq![
                    EffectView::Publish {
                        event: events::EventView::RunStarted {
                            run_id: self.run_id@,
                            subscription_id: self.id@,
                            owner_uid: self.owner(),
                        },
                    },
                ]);
                self.phase = RunPhase::Sweeping;
                RunAction { effects, ask: RunAsk::ListRows }
            },
            Err(e) => {
                self.phase = RunPhase::Over;
                manager.leave_run(self.id.as_str());
                stop(Stopped { error: e, effects: no_effects() })
            },
        }
    }

    /// Goes on with the tasks that the subscription has: what an earlier run left is cleared.
    pub fn rows_listed(&mut self, rows: &Vec<ShareSyncSubtask>) -> (r: RunAction)
        requires
            old(self).wf(),
            old(self).phase == RunPhase::Sweeping,
        ensures
            final(self).wf(),
            *final(self) == (SyncRun { phase: RunPhase::Capturing, ..*old(self) }),
            has_effects(
                r,
                if subtasks::unfinished(subtasks::row_views(rows@)).len() > 0 {
                    seq![
                        EffectView::DeleteTasks {
                            backup_config_id: subtasks::backup_config_of(old(self).id@),
                            owner_uid: old(self).owner(),
                        },
                    ]
                } else {
                    Seq::empty()
                },
            ),
            r.ask matches RunAsk::Capture { after_ms, cache } && after_ms == 0 && cache@
                == Map::<Seq<char>, Vec<SharedFileInfo>>::empty(),
    {
        let effects = sweep(self.id.as_str(), self.owner_uid(), rows);
        self.phase = RunPhase::Capturing;
        RunAction { effects, ask: RunAsk::Capture { after_ms: 0, cache: ScanCache::new() } }
    }

    /// Goes on once the share was captured, or was not. `kept` is what the capture has kept of its
    /// listings. A failure that passes is tried again, and the next capture gets what this one
    /// has kept; after 64 failures in a row there is no delay left to double.
    pub fn capture_done(
        &mut self,
        manager: &mut ShareSyncManager,
        reply: Result<(CapturedShare, ShareSnapshot), CaptureFailure>,
        kept: ScanCache,
        now: i64,
    ) -> (r: RunAction)
        requires
            old(self).wf(),
            old(self).phase == RunPhase::Capturing,
            old(self).attempt < 64,
        ensures
            final(self).wf(),
            ({
                let b = *old(self);
                let st = old(manager)@;
                match reply {
                    Ok(t) => {
                        &&& *final(self) == (SyncRun {
                            phase: RunPhase::Comparing,
                            taken: final(self).taken,
                            ..b
                        })
                        &&& final(self).taken matches Some(own) && own.0 == t.0
                            && own.1.subscription_id@ == b.id@ && own.1 == (ShareSnapshot {
                            subscription_id: own.1.subscription_id,
                            ..t.1
                        })
                        &&& final(manager)@ == manager::failure_cleared(st, b.id@).0
                        &&& has_effects(r, manager::failure_cleared(st, b.id@).1)
                        &&& r.ask == RunAsk::Compare
                    },
                    Err(f) => if f.may_pass && b.attempt < b.settings.max_retries {
                        &&& *final(self) == (SyncRun { attempt: (b.attempt + 1) as u32, ..b })
                        &&& final(manager)@ == st
                        &&& has_effects(r, Seq::empty())
                        &&& r.ask matches RunAsk::Capture { after_ms, cache } && after_ms
                            == scan::backoff(b.settings.base_ms, b.attempt as nat) && cache
                            == kept
                    } else {
                        let noted = if f.link_invalid {
                            manager::failure_noted(st, b.id@, f.text@, b.settings.threshold)
                        } else {
                            (st, Seq::empty())
                        };
                        &&& *final(self) == (SyncRun { phase: RunPhase::Over, ..b })
                        &&& final(manager)@ == left(noted.0, b.id@)
                        &&& stops(
                            r,
                            (StoppedView {
                                error: f.error@,
                                effects: run::failure(
                                    b.run_id@,
                                    b.id@,
                                    b.owner(),
                                    run::stage_text(f.stage) + ": "@ + f.text@,
                                    now,
                                ) + noted.1,
                            }),
                        )
                    },
                }
            }),
    {
        match reply {
            Ok(t) => {
                let (share, shot) = t;
                let (own, effects) = captured(manager, self.id.as_str(), shot);
                self.taken = Some((share, own));
                self.phase = RunPhase::Comparing;
                RunAction { effects, ask: RunAsk::Compare }
            },
            Err(f) => {
                let owner_uid: u64 = self.owner_uid();
                match capture_failed(
                    manager,
                    self.run_id.as_str(),
                    self.id.as_str(),
                    owner_uid,
                    f,
                    self.attempt,
                    self.settings.max_retries,
                    self.settings.base_ms,
                    self.settings.threshold,
                    now,
                ) {
                    CaptureStep::Retry { after_ms } => {
                        self.attempt = self.attempt + 1;
                        only(RunAsk::Capture { after_ms, cache: kept })
                    },
                    CaptureStep::GiveUp(s) => {
                        self.phase = RunPhase::Over;
                        manager.leave_run(self.id.as_str());
                        stop(s)
                    },
                }
            },
        }
    }

    /// Goes on with the difference that was found: what is missing or damaged in the local
    /// targets is added to it. `on_disk` holds, for each item that was captured, the size of its
    /// file in each local target.
    pub fn compared(
        &mut self,
        prev: Option<&ShareSnapshot>,
        found: ShareDiff,
        on_disk: &Vec<Vec<Option<u64>>>,
    ) -> (r: RunAction)
        requires
            old(self).wf(),
            old(self).phase == RunPhase::Comparing,
            on_disk@.len() == old(self).shot().items@.len(),
        ensures
            final(self).wf(),
            exists|d: Result<ShareDiff, ShareSyncError>|
                #[trigger] diff::is_augmented(
                    d,
                    old(self).sub->0.targets@,
                    prev,
                    old(self).shot(),
                    found,
                    on_disk@,
                ) && compared_step(*old(self), d, *final(self), r),
    {
        let ghost before = *self;
        let augmented = match (&self.sub, &self.taken) {
            (Some(sub), Some(t)) => augment_diff_with_local_target_state(
                &sub.targets,
                prev,
                &t.1,
                found,
                on_disk,
            ),
            _ => Ok(found),
        };
        assert(diff::is_augmented(
            augmented,
            before.sub->0.targets@,
            prev,
            before.shot(),
            found,
            on_disk@,
        ));
        let ghost d = augmented;
        match augmented {
            Ok(d) => {
                let mut effects = no_effects();
                let event = diff_detected(
                    self.run_id.as_str(),
                    self.id.as_str(),
                    self.owner_uid(),
                    &d,
                );
                push_effect(&mut effects, Effect::Publish { event });
                assert(events::effect_views(effects@) =~= seq![
                    EffectView::Publish { event: event@ },
                ]);
                let whole_dirs = self.settings.whole_dirs;
                let applied = match &self.taken {
                    Some(t) => diff_to_apply(d, &t.1, whole_dirs),
                    None => d,
                };
                self.phase = RunPhase::Applying;
                let r = RunAction { effects, ask: RunAsk::Apply { found: applied, whole_dirs } };
                assert(compared_step(before, augmented, *self, r));
                r
            },
            Err(e) => {
                self.failed = Some(e);
                self.phase = RunPhase::Failing;
                let r = only(RunAsk::ShowError);
                assert(compared_step(before, augmented, *self, r));
                r
            },
        }
    }

    /// Stops a run whose local targets could not be looked at; `shown` is its error as it is
    /// shown.
    pub fn error_shown(&mut self, manager: &mut ShareSyncManager, shown: &str, now: i64) -> (r:
        RunAction)
        requires
            old(self).wf(),
            old(self).phase == RunPhase::Failing,
        ensures
            final(self).wf(),
            *final(self) == (SyncRun { phase: RunPhase::Over, failed: None, ..*old(self) }),
            final(manager)@ == left(old(manager)@, old(self).id@),
            stops(
                r,
                (StoppedView {
                    error: old(self).failed->0@,
                    effects: run::failure(
                        old(self).run_id@,
                        old(self).id@,
                        old(self).owner(),
                        "本地目标校验失败: "@ + shown@,
                        now,
                    ),
                }),
            ),
    {
        self.phase = RunPhase::Over;
        manager.leave_run(self.id.as_str());
        let error = match self.failed.take() {
            Some(e) => e,
            None => ShareSyncError::Internal(String::new()),
        };
        let owner_uid: u64 = self.owner_uid();
        stop(
            targets_failed(self.run_id.as_str(), self.id.as_str(), owner_uid, error, shown, now),
        )
    }

    /// Ends a run, with what came of carrying out the difference, after so many milliseconds.
    pub fn applied(
        &mut self,
        manager: &mut ShareSyncManager,
        outcome: ApplyOutcome,
        duration_ms: u64,
    ) -> (r: RunAction)
        requires
            old(self).wf(),
            old(self).phase == RunPhase::Applying,
        ensures
            final(self).wf(),
            *final(self) == (SyncRun { phase: RunPhase::Over, ..*old(self) }),
            final(manager)@ == left(old(manager)@, old(self).id@),
            has_effects(
                r,
                run::ending(outcome, old(self).id@, old(self).owner(), duration_ms),
            ),
            r.ask matches RunAsk::Done { result: Ok(o) } && o == outcome,
    {
        let effects = finished(&outcome, self.id.as_str(), self.owner_uid(), duration_ms);
        self.phase = RunPhase::Over;
        manager.leave_run(self.id.as_str());
        RunAction { effects, ask: RunAsk::Done { result: Ok(outcome) } }
    }
}

/// The step that a run takes with the difference, or with the error of looking for it.
pub open spec fn compared_step(
    before: SyncRun,
    d: Result<ShareDiff, ShareSyncError>,
    after: SyncRun,
    r: RunAction,
) -> bool {
    match d {
        Ok(found) => {
            &&& after == (SyncRun { phase: RunPhase::Applying, ..before })
            &&& r.ask matches RunAsk::Apply { found: applied, whole_dirs } && whole_dirs
                == before.settings.whole_dirs && run::is_applied(
                applied,
                found,
                before.shot(),
                whole_dirs,
            )
            &&& has_effects(
                r,
                seq![
                    EffectView::Publish {
                        event: events::EventView::DiffDetected {
                            run_id: before.run_id@,
                            subscription_id: before.id@,
                            added: run::files_in(found.added@).len() as usize,
                            modified: run::changed_files_in(found.modified@).len() as usize,
                            removed: run::files_in(found.removed@).len() as usize,
                            owner_uid: before.owner(),
                        },
                    },
                ],
            )
        },
        Err(e) => {
            &&& after == (SyncRun { phase: RunPhase::Failing, failed: Some(e), ..before })
            &&& has_effects(r, Seq::empty())
            &&& r.ask == RunAsk::ShowError
        },
    }
}

/// What was found changed is announced with its counts and carried out; where the shares could
/// not be compared nothing is carried out and nothing is announced yet.
pub proof fn law_what_was_found_is_carried_out(
    before: SyncRun,
    d: Result<ShareDiff, ShareSyncError>,
    after: SyncRun,
    r: RunAction,
)
    requires
        compared_step(before, d, after, r),
    ensures
        r.ask is Apply <==> d is Ok,
        after.id == before.id && after.run_id == before.run_id && after.sub == before.sub,
        d is Err ==> after.failed is Some && r.effects@.len() == 0,
        d matches Ok(found) ==> r.effects@.len() == 1 && (r.effects@[0]@ matches EffectView::Publish {
            event: events::EventView::DiffDetected {
                run_id,
                subscription_id,
                added,
                modified,
                removed,
                ..
            },
        } && run_id == before.run_id@ && subscription_id == before.id@ && added
            == run::files_in(found.added@).len() as usize && modified == run::changed_files_in(
            found.modified@,
        ).len() as usize && removed == run::files_in(found.removed@).len() as usize),
{
    assert(events::effect_views(r.effects@).len() == r.effects@.len());
    if d is Ok {
        assert(events::effect_views(r.effects@)[0] == r.effects@[0]@);
    }
}

/// A run that is entered or left changes which subscriptions run, and no other subscription.
pub proof fn law_run_is_entered_and_left(
    st: manager::ManagerState,
    id: Seq<char>,
    other: Seq<char>,
)
    ensures
        entered(st, id).running.contains(id),
        !left(st, id).running.contains(id),
        other != id ==> (entered(st, id).running.contains(other) <==> st.running.contains(other))
            && (left(st, id).running.contains(other) <==> st.running.contains(other)),
        !st.running.contains(id) ==> left(entered(st, id), id).running =~= st.running,
        entered(st, id).subs == st.subs && left(st, id).subs == st.subs,
{
}

} // verus!
