//! Taking up runs that a restart has interrupted.
use vstd::prelude::*;

use crate::numbers;
use crate::numbers::signed_decimal;
use crate::share_sync::events;
use crate::share_sync::events::{no_effects, push_effect, Effect, EffectView};
use crate::share_sync::manager;
use crate::share_sync::manager::ShareSyncManager;
use crate::share_sync::run::RunItem;
use crate::share_sync::subtasks;
use crate::share_sync::subtasks::{
    is_terminal_run_item_status, share_sync_backup_config_id, unfinished_downloads,
    ShareSyncSubtask,
};
use crate::share_sync::wait;
use crate::sorting;
use crate::sorting::sorted_unique;
use crate::text;
use crate::text::{concat3, copy_texts, same};
use crate::time;
use crate::time::{Duration, Instant};

verus! {

/// How many old interrupted runs of a subscription are looked at.
pub const STALE_INTERRUPTED_PER_SUB: usize = 3;

/// Seconds before runs are taken up after a start.
pub const RESUME_INITIAL_DELAY_SECS: u64 = 5;

/// How often it is tried whether an account is ready.
pub const READY_MAX_ATTEMPTS: u32 = 12;

/// Seconds between two such tries.
pub const READY_RETRY_DELAY_SECS: u64 = 10;

/// Seconds between two looks at a run that was taken up.
pub const POLL_INTERVAL_SECS: u64 = 2;

/// Seconds between two attempts to wake its downloads.
pub const RESUME_INTERVAL_SECS: u64 = 10;

// ---------------------------------------------------------------------------
// The runs
// ---------------------------------------------------------------------------
/// A run as it is stored.
#[derive(Debug)]
pub struct RunRecord {
    pub run_id: String,
    pub subscription_id: String,
}

/// The interrupted runs of a subscription.
#[derive(Debug)]
pub struct ResumeTarget {
    /// Those that this restart has interrupted. They are run anew where they cannot be
    /// taken up.
    pub fresh: Vec<String>,
    /// Those that an earlier one has interrupted. They are taken up or left alone.
    pub stale: Vec<String>,
}

/// The runs of a subscription among the records, in their order.
pub open spec fn runs_of(records: Seq<RunRecord>, id: Seq<char>) -> Seq<Seq<char>>
    decreases records.len(),
{
    if records.len() == 0 {
        Seq::empty()
    } else {
        let front = runs_of(records.drop_last(), id);
        if records.last().subscription_id@ == id {
            front.push(records.last().run_id@)
        } else {
            front
        }
    }
}

/// The runs of a subscription among the records, in their order, without those in `but`.
pub open spec fn other_runs_of(
    records: Seq<RunRecord>,
    id: Seq<char>,
    but: Seq<Seq<char>>,
) -> Seq<Seq<char>>
    decreases records.len(),
{
    if records.len() == 0 {
        Seq::empty()
    } else {
        let front = other_runs_of(records.drop_last(), id, but);
        let last = records.last();
        if last.subscription_id@ == id && !but.contains(last.run_id@) {
            front.push(last.run_id@)
        } else {
            front
        }
    }
}

/// The subscriptions of the records.
pub open spec fn subscriptions_of(records: Seq<RunRecord>) -> Seq<Seq<char>> {
    records.map_values(|r: RunRecord| r.subscription_id@)
}

/// Whether `target` lists the interrupted runs of a subscription.
pub open spec fn is_target(
    target: ResumeTarget,
    id: Seq<char>,
    interrupted: Seq<RunRecord>,
    stale: Seq<RunRecord>,
) -> bool {
    &&& text::texts(target.fresh@) == runs_of(interrupted, id)
    &&& text::texts(target.stale@) == other_runs_of(stale, id, runs_of(interrupted, id))
}

/// The ids of the targets.
pub open spec fn target_ids(targets: Seq<(String, ResumeTarget)>) -> Seq<Seq<char>> {
    targets.map_values(|t: (String, ResumeTarget)| t.0@)
}

/// The targets are the subscriptions with interrupted runs, in the order of their ids, each with
/// its runs.
pub open spec fn are_targets(
    targets: Seq<(String, ResumeTarget)>,
    interrupted: Seq<RunRecord>,
    stale: Seq<RunRecord>,
) -> bool {
    &&& sorting::strictly_sorted(target_ids(targets))
    &&& target_ids(targets).to_set() == (subscriptions_of(interrupted) + subscriptions_of(
        stale,
    )).to_set()
    &&& forall|i: int|
        0 <= i < targets.len() ==> is_target(
            (#[trigger] targets[i]).1,
            targets[i].0@,
            interrupted,
            stale,
        )
}

fn gather_runs(records: &Vec<RunRecord>, id: &str) -> (r: Vec<String>)
    ensures
        text::texts(r@) == runs_of(records@, id@),
{
    let mut r: Vec<String> = Vec::new();
    let mut i: usize = 0;
    assert(text::texts(r@) =~= runs_of(records@.take(0), id@));
    while i < records.len()
        invariant
            i <= records@.len(),
            text::texts(r@) == runs_of(records@.take(i as int), id@),
        decreases records@.len() - i,
    {
        let ghost before = text::texts(r@);
        proof {
            assert(records@.take(i + 1).drop_last() =~= records@.take(i as int));
            assert(records@.take(i + 1).last() == records@[i as int]);
        }
        if same(records[i].subscription_id.as_str(), id) {
            r.push(records[i].run_id.clone());
            assert(text::texts(r@) =~= before.push(records@[i as int].run_id@));
        }
        i += 1;
    }
    assert(records@.take(i as int) =~= records@);
    r
}

fn holds(v: &Vec<String>, s: &str) -> (r: bool)
    ensures
        r == text::texts(v@).contains(s@),
{
    let ghost t = text::texts(v@);
    let mut i: usize = 0;
    while i < v.len()
        invariant
            i <= v@.len(),
            t == text::texts(v@),
            forall|k: int| 0 <= k < i ==> t[k] != s@,
        decreases v@.len() - i,
    {
        assert(t[i as int] == v@[i as int]@);
        if same(v[i].as_str(), s) {
            return true;
        }
        i += 1;
    }
    false
}

fn gather_other_runs(records: &Vec<RunRecord>, id: &str, but: &Vec<String>) -> (r: Vec<String>)
    ensures
        text::texts(r@) == other_runs_of(records@, id@, text::texts(but@)),
{
    let ghost skip = text::texts(but@);
    let mut r: Vec<String> = Vec::new();
    let mut i: usize = 0;
    assert(text::texts(r@) =~= other_runs_of(records@.take(0), id@, skip));
    while i < records.len()
        invariant
            i <= records@.len(),
            skip == text::texts(but@),
            text::texts(r@) == other_runs_of(records@.take(i as int), id@, skip),
        decreases records@.len() - i,
    {
        let ghost before = text::texts(r@);
        proof {
            assert(records@.take(i + 1).drop_last() =~= records@.take(i as int));
            assert(records@.take(i + 1).last() == records@[i as int]);
        }
        if same(records[i].subscription_id.as_str(), id) && !holds(
            but,
            records[i].run_id.as_str(),
        ) {
            r.push(records[i].run_id.clone());
            assert(text::texts(r@) =~= before.push(records@[i as int].run_id@));
        }
        i += 1;
    }
    assert(records@.take(i as int) =~= records@);
    r
}

fn push_subscriptions(ids: &mut Vec<String>, records: &Vec<RunRecord>)
    ensures
        text::texts(final(ids)@) == text::texts(old(ids)@) + subscriptions_of(records@),
{
    let ghost start = text::texts(ids@);
    let ghost all = subscriptions_of(records@);
    let mut i: usize = 0;
    assert(start + all.take(0) =~= start);
    while i < records.len()
        invariant
            i <= records@.len(),
            all == subscriptions_of(records@),
            text::texts(ids@) == start + all.take(i as int),
        decreases records@.len() - i,
    {
        let ghost before = text::texts(ids@);
        ids.push(records[i].subscription_id.clone());
        i += 1;
        proof {
            assert(all[i - 1] == records@[i - 1].subscription_id@);
            assert(text::texts(ids@) =~= before.push(all[i - 1]));
            assert(before.push(all[i - 1]) =~= start + all.take(i as int));
        }
    }
    assert(all.take(i as int) =~= all);
}

/// The interrupted runs by subscription, in the order of the subscriptions' ids.
pub fn resume_targets(interrupted: &Vec<RunRecord>, stale: &Vec<RunRecord>) -> (r: Vec<
    (String, ResumeTarget),
>)
    ensures
        are_targets(r@, interrupted@, stale@),
{
    let mut ids: Vec<String> = Vec::new();
    assert(text::texts(ids@) =~= Seq::<Seq<char>>::empty());
    push_subscriptions(&mut ids, interrupted);
    push_subscriptions(&mut ids, stale);
    assert(text::texts(ids@) =~= subscriptions_of(interrupted@) + subscriptions_of(stale@));
    let sorted = sorted_unique(&ids);
    let mut r: Vec<(String, ResumeTarget)> = Vec::new();
    let mut i: usize = 0;
    while i < sorted.len()
        invariant
            i <= sorted@.len(),
            r@.len() == i,
            forall|k: int| 0 <= k < i ==> (#[trigger] r@[k]).0@ == sorted@[k]@,
            forall|k: int|
                0 <= k < i ==> is_target(
                    (#[trigger] r@[k]).1,
                    r@[k].0@,
                    interrupted@,
                    stale@,
                ),
        decreases sorted@.len() - i,
    {
        let fresh = gather_runs(interrupted, sorted[i].as_str());
        let old_ones = gather_other_runs(stale, sorted[i].as_str(), &fresh);
        r.push((sorted[i].clone(), ResumeTarget { fresh, stale: old_ones }));
        i += 1;
    }
    assert(target_ids(r@) =~= text::texts(sorted@));
    r
}

/// Which targets are taken up: those whose subscription is there and enabled.
pub open spec fn is_resumed(st: manager::ManagerState, id: Seq<char>) -> bool {
    st.subs.contains_key(id) && st.subs[id].enabled
}

/// Which targets are taken up: those whose subscription is there and enabled.
pub fn is_wanted(manager: &ShareSyncManager, id: &str) -> (r: bool)
    ensures
        r == is_resumed(manager@, id@),
{
    match manager.get_subscription(id) {
        Some(s) => s.enabled,
        None => false,
    }
}

/// The records of runs, none where they could not be read.
pub open spec fn records_of(read: Option<Vec<RunRecord>>) -> Seq<RunRecord> {
    match read {
        Some(v) => v@,
        None => Seq::empty(),
    }
}

/// The targets that are taken up after a start: none where that is switched off, else those whose
/// subscription is there and enabled. `interrupted` are the runs that this restart has
/// interrupted, `stale` those that an earlier one has; each is missing where it could not be read.
pub fn targets_to_resume(
    manager: &ShareSyncManager,
    resume_on_startup: bool,
    interrupted: Option<Vec<RunRecord>>,
    stale: Option<Vec<RunRecord>>,
) -> (r: Vec<(String, ResumeTarget)>)
    ensures
        exists|all: Seq<(String, ResumeTarget)>| #[trigger]
            are_targets(all, records_of(interrupted), records_of(stale)) && r@
                == if resume_on_startup {
                all.filter(|t: (String, ResumeTarget)| is_resumed(manager@, t.0@))
            } else {
                Seq::empty()
            },
{
    let fresh = match interrupted {
        Some(v) => v,
        None => Vec::new(),
    };
    let old_ones = match stale {
        Some(v) => v,
        None => Vec::new(),
    };
    let targets = resume_targets(&fresh, &old_ones);
    let ghost all = targets@;
    let ghost p = |t: (String, ResumeTarget)| is_resumed(manager@, t.0@);
    assert(fresh@ =~= records_of(interrupted));
    assert(old_ones@ =~= records_of(stale));
    let mut r: Vec<(String, ResumeTarget)> = Vec::new();
    if !resume_on_startup {
        return r;
    }
    proof {
        reveal(Seq::filter);
        assert(r@ =~= all.take(0).filter(p));
    }
    for target in it: targets
        invariant
            it.seq() == all,
            p == |t: (String, ResumeTarget)| is_resumed(manager@, t.0@),
            r@ == all.take(it.index() as int).filter(p),
    {
        let ghost k = it.index() as int;
        proof {
            reveal(Seq::filter);
            assert(all.take(k + 1).drop_last() =~= all.take(k));
        }
        if is_wanted(manager, target.0.as_str()) {
            r.push(target);
        }
    }
    assert(all.take(all.len() as int) =~= all);
    r
}

// ---------------------------------------------------------------------------
// Whether a run can be taken up
// ---------------------------------------------------------------------------
/// The transfer tasks of the items that have not ended.
pub open spec fn open_tasks(items: Seq<RunItem>) -> Seq<Seq<char>>
    decreases items.len(),
{
    if items.len() == 0 {
        Seq::empty()
    } else {
        let front = open_tasks(items.drop_last());
        let item = items.last();
        match item.transfer_task_id {
            Some(t) => if subtasks::is_final_item(item.status@) {
                front
            } else {
                front.push(t@)
            },
            None => front,
        }
    }
}

/// Whether a run can be taken up: its snapshot is there, so that it can end like any
/// other; some item with a transfer task has not ended; and the subscription has a download
/// that is not done.
pub open spec fn is_resumable(
    has_snapshot: bool,
    items: Seq<RunItem>,
    rows: Seq<subtasks::SubtaskView>,
) -> bool {
    has_snapshot && open_tasks(items).len() > 0 && subtasks::open_downloads(rows).len() > 0
}

/// The transfer tasks of a run that can be taken up, in order and each once. `items` and
/// `rows` are missing where they could not be had.
pub fn probe_resumable_run(
    has_snapshot: bool,
    items: Option<&Vec<RunItem>>,
    rows: Option<&Vec<ShareSyncSubtask>>,
) -> (r: Option<Vec<String>>)
    ensures
        match (items, rows) {
            (Some(its), Some(rs)) => match r {
                Some(ids) => is_resumable(has_snapshot, its@, subtasks::row_views(rs@))
                    && sorting::strictly_sorted(text::texts(ids@)) && text::texts(ids@).to_set()
                    == open_tasks(its@).to_set(),
                None => !is_resumable(has_snapshot, its@, subtasks::row_views(rs@)),
            },
            _ => r is None,
        },
{
    if !has_snapshot {
        return None;
    }
    match (items, rows) {
        (Some(its), Some(rs)) => {
            let mut ids: Vec<String> = Vec::new();
            let mut i: usize = 0;
            assert(text::texts(ids@) =~= open_tasks(its@.take(0)));
            while i < its.len()
                invariant
                    i <= its@.len(),
                    text::texts(ids@) == open_tasks(its@.take(i as int)),
                decreases its@.len() - i,
            {
                let ghost before = text::texts(ids@);
                proof {
                    assert(its@.take(i + 1).drop_last() =~= its@.take(i as int));
                    assert(its@.take(i + 1).last() == its@[i as int]);
                }
                if !is_terminal_run_item_status(its[i].status.as_str()) {
                    match &its[i].transfer_task_id {
                        Some(t) => {
                            ids.push(t.clone());
                            assert(text::texts(ids@) =~= before.push(t@));
                        },
                        None => {},
                    }
                }
                i += 1;
            }
            assert(its@.take(i as int) =~= its@);
            assert(text::texts(ids@).len() == ids@.len());
            if ids.len() == 0 {
                return None;
            }
            if unfinished_downloads(rs) == 0 {
                return None;
            }
            Some(sorted_unique(&ids))
        },
        _ => None,
    }
}

// ---------------------------------------------------------------------------
// Taking up
// ---------------------------------------------------------------------------
/// How to go on while an account is not ready.
#[derive(Debug, Clone, Copy, PartialEq, Eq, Structural)]
pub enum ReadyStep {
    /// The account is ready.
    Ready,
    /// Try again after `READY_RETRY_DELAY_SECS`.
    Retry,
    /// Leave the subscription to its polling, and go on after `READY_RETRY_DELAY_SECS`.
    GiveUp,
}

/// Goes on after try number `attempt`, counted from zero, found what the account has.
pub fn account_ready(attempt: u32, has_netdisk: bool, has_transfer: bool) -> (r: ReadyStep)
    ensures
        r == if has_netdisk && has_transfer {
            ReadyStep::Ready
        } else if attempt + 1 < READY_MAX_ATTEMPTS {
            ReadyStep::Retry
        } else {
            ReadyStep::GiveUp
        },
{
    if has_netdisk && has_transfer {
        ReadyStep::Ready
    } else if attempt < READY_MAX_ATTEMPTS - 1 {
        ReadyStep::Retry
    } else {
        ReadyStep::GiveUp
    }
}

/// The runs of a subscription in the order in which they are tried: the fresh ones first.
pub open spec fn trial_order(target: ResumeTarget) -> Seq<Seq<char>> {
    text::texts(target.fresh@) + text::texts(target.stale@)
}

/// The runs to try, the fresh ones first.
pub fn runs_to_try(target: &ResumeTarget) -> (r: Vec<String>)
    ensures
        text::texts(r@) == trial_order(*target),
{
    let mut r = copy_texts(&target.fresh);
    let mut more = copy_texts(&target.stale);
    r.append(&mut more);
    assert(text::texts(r@) =~= text::texts(target.fresh@) + text::texts(target.stale@));
    r
}

/// What is done where no run of a subscription could be taken up: nothing where only old
/// ones were interrupted, else the snapshots of the fresh ones and all tasks of the
/// subscription are deleted before it is run anew.
pub open spec fn clean_up(target: ResumeTarget, id: Seq<char>, owner_uid: u64) -> Seq<EffectView> {
    text::texts(target.fresh@).map_values(
        |run_id: Seq<char>| EffectView::DeleteSnapshot { run_id },
    ).push(
        EffectView::DeleteTasks { backup_config_id: subtasks::backup_config_of(id), owner_uid },
    )
}

/// What is done before a subscription is run anew; `None` where it is not, for only old
/// runs were interrupted: a start does not bring about a run that nobody asked for.
pub fn rerun(target: &ResumeTarget, id: &str, owner_uid: u64) -> (r: Option<Vec<Effect>>)
    ensures
        match r {
            Some(effects) => target.fresh@.len() > 0 && events::effect_views(effects@) == clean_up(
                *target,
                id@,
                owner_uid,
            ),
            None => target.fresh@.len() == 0,
        },
{
    if target.fresh.len() == 0 {
        return None;
    }
    let ghost all = text::texts(target.fresh@).map_values(
        |run_id: Seq<char>| EffectView::DeleteSnapshot { run_id },
    );
    let mut r = no_effects();
    let mut i: usize = 0;
    assert(all.take(0) =~= Seq::<EffectView>::empty());
    while i < target.fresh.len()
        invariant
            i <= target.fresh@.len(),
            all == text::texts(target.fresh@).map_values(
                |run_id: Seq<char>| EffectView::DeleteSnapshot { run_id },
            ),
            events::effect_views(r@) == all.take(i as int),
        decreases target.fresh@.len() - i,
    {
        push_effect(&mut r, Effect::DeleteSnapshot { run_id: target.fresh[i].clone() });
        i += 1;
        proof {
            assert(text::texts(target.fresh@)[i - 1] == target.fresh@[i - 1]@);
            assert(all.take(i as int) =~= all.take(i - 1).push(all[i - 1]));
        }
    }
    assert(all.take(i as int) =~= all);
    push_effect(
        &mut r,
        Effect::DeleteTasks { backup_config_id: share_sync_backup_config_id(id), owner_uid },
    );
    Some(r)
}

/// What is noted of a run that is taken up: it goes on, so that it is not taken for one
/// that was interrupted.
pub fn taken_up(run_id: &str) -> (r: Vec<Effect>)
    ensures
        events::effect_views(r@) == seq![EffectView::MarkRunRunning { run_id: run_id@ }],
{
    let mut r = no_effects();
    push_effect(&mut r, Effect::MarkRunRunning { run_id: run_id.to_owned() });
    assert(events::effect_views(r@) =~= seq![EffectView::MarkRunRunning { run_id: run_id@ }]);
    r
}

/// The wait for a run that was taken up.
#[derive(Debug, Clone, Copy, PartialEq, Eq, Structural)]
pub struct ResumedWait {
    pub started_at: Instant,
    pub hard_timeout: Option<Duration>,
    pub last_resume_at: Option<Instant>,
}

/// Whether a run that was taken up has taken too long.
pub open spec fn is_late(w: ResumedWait, now: Instant) -> bool {
    w.hard_timeout matches Some(cap) && time::span(w.started_at, now).nanos >= cap.nanos
}

/// Whether the downloads of a run that was taken up are to be woken.
pub open spec fn wakes(w: ResumedWait, now: Instant) -> bool {
    wait::is_due(w.last_resume_at, now, wait::seconds(RESUME_INTERVAL_SECS))
}

impl ResumedWait {
    /// Begins to wait.
    pub fn begin(started_at: Instant, hard_timeout: Option<Duration>) -> (r: ResumedWait)
        ensures
            r == (ResumedWait { started_at, hard_timeout, last_resume_at: None }),
    {
        ResumedWait { started_at, hard_timeout, last_resume_at: None }
    }

    /// Whether the run has taken too long; it is then ended as it stands.
    pub fn is_overdue(&self, now: Instant) -> (r: bool)
        ensures
            r == is_late(*self, now),
    {
        match self.hard_timeout {
            Some(cap) => now.duration_since(self.started_at).nanos >= cap.nanos,
            None => false,
        }
    }

    /// Whether the run's downloads are to be woken now, if there is a slot for one.
    pub fn wants_wake(&mut self, now: Instant) -> (r: bool)
        ensures
            r == wakes(*old(self), now),
            *final(self) == if r {
                ResumedWait { last_resume_at: Some(now), ..*old(self) }
            } else {
                *old(self)
            },
    {
        let every = Duration::from_secs(RESUME_INTERVAL_SECS);
        let due = match self.last_resume_at {
            Some(last) => now.duration_since(last).nanos >= every.nanos,
            None => true,
        };
        if due {
            self.last_resume_at = Some(now);
        }
        due
    }
}

/// Whether all downloads of a run that was taken up are done.
pub fn downloads_done(rows: &Vec<ShareSyncSubtask>) -> (r: bool)
    ensures
        r == (subtasks::open_downloads(subtasks::row_views(rows@)).len() == 0),
{
    unfinished_downloads(rows) == 0
}

// ---------------------------------------------------------------------------
// The file of an older version
// ---------------------------------------------------------------------------
/// Whether the file is to be read: the store is empty and the file is there.
pub fn wants_legacy_import(stored: usize, file_exists: bool) -> (r: bool)
    ensures
        r == (stored == 0 && file_exists),
{
    stored == 0 && file_exists
}

/// The extension that a file that cannot be read is set aside under.
pub fn corrupt_extension(now: i64) -> (r: String)
    ensures
        r@ == "corrupt."@ + numbers::signed_decimal_of(now as int) + ".json"@,
{
    let secs = signed_decimal(now);
    concat3("corrupt.", secs.as_str(), ".json")
}

/// The runs of a subscription are those that are recorded for it, in their order; the older ones
/// are those of them that are not among the newer.
pub proof fn law_runs_are_those_recorded_for_it(
    records: Seq<RunRecord>,
    r: RunRecord,
    id: Seq<char>,
    but: Seq<Seq<char>>,
)
    ensures
        runs_of(seq![], id).len() == 0,
        other_runs_of(seq![], id, but).len() == 0,
        runs_of(records.push(r), id) == if r.subscription_id@ == id {
            runs_of(records, id).push(r.run_id@)
        } else {
            runs_of(records, id)
        },
        other_runs_of(records.push(r), id, but) == if r.subscription_id@ == id && !but.contains(
            r.run_id@,
        ) {
            other_runs_of(records, id, but).push(r.run_id@)
        } else {
            other_runs_of(records, id, but)
        },
{
    assert(records.push(r).drop_last() =~= records);
}

/// The tasks that are left of a run are those of its items that have a task and have not ended.
pub proof fn law_tasks_left_of_a_run(items: Seq<RunItem>, x: RunItem)
    ensures
        open_tasks(seq![]).len() == 0,
        open_tasks(items.push(x)) == match x.transfer_task_id {
            Some(t) => if x.status@ != "completed"@ && x.status@ != "failed"@ && x.status@
                != "skipped"@ {
                open_tasks(items).push(t@)
            } else {
                open_tasks(items)
            },
            None => open_tasks(items),
        },
{
    assert(items.push(x).drop_last() =~= items);
}

/// A run is taken up again exactly where what it captured is there, an item of it is left, and a
/// download of its subscription is.
pub proof fn law_when_a_run_is_taken_up(
    has_snapshot: bool,
    items: Seq<RunItem>,
    rows: Seq<subtasks::SubtaskView>,
    row: subtasks::SubtaskView,
)
    ensures
        is_resumable(has_snapshot, items, rows) ==> has_snapshot && open_tasks(items).len() > 0,
        has_snapshot && open_tasks(items).len() > 0 && row.kind == "download"@
            && !subtasks::is_final(row.status) ==> is_resumable(has_snapshot, items, rows.push(row)),
        row.kind != "download"@ || subtasks::is_final(row.status) ==> is_resumable(
            has_snapshot,
            items,
            rows.push(row),
        ) == is_resumable(has_snapshot, items, rows),
        !is_resumable(has_snapshot, items, seq![]),
{
    reveal(Seq::filter);
    assert(rows.push(row).drop_last() =~= rows);
}

/// A subscription is resumed where it is there and enabled. Its newer runs are tried before its
/// older ones. Where none can be taken up, what the newer left is deleted, with its tasks.
pub proof fn law_how_a_subscription_is_resumed(
    st: manager::ManagerState,
    id: Seq<char>,
    target: ResumeTarget,
    owner_uid: u64,
    i: int,
)
    ensures
        is_resumed(st, id) <==> st.subs.contains_key(id) && st.subs[id].enabled,
        trial_order(target).len() == target.fresh@.len() + target.stale@.len(),
        0 <= i < target.fresh@.len() ==> trial_order(target)[i] == target.fresh@[i]@,
        0 <= i < target.stale@.len() ==> trial_order(target)[target.fresh@.len() + i]
            == target.stale@[i]@,
        clean_up(target, id, owner_uid).len() == target.fresh@.len() + 1,
        0 <= i < target.fresh@.len() ==> clean_up(target, id, owner_uid)[i] == (
        EffectView::DeleteSnapshot { run_id: target.fresh@[i]@ }),
        clean_up(target, id, owner_uid).last() == (EffectView::DeleteTasks {
            backup_config_id: "share-sync:"@ + id,
            owner_uid,
        }),
{
}

/// A resumed run is late once it has taken its whole time, if it has a limit; its paused downloads
/// are woken every ten seconds.
pub proof fn law_when_a_resumed_run_is_late(w: ResumedWait, now: Instant)
    requires
        w.started_at.nanos <= now.nanos,
        w.last_resume_at matches Some(t) ==> t.nanos <= now.nanos,
    ensures
        is_late(w, now) <==> (w.hard_timeout matches Some(cap) && now.nanos - w.started_at.nanos
            >= cap.nanos),
        wakes(w, now) <==> (w.last_resume_at matches Some(t) ==> now.nanos - t.nanos >= 10
            * time::NANOS_PER_SEC),
{
}

/// Each subscription of which a run was interrupted or is stale is taken up, once; none else is.
pub proof fn law_each_subscription_is_taken_up_once(
    targets: Seq<(String, ResumeTarget)>,
    interrupted: Seq<RunRecord>,
    stale: Seq<RunRecord>,
    i: int,
    j: int,
)
    requires
        are_targets(targets, interrupted, stale),
    ensures
        0 <= i < interrupted.len() ==> exists|k: int|
            0 <= k < targets.len() && (#[trigger] targets[k]).0@ == interrupted[i].subscription_id@,
        0 <= i < stale.len() ==> exists|k: int|
            0 <= k < targets.len() && (#[trigger] targets[k]).0@ == stale[i].subscription_id@,
        0 <= i < targets.len() ==> (exists|k: int|
            0 <= k < interrupted.len() && (#[trigger] interrupted[k]).subscription_id@
                == targets[i].0@) || (exists|k: int|
            0 <= k < stale.len() && (#[trigger] stale[k]).subscription_id@ == targets[i].0@),
        0 <= i < j < targets.len() ==> targets[i].0@ != targets[j].0@,
{
    let a = subscriptions_of(interrupted);
    let b = subscriptions_of(stale);
    let ids = target_ids(targets);
    if 0 <= i < interrupted.len() {
        let x = interrupted[i].subscription_id@;
        assert((a + b)[i] == x);
        assert((a + b).to_set().contains(x));
        assert(ids.to_set().contains(x));
        let k = choose|k: int| 0 <= k < ids.len() && ids[k] == x;
        assert(targets[k].0@ == x);
    }
    if 0 <= i < stale.len() {
        let x = stale[i].subscription_id@;
        assert((a + b)[a.len() + i] == x);
        assert((a + b).to_set().contains(x));
        assert(ids.to_set().contains(x));
        let k = choose|k: int| 0 <= k < ids.len() && ids[k] == x;
        assert(targets[k].0@ == x);
    }
    if 0 <= i < targets.len() {
        let x = targets[i].0@;
        assert(ids[i] == x);
        assert(ids.to_set().contains(x));
        assert((a + b).to_set().contains(x));
        let k = choose|k: int| 0 <= k < (a + b).len() && (a + b)[k] == x;
        if k < a.len() {
            assert(interrupted[k].subscription_id@ == x);
        } else {
            assert(stale[k - a.len()].subscription_id@ == x);
        }
    }
    if 0 <= i < j < targets.len() {
        assert(ids[i] == targets[i].0@ && ids[j] == targets[j].0@);
        sorting::lemma_lex_irreflexive(sorting::text_key(ids[i]));
    }
}

/// A subscription is taken up with its own runs: those that were interrupted, and apart from them
/// those that are stale.
pub proof fn law_subscription_is_taken_up_with_its_runs(
    targets: Seq<(String, ResumeTarget)>,
    interrupted: Seq<RunRecord>,
    stale: Seq<RunRecord>,
    i: int,
    k: int,
)
    requires
        are_targets(targets, interrupted, stale),
        0 <= i < targets.len(),
    ensures
        text::texts(targets[i].1.fresh@) == runs_of(interrupted, targets[i].0@),
        text::texts(targets[i].1.stale@) == other_runs_of(
            stale,
            targets[i].0@,
            runs_of(interrupted, targets[i].0@),
        ),
        0 <= k < interrupted.len() && interrupted[k].subscription_id@ == targets[i].0@
            ==> text::texts(targets[i].1.fresh@).contains(interrupted[k].run_id@),
{
    if 0 <= k < interrupted.len() && interrupted[k].subscription_id@ == targets[i].0@ {
        lemma_run_is_listed(interrupted, targets[i].0@, k);
    }
}

proof fn lemma_run_is_listed(records: Seq<RunRecord>, id: Seq<char>, k: int)
    requires
        0 <= k < records.len(),
        records[k].subscription_id@ == id,
    ensures
        runs_of(records, id).contains(records[k].run_id@),
    decreases records.len(),
{
    let init = records.drop_last();
    law_runs_are_those_recorded_for_it(init, records.last(), id, seq![]);
    assert(init.push(records.last()) =~= records);
    if k < init.len() {
        lemma_run_is_listed(init, id, k);
        let m = choose|m: int|
            0 <= m < runs_of(init, id).len() && runs_of(init, id)[m] == records[k].run_id@;
        assert(runs_of(records, id)[m] == records[k].run_id@);
    } else {
        assert(runs_of(records, id).last() == records[k].run_id@);
    }
}

} // verus!
