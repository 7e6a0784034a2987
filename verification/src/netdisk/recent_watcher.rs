//! Watching for files that appear on the disk.
//!
//! The service does not tell when something on the disk changes, so the newest entries are
//! listed again and again: more often while something new turns up, less often while
//! nothing does.
use std::collections::HashSet;

use vstd::prelude::*;
use vstd::std_specs::hash::*;

use crate::time::Duration;

verus! {

broadcast use vstd::std_specs::hash::group_hash_axioms;

/// How to watch.
#[derive(Debug, Clone, Copy, PartialEq, Eq, Structural)]
pub struct RecentWatcherConfig {
    /// How many entries are listed each time.
    pub top_n: u32,
    /// The time between two listings after something new has turned up.
    pub min_interval: Duration,
    /// The longest time between two listings.
    pub max_interval: Duration,
    /// Whether what the first listing finds is passed over in silence.
    pub silent_baseline: bool,
}

impl Default for RecentWatcherConfig {
    fn default() -> (r: Self)
        ensures
            r.top_n == 200,
            r.min_interval.nanos == 60_000_000_000u128,
            r.max_interval.nanos == 300_000_000_000u128,
            r.silent_baseline,
    {
        RecentWatcherConfig {
            top_n: 200,
            min_interval: Duration::from_secs(60),
            max_interval: Duration::from_secs(300),
            silent_baseline: true,
        }
    }
}

/// An entry of a listing.
#[derive(Debug)]
pub struct RecentFile {
    pub fs_id: u64,
    pub path: String,
    pub server_filename: String,
    pub size: u64,
    pub isdir: i32,
    /// Seconds since the Unix epoch.
    pub server_mtime: i64,
}

/// The news of an entry.
#[derive(Debug)]
pub struct RemoteFileChanged {
    pub event_id: u64,
    pub fs_id: u64,
    pub path: String,
    pub filename: String,
    pub size: u64,
    pub is_dir: bool,
    pub server_mtime: i64,
    pub account_uid: u64,
}

/// What a `RemoteFileChanged` tells.
#[verifier::ext_equal]
pub struct ChangeView {
    pub event_id: u64,
    pub fs_id: u64,
    pub path: Seq<char>,
    pub filename: Seq<char>,
    pub size: u64,
    pub is_dir: bool,
    pub server_mtime: i64,
    pub account_uid: u64,
}

impl View for RemoteFileChanged {
    type V = ChangeView;

    open spec fn view(&self) -> ChangeView {
        ChangeView {
            event_id: self.event_id,
            fs_id: self.fs_id,
            path: self.path@,
            filename: self.filename@,
            size: self.size,
            is_dir: self.is_dir,
            server_mtime: self.server_mtime,
            account_uid: self.account_uid,
        }
    }
}

/// What several pieces of news tell.
pub open spec fn change_views(v: Seq<RemoteFileChanged>) -> Seq<ChangeView> {
    v.map_values(|c: RemoteFileChanged| c@)
}

/// The number after a number; they begin anew after the last.
pub open spec fn next_id(n: u64) -> u64 {
    if n == u64::MAX {
        0
    } else {
        (n + 1) as u64
    }
}

/// The news of an entry under a number.
pub open spec fn news_of(f: RecentFile, event_id: u64, account_uid: u64) -> ChangeView {
    ChangeView {
        event_id,
        fs_id: f.fs_id,
        path: f.path@,
        filename: f.server_filename@,
        size: f.size,
        is_dir: f.isdir == 1,
        server_mtime: f.server_mtime,
        account_uid,
    }
}

/// What a watcher knows.
#[verifier::ext_equal]
pub struct WatcherState {
    pub owner_uid: u64,
    pub config: RecentWatcherConfig,
    /// Whether a listing was taken up.
    pub scanned: bool,
    /// The entries seen so far.
    pub seen: Set<u64>,
    pub running: bool,
    /// The number of the next piece of news.
    pub next_event_id: u64,
    /// The time before the next listing.
    pub interval: Duration,
}

/// The watcher after one of the entries, and the news of it: none where it was seen before.
/// Where nobody listens the news are lost.
pub open spec fn noticed(s: WatcherState, files: Seq<RecentFile>, heard: bool) -> (
    WatcherState,
    Seq<ChangeView>,
)
    decreases files.len(),
{
    if files.len() == 0 {
        (s, Seq::empty())
    } else {
        let (t, news) = noticed(s, files.drop_last(), heard);
        let f = files.last();
        if t.seen.contains(f.fs_id) {
            (t, news)
        } else if heard {
            (
                WatcherState {
                    seen: t.seen.insert(f.fs_id),
                    next_event_id: next_id(t.next_event_id),
                    ..t
                },
                news.push(news_of(f, t.next_event_id, t.owner_uid)),
            )
        } else {
            (WatcherState { seen: t.seen.insert(f.fs_id), ..t }, news)
        }
    }
}

/// The entries with those of a listing.
pub open spec fn all_seen(seen: Set<u64>, files: Seq<RecentFile>) -> Set<u64>
    decreases files.len(),
{
    if files.len() == 0 {
        seen
    } else {
        all_seen(seen, files.drop_last()).insert(files.last().fs_id)
    }
}

/// The watcher after a listing, and the news of it. The first listing, and no other, is passed
/// over in silence where it is to be.
pub open spec fn listed(s: WatcherState, files: Seq<RecentFile>, heard: bool) -> (
    WatcherState,
    Seq<ChangeView>,
) {
    let t = WatcherState { scanned: true, ..s };
    if !s.scanned && s.config.silent_baseline {
        (WatcherState { seen: all_seen(s.seen, files), ..t }, Seq::empty())
    } else {
        noticed(t, files, heard)
    }
}

/// Twice the time, or the longest where that is more.
pub open spec fn backed_off(current: Duration, max: Duration) -> Duration {
    Duration {
        nanos: if 2 * current.nanos <= max.nanos {
            (2 * current.nanos) as u128
        } else {
            max.nanos
        },
    }
}

/// The watcher after a listing was asked for, and the news of it; `None` where no answer came.
/// News bring the shortest interval; without any the intervals grow, and after a failure the
/// longest comes.
pub open spec fn polled(
    s: WatcherState,
    reply: Option<(i32, Seq<RecentFile>)>,
    heard: bool,
) -> (WatcherState, Seq<ChangeView>) {
    match reply {
        Some((errno, files)) => if errno == 0 {
            let (t, news) = listed(s, files, heard);
            let interval = if news.len() > 0 {
                s.config.min_interval
            } else {
                backed_off(s.interval, s.config.max_interval)
            };
            (WatcherState { interval, ..t }, news)
        } else {
            (WatcherState { interval: s.config.max_interval, ..s }, Seq::empty())
        },
        None => (WatcherState { interval: s.config.max_interval, ..s }, Seq::empty()),
    }
}

/// Watches the disk of one account.
#[derive(Debug)]
pub struct RecentWatcher {
    owner_uid: u64,
    config: RecentWatcherConfig,
    scanned: bool,
    seen_fs_ids: HashSet<u64>,
    running: bool,
    next_event_id: u64,
    interval: Duration,
}

impl View for RecentWatcher {
    type V = WatcherState;

    closed spec fn view(&self) -> WatcherState {
        WatcherState {
            owner_uid: self.owner_uid,
            config: self.config,
            scanned: self.scanned,
            seen: self.seen_fs_ids@,
            running: self.running,
            next_event_id: self.next_event_id,
            interval: self.interval,
        }
    }
}

/// A watcher that has taken up no listing.
pub open spec fn new_watcher(owner_uid: u64, config: RecentWatcherConfig) -> WatcherState {
    WatcherState {
        owner_uid,
        config,
        scanned: false,
        seen: Set::empty(),
        running: false,
        next_event_id: 1,
        interval: config.min_interval,
    }
}

impl RecentWatcher {
    /// A watcher with the usual settings.
    pub fn new(owner_uid: u64) -> (r: RecentWatcher)
        ensures
            r@.owner_uid == owner_uid,
            r@.config.top_n == 200,
            r@.config.min_interval.nanos == 60_000_000_000u128,
            r@.config.max_interval.nanos == 300_000_000_000u128,
            r@.config.silent_baseline,
            r@ == new_watcher(owner_uid, r@.config),
    {
        let config: RecentWatcherConfig = Default::default();
        RecentWatcher::with_config(owner_uid, config)
    }

    /// A watcher with settings.
    pub fn with_config(owner_uid: u64, config: RecentWatcherConfig) -> (r: RecentWatcher)
        ensures
            r@ == new_watcher(owner_uid, config),
    {
        RecentWatcher {
            owner_uid,
            config,
            scanned: false,
            seen_fs_ids: HashSet::new(),
            running: false,
            next_event_id: 1,
            interval: config.min_interval,
        }
    }

    /// Whether it watches.
    pub fn running(&self) -> (r: bool)
        ensures
            r == self@.running,
    {
        self.running
    }

    /// Begins to watch; says whether it did not before. A watch that begins lists at the
    /// shortest interval.
    pub fn start(&mut self) -> (r: bool)
        ensures
            r == !old(self)@.running,
            final(self)@ == if r {
                WatcherState {
                    running: true,
                    interval: old(self)@.config.min_interval,
                    ..old(self)@
                }
            } else {
                old(self)@
            },
    {
        if self.running {
            return false;
        }
        self.running = true;
        self.interval = self.config.min_interval;
        true
    }

    /// Stops to watch; says whether it did before.
    pub fn stop(&mut self) -> (r: bool)
        ensures
            r == old(self)@.running,
            final(self)@ == (WatcherState { running: false, ..old(self)@ }),
    {
        let was = self.running;
        self.running = false;
        was
    }

    /// Takes up a listing and gives the news of it; `heard` says whether somebody listens.
    pub fn diff_and_publish(&mut self, items: &Vec<RecentFile>, heard: bool) -> (r: Vec<
        RemoteFileChanged,
    >)
        ensures
            final(self)@ == listed(old(self)@, items@, heard).0,
            change_views(r@) == listed(old(self)@, items@, heard).1,
    {
        let mut news: Vec<RemoteFileChanged> = Vec::new();
        assert(change_views(news@) =~= Seq::<ChangeView>::empty());
        let first = !self.scanned;
        self.scanned = true;
        let mut i: usize = 0;
        if first && self.config.silent_baseline {
            let ghost start = self.seen_fs_ids@;
            while i < items.len()
                invariant
                    i <= items@.len(),
                    self.seen_fs_ids@ == all_seen(start, items@.take(i as int)),
                    self.owner_uid == old(self).owner_uid,
                    self.config == old(self).config,
                    self.scanned,
                    self.running == old(self).running,
                    self.next_event_id == old(self).next_event_id,
                    self.interval == old(self).interval,
                decreases items@.len() - i,
            {
                proof {
                    assert(items@.take(i + 1).drop_last() =~= items@.take(i as int));
                    assert(items@.take(i + 1).last() == items@[i as int]);
                }
                self.seen_fs_ids.insert(items[i].fs_id);
                i += 1;
            }
            assert(items@.take(i as int) =~= items@);
            return news;
        }
        let ghost s = self@;
        while i < items.len()
            invariant
                i <= items@.len(),
                self@ == noticed(s, items@.take(i as int), heard).0,
                change_views(news@) == noticed(s, items@.take(i as int), heard).1,
            decreases items@.len() - i,
        {
            let f = &items[i];
            let ghost t = self@;
            let ghost before = change_views(news@);
            proof {
                assert(items@.take(i + 1).drop_last() =~= items@.take(i as int));
                assert(items@.take(i + 1).last() == items@[i as int]);
            }
            if self.seen_fs_ids.insert(f.fs_id) {
                if heard {
                    let event_id: u64 = self.next_event_id;
                    self.next_event_id = if event_id == u64::MAX {
                        0
                    } else {
                        event_id + 1
                    };
                    let one = RemoteFileChanged {
                        event_id,
                        fs_id: f.fs_id,
                        path: f.path.clone(),
                        filename: f.server_filename.clone(),
                        size: f.size,
                        is_dir: f.isdir == 1,
                        server_mtime: f.server_mtime,
                        account_uid: self.owner_uid,
                    };
                    let ghost gone = one@;
                    news.push(one);
                    assert(change_views(news@) =~= before.push(gone));
                }
            } else {
                assert(self@.seen =~= t.seen);
            }
            i += 1;
        }
        assert(items@.take(i as int) =~= items@);
        news
    }

    /// The time before the next listing, after one that was answered and brought so many
    /// pieces of news, or one that was not answered.
    pub fn after_poll(&mut self, news: Option<usize>) -> (r: Duration)
        ensures
            r == match news {
                Some(n) => if n > 0 {
                    old(self)@.config.min_interval
                } else {
                    backed_off(old(self)@.interval, old(self)@.config.max_interval)
                },
                None => old(self)@.config.max_interval,
            },
            final(self)@ == (WatcherState { interval: r, ..old(self)@ }),
    {
        let max = self.config.max_interval;
        let next = match news {
            Some(n) => if n > 0 {
                self.config.min_interval
            } else if self.interval.nanos <= max.nanos && self.interval.nanos <= max.nanos
                - self.interval.nanos {
                Duration { nanos: self.interval.nanos * 2 }
            } else {
                max
            },
            None => max,
        };
        self.interval = next;
        next
    }

    /// Takes up the answer of the service to the question for a listing, its error number and
    /// its entries, or that there was none. Gives the news, and the time before the next
    /// listing.
    pub fn polled(&mut self, reply: Option<(i32, Vec<RecentFile>)>, heard: bool) -> (r: (
        Vec<RemoteFileChanged>,
        Duration,
    ))
        ensures
            final(self)@ == polled(old(self)@, reply_view(reply), heard).0,
            change_views(r.0@) == polled(old(self)@, reply_view(reply), heard).1,
            r.1 == final(self)@.interval,
    {
        match reply {
            Some((errno, items)) => if errno == 0 {
                proof {
                    lemma_listing_keeps_the_rest(self@, items@, heard);
                }
                let news = self.diff_and_publish(&items, heard);
                assert(change_views(news@).len() == news@.len());
                let wait = self.after_poll(Some(news.len()));
                return (news, wait);
            },
            None => {},
        }
        let wait = self.after_poll(None);
        let news: Vec<RemoteFileChanged> = Vec::new();
        assert(change_views(news@) =~= Seq::<ChangeView>::empty());
        (news, wait)
    }
}

/// The answer of the service, with its entries as a sequence.
pub open spec fn reply_view(reply: Option<(i32, Vec<RecentFile>)>) -> Option<
    (i32, Seq<RecentFile>),
> {
    match reply {
        Some((errno, items)) => Some((errno, items@)),
        None => None,
    }
}

proof fn lemma_listing_keeps_the_rest(s: WatcherState, files: Seq<RecentFile>, heard: bool)
    ensures
        listed(s, files, heard).0.config == s.config,
        listed(s, files, heard).0.interval == s.interval,
{
    lemma_noticing_keeps_the_rest(WatcherState { scanned: true, ..s }, files, heard);
}

proof fn lemma_noticing_keeps_the_rest(s: WatcherState, files: Seq<RecentFile>, heard: bool)
    ensures
        noticed(s, files, heard).0.config == s.config,
        noticed(s, files, heard).0.scanned == s.scanned,
        noticed(s, files, heard).0.interval == s.interval,
    decreases files.len(),
{
    if files.len() > 0 {
        lemma_noticing_keeps_the_rest(s, files.drop_last(), heard);
    }
}

// ---------------------------------------------------------------------------
// Laws
// ---------------------------------------------------------------------------
proof fn lemma_noticed(s: WatcherState, files: Seq<RecentFile>, heard: bool)
    ensures
        s.seen.subset_of(noticed(s, files, heard).0.seen),
        forall|i: int|
            0 <= i < files.len() ==> noticed(s, files, heard).0.seen.contains(
                (#[trigger] files[i]).fs_id,
            ),
        forall|k: int|
            0 <= k < noticed(s, files, heard).1.len() ==> !s.seen.contains(
                (#[trigger] noticed(s, files, heard).1[k]).fs_id,
            ) && noticed(s, files, heard).0.seen.contains(noticed(s, files, heard).1[k].fs_id),
        forall|j: int, k: int|
            0 <= j < k < noticed(s, files, heard).1.len() ==> (#[trigger] noticed(
                s,
                files,
                heard,
            ).1[j]).fs_id != (#[trigger] noticed(s, files, heard).1[k]).fs_id,
        noticed(s, files, heard).0.config == s.config,
    decreases files.len(),
{
    if files.len() > 0 {
        let front = files.drop_last();
        lemma_noticed(s, front, heard);
        let (t, news) = noticed(s, front, heard);
        let (u, all) = noticed(s, files, heard);
        assert forall|i: int| 0 <= i < files.len() implies u.seen.contains(
            (#[trigger] files[i]).fs_id,
        ) by {
            if i < front.len() {
                assert(front[i] == files[i]);
            }
        }
        assert forall|k: int| 0 <= k < all.len() implies !s.seen.contains(
            (#[trigger] all[k]).fs_id,
        ) && u.seen.contains(all[k].fs_id) by {
            if k < news.len() {
                assert(all[k] == news[k]);
            }
        }
        assert forall|j: int, k: int| 0 <= j < k < all.len() implies (#[trigger] all[j]).fs_id
            != (#[trigger] all[k]).fs_id by {
            assert(all[j] == news[j]);
            if k < news.len() {
                assert(all[k] == news[k]);
            }
        }
    }
}

proof fn lemma_all_seen(seen: Set<u64>, files: Seq<RecentFile>)
    ensures
        seen.subset_of(all_seen(seen, files)),
        forall|i: int|
            0 <= i < files.len() ==> all_seen(seen, files).contains((#[trigger] files[i]).fs_id),
    decreases files.len(),
{
    if files.len() > 0 {
        lemma_all_seen(seen, files.drop_last());
        assert forall|i: int| 0 <= i < files.len() implies all_seen(seen, files).contains(
            (#[trigger] files[i]).fs_id,
        ) by {
            if i < files.len() - 1 {
                assert(files.drop_last()[i] == files[i]);
            }
        }
    }
}

/// An entry is news once: what was seen before is none, no entry is news twice in one
/// listing, and after a listing all its entries have been seen.
pub proof fn law_news_come_once(s: WatcherState, files: Seq<RecentFile>, heard: bool)
    ensures
        forall|i: int|
            0 <= i < files.len() ==> listed(s, files, heard).0.seen.contains(
                (#[trigger] files[i]).fs_id,
            ),
        forall|k: int|
            0 <= k < listed(s, files, heard).1.len() ==> !s.seen.contains(
                (#[trigger] listed(s, files, heard).1[k]).fs_id,
            ),
        forall|j: int, k: int|
            0 <= j < k < listed(s, files, heard).1.len() ==> (#[trigger] listed(
                s,
                files,
                heard,
            ).1[j]).fs_id != (#[trigger] listed(s, files, heard).1[k]).fs_id,
{
    lemma_noticed(WatcherState { scanned: true, ..s }, files, heard);
    lemma_all_seen(s.seen, files);
}

proof fn lemma_noticed_new(s: WatcherState, files: Seq<RecentFile>, i: int)
    requires
        0 <= i < files.len(),
        !s.seen.contains(files[i].fs_id),
    ensures
        exists|k: int|
            0 <= k < noticed(s, files, true).1.len() && (#[trigger] noticed(
                s,
                files,
                true,
            ).1[k]).fs_id == files[i].fs_id,
    decreases files.len(),
{
    let front = files.drop_last();
    let (t, news) = noticed(s, front, true);
    let all = noticed(s, files, true).1;
    let id = files[i].fs_id;
    if i < front.len() {
        assert(front[i] == files[i]);
        lemma_noticed_new(s, front, i);
        let k = choose|k: int| 0 <= k < news.len() && (#[trigger] news[k]).fs_id == id;
        assert(all[k] == news[k]);
    } else if t.seen.contains(id) {
        lemma_seen_is_told(s, front, id);
    } else {
        assert(all[news.len() as int].fs_id == id);
    }
}

proof fn lemma_seen_is_told(s: WatcherState, files: Seq<RecentFile>, id: u64)
    requires
        !s.seen.contains(id),
        noticed(s, files, true).0.seen.contains(id),
    ensures
        exists|k: int|
            0 <= k < noticed(s, files, true).1.len() && (#[trigger] noticed(
                s,
                files,
                true,
            ).1[k]).fs_id == id,
    decreases files.len(),
{
    if files.len() > 0 {
        let front = files.drop_last();
        let (t, news) = noticed(s, front, true);
        let all = noticed(s, files, true).1;
        if t.seen.contains(id) {
            lemma_seen_is_told(s, front, id);
            let k = choose|k: int| 0 <= k < news.len() && (#[trigger] news[k]).fs_id == id;
            assert(all[k] == news[k]);
        } else {
            assert(all[news.len() as int].fs_id == id);
        }
    }
}

/// Only the first listing is silent: once one was taken up, also one without entries, every entry
/// that was not seen before is told to those who listen.
pub proof fn law_later_listings_are_told(
    s: WatcherState,
    first: Seq<RecentFile>,
    first_heard: bool,
    files: Seq<RecentFile>,
    i: int,
)
    requires
        0 <= i < files.len(),
        !listed(s, first, first_heard).0.seen.contains(files[i].fs_id),
    ensures
        exists|k: int|
            0 <= k < listed(listed(s, first, first_heard).0, files, true).1.len() && (
            #[trigger] listed(listed(s, first, first_heard).0, files, true).1[k]).fs_id
                == files[i].fs_id,
{
    lemma_noticing_keeps_the_rest(WatcherState { scanned: true, ..s }, first, first_heard);
    let t = listed(s, first, first_heard).0;
    assert(t.scanned);
    let u = WatcherState { scanned: true, ..t };
    lemma_noticed_new(u, files, i);
    let k = choose|k: int|
        0 <= k < noticed(u, files, true).1.len() && (#[trigger] noticed(
            u,
            files,
            true,
        ).1[k]).fs_id == files[i].fs_id;
    assert(listed(t, files, true).1[k].fs_id == files[i].fs_id);
}

/// The first listing brings no news where it is to be passed over in silence.
pub proof fn law_first_listing_is_silent(
    owner_uid: u64,
    config: RecentWatcherConfig,
    files: Seq<RecentFile>,
    heard: bool,
)
    requires
        config.silent_baseline,
    ensures
        listed(new_watcher(owner_uid, config), files, heard).1.len() == 0,
{
}

/// The time between two listings never exceeds the longest, once it does not.
pub proof fn law_interval_is_bounded(current: Duration, max: Duration)
    ensures
        backed_off(current, max).nanos <= max.nanos,
{
}

/// A file that was not seen is noticed, and told of where somebody listens: with its id, path,
/// name and size, under the account, and under a number that goes up by one. A file that was seen
/// is passed over.
pub proof fn law_new_files_are_told_of(
    s: WatcherState,
    files: Seq<RecentFile>,
    f: RecentFile,
    heard: bool,
)
    ensures
        noticed(s, seq![], heard) == (s, Seq::<ChangeView>::empty()),
        ({
            let (t, news) = noticed(s, files, heard);
            let (u, more) = noticed(s, files.push(f), heard);
            &&& t.seen.contains(f.fs_id) ==> u == t && more == news
            &&& !t.seen.contains(f.fs_id) ==> {
                &&& u.seen == t.seen.insert(f.fs_id)
                &&& !heard ==> more == news && u.next_event_id == t.next_event_id
                &&& heard ==> {
                    &&& more.len() == news.len() + 1
                    &&& more.drop_last() == news
                    &&& more.last().event_id == t.next_event_id
                    &&& more.last().fs_id == f.fs_id
                    &&& more.last().path == f.path@
                    &&& more.last().filename == f.server_filename@
                    &&& more.last().size == f.size
                    &&& more.last().is_dir == (f.isdir == 1)
                    &&& more.last().server_mtime == f.server_mtime
                    &&& more.last().account_uid == t.owner_uid
                    &&& t.next_event_id < u64::MAX ==> u.next_event_id == t.next_event_id + 1
                }
            }
        }),
{
    assert(files.push(f).drop_last() =~= files);
    let (t, news) = noticed(s, files, heard);
    let more = noticed(s, files.push(f), heard).1;
    if !t.seen.contains(f.fs_id) && heard {
        assert(more.drop_last() =~= news);
    }
}

/// The disk is looked at again soon after news, each time later where there are none, and last of
/// all where it does not answer.
pub proof fn law_when_the_disk_is_looked_at_again(
    s: WatcherState,
    files: Seq<RecentFile>,
    errno: i32,
    heard: bool,
)
    ensures
        polled(s, None, heard).0.interval == s.config.max_interval,
        polled(s, None, heard).1.len() == 0,
        polled(s, None, heard).0.seen == s.seen,
        errno != 0 ==> polled(s, Some((errno, files)), heard).0.interval == s.config.max_interval
            && polled(s, Some((errno, files)), heard).1.len() == 0 && polled(
            s,
            Some((errno, files)),
            heard,
        ).0.seen == s.seen,
        errno == 0 ==> polled(s, Some((errno, files)), heard).1 == listed(s, files, heard).1,
        errno == 0 && listed(s, files, heard).1.len() > 0 ==> polled(
            s,
            Some((errno, files)),
            heard,
        ).0.interval == s.config.min_interval,
        errno == 0 && listed(s, files, heard).1.len() == 0 && 2 * s.interval.nanos
            <= s.config.max_interval.nanos ==> polled(
            s,
            Some((errno, files)),
            heard,
        ).0.interval.nanos == 2 * s.interval.nanos,
        errno == 0 && listed(s, files, heard).1.len() == 0 && 2 * s.interval.nanos
            > s.config.max_interval.nanos ==> polled(s, Some((errno, files)), heard).0.interval
            == s.config.max_interval,
{
}

} // verus!
