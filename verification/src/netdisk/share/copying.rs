//! A copy out of a share of the enterprise system, from the request to the ids of what was
//! copied.
//!
//! The service may copy at once, or begin a task. A task is asked about again and again until
//! it has come to an end. Then the directories that hold the copies are listed.
use vstd::prelude::*;

use crate::netdisk::json;
use crate::netdisk::json::Json;
use crate::netdisk::share::apaas;
use crate::netdisk::share::apaas::{
    copied_result, task_reply, task_reply_from, transfer_reply, transfer_reply_from, FsIdLookup,
    LookupState, ReplyView, TransferReply,
};
use crate::netdisk::share::common;
use crate::netdisk::share::common::poll_delay_ms;
use crate::text;
use crate::transfer::TransferResult;

verus! {

/// What a copy is waiting for.
pub enum ApaasCopy {
    /// The answer to question number `attempt` about a task.
    Polling { task_id: String, attempt: u32 },
    /// A page of a directory that holds copies.
    LookingUp { to_paths: Vec<String>, from_paths: Vec<String>, lookup: FsIdLookup },
    /// Nothing more.
    Over,
}

/// What is to be done for a copy.
pub enum CopyAsk {
    /// Wait so many milliseconds and ask about the task.
    Poll { after_ms: u64, task_id: String },
    /// List a page of a directory of the disk.
    List { dir: String, page: u32 },
    /// The copy has come to its end.
    Done(Result<TransferResult, String>),
}

/// The ids of paths as far as they were found; zero for the others.
pub open spec fn ids_found(paths: Seq<Seq<char>>, found: Map<Seq<char>, u64>) -> Seq<u64> {
    paths.map_values(
        |p: Seq<char>|
            if found.contains_key(p) {
                found[p]
            } else {
                0u64
            },
    )
}

/// Whether a lookup of paths has just begun.
pub open spec fn is_fresh(s: LookupState, paths: Seq<Seq<char>>) -> bool {
    &&& s.dirs.to_set() == apaas::holders(paths)
    &&& s.dirs.no_duplicates()
    &&& s.at == 0
    &&& s.page == 1
    &&& s.found == Map::<Seq<char>, u64>::empty()
}

/// The copy has ended with such a result.
pub open spec fn ended(c: ApaasCopy, ask: CopyAsk) -> bool {
    c is Over && ask is Done
}

/// The copy has failed, and says why.
pub open spec fn broken_off(c: ApaasCopy, ask: CopyAsk, why: Seq<char>) -> bool {
    ended(c, ask) && (ask->Done_0 matches Err(e) && e@ == why)
}

/// The copy asks about a task for the `attempt`-th time.
pub open spec fn polls(c: ApaasCopy, ask: CopyAsk, id: Seq<char>, attempt: int) -> bool {
    &&& c matches ApaasCopy::Polling { task_id, attempt: n } && task_id@ == id && n == attempt
    &&& ask matches CopyAsk::Poll { after_ms, task_id } && task_id@ == id && {
        let ladder = common::poll_ladder(attempt as u32);
        ladder.0 - ladder.1 <= after_ms <= ladder.0 + ladder.1
    }
}

/// The copy stands at such a place of its lookup: it asks for the next page, or hands out the
/// ids once there is none left.
pub open spec fn looks_up(
    c: ApaasCopy,
    ask: CopyAsk,
    to: Seq<Seq<char>>,
    from: Seq<Seq<char>>,
    s: LookupState,
) -> bool {
    if s.at < s.dirs.len() {
        &&& c matches ApaasCopy::LookingUp { to_paths, from_paths, lookup } && text::texts(
            to_paths@,
        ) == to && text::texts(from_paths@) == from && lookup@ == s
        &&& ask matches CopyAsk::List { dir, page } && dir@ == s.dirs[s.at] && page == s.page
    } else {
        &&& ended(c, ask)
        &&& ask->Done_0 matches Ok(t) && t.success && text::texts(t.transferred_paths@) == to
            && text::texts(t.from_paths@) == from && t.error is None && t.transferred_fs_ids@
            == ids_found(to, s.found)
    }
}

/// The copy goes on from what the service said.
pub open spec fn goes_on(c: ApaasCopy, ask: CopyAsk, reply: ReplyView) -> bool {
    match reply {
        ReplyView::Refused(msg) => ended(c, ask) && (ask->Done_0 matches Ok(t)
            && apaas::is_refusal(t, msg)),
        ReplyView::Task(id) => polls(c, ask, id, 1),
        ReplyView::Copied { to_paths, from_paths } => exists|s: LookupState|
            #[trigger] is_fresh(s, to_paths) && looks_up(c, ask, to_paths, from_paths, s),
    }
}

fn poll(task_id: String, attempt: u32) -> (r: (ApaasCopy, CopyAsk))
    ensures
        polls(r.0, r.1, task_id@, attempt as int),
{
    let after_ms: u64 = poll_delay_ms(attempt);
    let asked = task_id.clone();
    (ApaasCopy::Polling { task_id, attempt }, CopyAsk::Poll { after_ms, task_id: asked })
}

fn look_up(to_paths: Vec<String>, from_paths: Vec<String>, lookup: FsIdLookup) -> (r: (
    ApaasCopy,
    CopyAsk,
))
    requires
        lookup@.at >= 0,
    ensures
        looks_up(r.0, r.1, text::texts(to_paths@), text::texts(from_paths@), lookup@),
{
    match lookup.next() {
        Some(d) => (
            ApaasCopy::LookingUp { to_paths, from_paths, lookup },
            CopyAsk::List { dir: d.0, page: d.1 },
        ),
        None => {
            let ids = lookup.finish(&to_paths);
            assert(ids@ =~= ids_found(text::texts(to_paths@), lookup@.found));
            (ApaasCopy::Over, CopyAsk::Done(Ok(copied_result(to_paths, from_paths, ids))))
        },
    }
}

fn go_on(reply: TransferReply) -> (r: (ApaasCopy, CopyAsk))
    ensures
        forall|v: ReplyView| #[trigger]
            apaas::reply_reads(reply, v) ==> goes_on(r.0, r.1, v),
{
    match reply {
        TransferReply::Refused(t) => (ApaasCopy::Over, CopyAsk::Done(Ok(t))),
        TransferReply::Task(id) => poll(id, 1),
        TransferReply::Copied { to_paths, from_paths } => {
            let lookup = FsIdLookup::begin(&to_paths);
            assert(is_fresh(lookup@, text::texts(to_paths@)));
            look_up(to_paths, from_paths, lookup)
        },
    }
}

impl ApaasCopy {
    /// Goes on from the answer to the request for a copy, once it is a JSON value.
    pub fn requested_from(j: &Json) -> (r: (ApaasCopy, CopyAsk))
        ensures
            goes_on(r.0, r.1, apaas::transfer_outcome(*j)),
    {
        go_on(transfer_reply_from(j))
    }

    /// Goes on from the answer to the request for a copy.
    pub fn requested(body: &str) -> (r: (ApaasCopy, CopyAsk))
        ensures
            match json::json_of(body@) {
                Some(j) => goes_on(r.0, r.1, apaas::transfer_outcome(j)),
                None => broken_off(r.0, r.1, "解析企业版转存响应失败"@),
            },
    {
        match transfer_reply(body) {
            Ok(t) => go_on(t),
            Err(e) => (ApaasCopy::Over, CopyAsk::Done(Err(e))),
        }
    }

    fn after_poll(
        self,
        reply: Result<Option<TransferReply>, String>,
    ) -> (r: (ApaasCopy, CopyAsk))
        requires
            self is Polling,
            self->attempt < u32::MAX,
        ensures
            forall|v: Result<Option<ReplyView>, Seq<char>>| #[trigger]
                apaas::task_reads(reply, v) ==> polled_on(self, r.0, r.1, v),
    {
        match reply {
            Ok(None) => match self {
                ApaasCopy::Polling { task_id, attempt } => poll(task_id, attempt + 1),
                _ => (ApaasCopy::Over, CopyAsk::Done(Err(String::new()))),
            },
            Ok(Some(t)) => go_on(t),
            Err(e) => (ApaasCopy::Over, CopyAsk::Done(Err(e))),
        }
    }

    /// Goes on from an answer about the task, once it is a JSON value; `body` is the answer as
    /// it came.
    pub fn polled_from(self, j: &Json, body: &str) -> (r: (ApaasCopy, CopyAsk))
        requires
            self is Polling,
            self->attempt < u32::MAX,
        ensures
            polled_on(self, r.0, r.1, apaas::task_outcome(*j, body@)),
    {
        let reply = task_reply_from(j, body);
        self.after_poll(reply)
    }

    /// Goes on from an answer about the task.
    pub fn polled(self, body: &str) -> (r: (ApaasCopy, CopyAsk))
        requires
            self is Polling,
            self->attempt < u32::MAX,
        ensures
            match json::json_of(body@) {
                Some(j) => polled_on(self, r.0, r.1, apaas::task_outcome(j, body@)),
                None => broken_off(r.0, r.1, "解析企业版任务查询响应失败"@),
            },
    {
        let reply = task_reply(body);
        proof {
            if json::json_of(body@) is None {
                assert(apaas::task_reads(reply, Err("解析企业版任务查询响应失败"@)));
            }
        }
        self.after_poll(reply)
    }

    /// Goes on from the paths and ids of a page of a directory; `None` where it could not be
    /// listed.
    pub fn listed(self, reply: Option<Vec<(String, u64)>>) -> (r: (ApaasCopy, CopyAsk))
        requires
            self is LookingUp,
            0 <= self->lookup@.at < self->lookup@.dirs.len(),
            self->lookup@.page < u32::MAX,
        ensures
            looks_up(
                r.0,
                r.1,
                text::texts(self->to_paths@),
                text::texts(self->from_paths@),
                apaas::looked_up(
                    self->lookup@,
                    match reply {
                        Some(v) => Some(v@),
                        None => None,
                    },
                ),
            ),
    {
        match self {
            ApaasCopy::LookingUp { to_paths, from_paths, lookup } => {
                let mut l = lookup;
                l.listed(reply);
                look_up(to_paths, from_paths, l)
            },
            _ => (ApaasCopy::Over, CopyAsk::Done(Err(String::new()))),
        }
    }
}

/// A copy goes on from what was said of its task.
pub open spec fn polled_on(
    before: ApaasCopy,
    c: ApaasCopy,
    ask: CopyAsk,
    reply: Result<Option<ReplyView>, Seq<char>>,
) -> bool {
    match reply {
        Ok(Some(v)) => goes_on(c, ask, v),
        Ok(None) => polls(c, ask, before->task_id@, before->attempt + 1),
        Err(why) => broken_off(c, ask, why),
    }
}

/// As long as its task goes on, a copy asks about the same task again; it ends in no other
/// way than by an answer that says so.
pub proof fn law_a_running_task_is_asked_about_again(
    before: ApaasCopy,
    c: ApaasCopy,
    ask: CopyAsk,
    j: Json,
    body: Seq<char>,
)
    requires
        before is Polling,
        polled_on(before, c, ask, apaas::task_outcome(j, body)),
    ensures
        apaas::task_outcome(j, body) == Ok::<Option<ReplyView>, Seq<char>>(None) <==> c is Polling,
        c is Polling ==> c->task_id@ == before->task_id@ && c->attempt
            == before->attempt + 1,
{
    if apaas::task_outcome(j, body) is Ok && apaas::task_outcome(j, body)->Ok_0 is Some {
        let v = apaas::task_outcome(j, body)->Ok_0->0;
        assert(v is Copied);
    }
}

/// Each path that was copied to has the id that was found for it, none where none was.
pub proof fn law_each_path_has_its_id(paths: Seq<Seq<char>>, found: Map<Seq<char>, u64>, i: int)
    requires
        0 <= i < paths.len(),
    ensures
        ids_found(paths, found).len() == paths.len(),
        found.contains_key(paths[i]) ==> ids_found(paths, found)[i] == found[paths[i]],
        !found.contains_key(paths[i]) ==> ids_found(paths, found)[i] == 0,
{
}

/// A copy that was made is followed by looking up what it made, from the first page of the first
/// directory that holds any of it; a refused one is over, and one under way is asked about.
pub proof fn law_how_a_copy_goes_on(c: ApaasCopy, ask: CopyAsk, reply: ReplyView)
    requires
        goes_on(c, ask, reply),
    ensures
        reply is Refused ==> c is Over && (ask matches CopyAsk::Done(Ok(t)) && !t.success),
        reply matches ReplyView::Task(id) ==> (ask matches CopyAsk::Poll { task_id, .. } && task_id@
            == id) && (c matches ApaasCopy::Polling { task_id, attempt } && task_id@ == id && attempt
            == 1),
        reply matches ReplyView::Copied { to_paths, from_paths } ==> {
            &&& ask matches CopyAsk::List { page, .. } ==> page == 1
            &&& c matches ApaasCopy::LookingUp { to_paths: to, from_paths: from, .. } ==> text::texts(
                to@,
            ) == to_paths && text::texts(from@) == from_paths
            &&& c is Over ==> (ask matches CopyAsk::Done(Ok(t)) && t.success && text::texts(
                t.transferred_paths@,
            ) == to_paths && text::texts(t.from_paths@) == from_paths)
            &&& c is Over || c is LookingUp
        },
{
}

} // verus!
