//! Getting downloads that stand still to move again.
use vstd::prelude::*;

use crate::share_sync::subtasks;
use crate::share_sync::subtasks::{is_terminal_subtask_status, ShareSyncSubtask};
use crate::sorting;
use crate::sorting::sorted_unique;
use crate::text;
use crate::text::{chars_of, same, starts_with, string_between};
use crate::time::Duration;

verus! {

/// A download that can be paused and resumed.
#[derive(Debug, PartialEq, Eq)]
pub enum RestartableShareSyncDownload {
    /// A single download.
    Task(String),
    /// A folder download.
    Folder(String),
}

/// What a `RestartableShareSyncDownload` holds.
#[verifier::ext_equal]
pub enum RestartableView {
    Task(Seq<char>),
    Folder(Seq<char>),
}

impl View for RestartableShareSyncDownload {
    type V = RestartableView;

    open spec fn view(&self) -> RestartableView {
        match self {
            RestartableShareSyncDownload::Task(id) => RestartableView::Task(id@),
            RestartableShareSyncDownload::Folder(id) => RestartableView::Folder(id@),
        }
    }
}

/// What can be restarted of a row. A folder whose files all wait counts too: it may wait
/// for a slot or be stuck. A single download that waits does not.
pub open spec fn restartable(row: subtasks::SubtaskView) -> Option<RestartableView> {
    if row.kind != "download"@ || subtasks::is_final(row.status) {
        None
    } else if "folder:"@.is_prefix_of(row.task_id) {
        if row.status == "scanning"@ || row.status == "downloading"@ || row.status == "paused"@
            || row.status == "pending"@ {
            Some(RestartableView::Folder(row.task_id.skip("folder:"@.len() as int)))
        } else {
            None
        }
    } else if row.status == "downloading"@ || row.status == "paused"@ {
        Some(RestartableView::Task(row.task_id))
    } else {
        None
    }
}

/// What can be restarted of a row.
pub fn restartable_share_sync_download(subtask: &ShareSyncSubtask) -> (r: Option<
    RestartableShareSyncDownload,
>)
    ensures
        match r {
            Some(d) => restartable(subtask@) == Some(d@),
            None => restartable(subtask@) is None,
        },
{
    let status = subtask.status.as_str();
    if !same(subtask.kind.as_str(), "download") || is_terminal_subtask_status(status) {
        return None;
    }
    if starts_with(subtask.task_id.as_str(), "folder:") {
        if same(status, "scanning") || same(status, "downloading") || same(status, "paused")
            || same(status, "pending") {
            let cs = chars_of(subtask.task_id.as_str());
            let head = chars_of("folder:");
            let id = string_between(&cs, head.len(), cs.len());
            assert(id@ =~= subtask.task_id@.skip("folder:"@.len() as int));
            return Some(RestartableShareSyncDownload::Folder(id));
        }
        return None;
    }
    if same(status, "downloading") || same(status, "paused") {
        Some(RestartableShareSyncDownload::Task(subtask.task_id.clone()))
    } else {
        None
    }
}

/// A folder whose files wait stays restartable: else nothing would ever free one that is
/// stuck.
pub proof fn law_waiting_folder_is_restartable(row: subtasks::SubtaskView, id: Seq<char>)
    requires
        row.kind == "download"@,
        row.task_id == "folder:"@ + id,
        row.status == "pending"@,
    ensures
        restartable(row) == Some(RestartableView::Folder(id)),
{
    reveal_strlit("pending");
    reveal_strlit("completed");
    reveal_strlit("success");
    reveal_strlit("failed");
    reveal_strlit("cancelled");
    reveal_strlit("transferred");
    reveal_strlit("transferfailed");
    reveal_strlit("downloadfailed");
    assert("pending"@[0] == 'p');
    assert("success"@[0] == 's');
    assert(row.task_id.skip("folder:"@.len() as int) =~= id);
    assert("folder:"@.is_prefix_of(row.task_id));
}

/// Nothing that is done is restarted.
pub proof fn law_done_rows_are_not_restarted(row: subtasks::SubtaskView)
    requires
        subtasks::is_final(row.status),
    ensures
        restartable(row) is None,
{
}

/// Which downloads to restart.
#[derive(Debug)]
pub struct RestartPlan {
    /// Folder downloads that are paused: to be resumed.
    pub paused_folders: Vec<String>,
    /// Other folder downloads: to be paused, then resumed.
    pub folders: Vec<String>,
    /// Downloads that are paused: to be resumed.
    pub paused_tasks: Vec<String>,
    /// Other downloads: to be paused, then resumed.
    pub tasks: Vec<String>,
}

/// The four lists of a plan, by whether they hold folders and what is paused.
pub open spec fn belongs(
    row: subtasks::SubtaskView,
    folder: bool,
    is_paused: bool,
    id: Seq<char>,
) -> bool {
    &&& restartable(row) == Some(
        if folder {
            RestartableView::Folder(id)
        } else {
            RestartableView::Task(id)
        },
    )
    &&& (row.status == "paused"@) == is_paused
}

/// Whether one of the rows belongs to the list.
pub open spec fn one_belongs(
    rows: Seq<subtasks::SubtaskView>,
    folder: bool,
    is_paused: bool,
    id: Seq<char>,
) -> bool {
    exists|i: int| 0 <= i < rows.len() && belongs(#[trigger] rows[i], folder, is_paused, id)
}

/// `ids` lists, in order and each once, what belongs to the list.
pub open spec fn is_list(
    ids: Seq<Seq<char>>,
    rows: Seq<subtasks::SubtaskView>,
    folder: bool,
    is_paused: bool,
) -> bool {
    &&& sorting::strictly_sorted(ids)
    &&& forall|id: Seq<char>|
        #![trigger ids.contains(id)]
        ids.contains(id) <==> one_belongs(rows, folder, is_paused, id)
}

/// The plan restarts exactly what can be restarted of the rows.
pub open spec fn is_plan(plan: RestartPlan, rows: Seq<subtasks::SubtaskView>) -> bool {
    &&& is_list(text::texts(plan.paused_folders@), rows, true, true)
    &&& is_list(text::texts(plan.folders@), rows, true, false)
    &&& is_list(text::texts(plan.paused_tasks@), rows, false, true)
    &&& is_list(text::texts(plan.tasks@), rows, false, false)
}

/// What `ids` holds is what belongs to the list, of the rows so far.
spec fn gathered(
    ids: Seq<Seq<char>>,
    rows: Seq<subtasks::SubtaskView>,
    folder: bool,
    is_paused: bool,
) -> bool {
    forall|id: Seq<char>|
        #![trigger ids.contains(id)]
        ids.contains(id) <==> one_belongs(rows, folder, is_paused, id)
}

proof fn lemma_gather(
    before: Seq<Seq<char>>,
    after: Seq<Seq<char>>,
    rows: Seq<subtasks::SubtaskView>,
    row: subtasks::SubtaskView,
    folder: bool,
    is_paused: bool,
)
    requires
        gathered(before, rows, folder, is_paused),
        match restartable(row) {
            Some(RestartableView::Folder(id)) => after == if folder && (row.status == "paused"@)
                == is_paused {
                before.push(id)
            } else {
                before
            },
            Some(RestartableView::Task(id)) => after == if !folder && (row.status == "paused"@)
                == is_paused {
                before.push(id)
            } else {
                before
            },
            None => after == before,
        },
    ensures
        gathered(after, rows.push(row), folder, is_paused),
{
    let all = rows.push(row);
    assert forall|id: Seq<char>|
        #![trigger after.contains(id)]
        after.contains(id) <==> one_belongs(all, folder, is_paused, id) by {
        if after.contains(id) {
            let k = choose|k: int| 0 <= k < after.len() && after[k] == id;
            if k < before.len() {
                assert(before[k] == id);
                assert(before.contains(id));
                let i = choose|i: int|
                    0 <= i < rows.len() && belongs(#[trigger] rows[i], folder, is_paused, id);
                assert(all[i] == rows[i]);
            } else {
                assert(belongs(all[rows.len() as int], folder, is_paused, id));
            }
        }
        if one_belongs(all, folder, is_paused, id) {
            let i = choose|i: int|
                0 <= i < all.len() && belongs(#[trigger] all[i], folder, is_paused, id);
            if i < rows.len() {
                assert(rows[i] == all[i]);
                assert(one_belongs(rows, folder, is_paused, id));
                assert(before.contains(id));
                let k = choose|k: int| 0 <= k < before.len() && before[k] == id;
                assert(after[k] == id);
            } else {
                assert(after[after.len() - 1] == id);
            }
        }
    }
}

proof fn lemma_same_members(
    a: Seq<Seq<char>>,
    b: Seq<Seq<char>>,
    rows: Seq<subtasks::SubtaskView>,
    folder: bool,
    is_paused: bool,
)
    requires
        gathered(a, rows, folder, is_paused),
        sorting::strictly_sorted(b),
        b.to_set() == a.to_set(),
    ensures
        is_list(b, rows, folder, is_paused),
{
    assert forall|id: Seq<char>|
        #![trigger b.contains(id)]
        b.contains(id) <==> one_belongs(rows, folder, is_paused, id) by {
        assert(b.contains(id) == b.to_set().contains(id));
        assert(a.contains(id) == a.to_set().contains(id));
    }
}

/// Which downloads to restart.
pub fn restart_plan(rows: &Vec<ShareSyncSubtask>) -> (r: RestartPlan)
    ensures
        is_plan(r, subtasks::row_views(rows@)),
{
    let ghost all = subtasks::row_views(rows@);
    let mut paused_folders: Vec<String> = Vec::new();
    let mut folders: Vec<String> = Vec::new();
    let mut paused_tasks: Vec<String> = Vec::new();
    let mut tasks: Vec<String> = Vec::new();
    let mut i: usize = 0;
    proof {
        assert(text::texts(tasks@) =~= Seq::<Seq<char>>::empty());
    }
    while i < rows.len()
        invariant
            i <= rows@.len(),
            all == subtasks::row_views(rows@),
            gathered(text::texts(paused_folders@), all.take(i as int), true, true),
            gathered(text::texts(folders@), all.take(i as int), true, false),
            gathered(text::texts(paused_tasks@), all.take(i as int), false, true),
            gathered(text::texts(tasks@), all.take(i as int), false, false),
        decreases rows@.len() - i,
    {
        let row = &rows[i];
        let ghost a = text::texts(paused_folders@);
        let ghost b = text::texts(folders@);
        let ghost c = text::texts(paused_tasks@);
        let ghost d = text::texts(tasks@);
        let is_paused = same(row.status.as_str(), "paused");
        match restartable_share_sync_download(row) {
            Some(RestartableShareSyncDownload::Task(id)) => {
                let ghost gid = id@;
                if is_paused {
                    paused_tasks.push(id);
                    assert(text::texts(paused_tasks@) =~= c.push(gid));
                } else {
                    tasks.push(id);
                    assert(text::texts(tasks@) =~= d.push(gid));
                }
            },
            Some(RestartableShareSyncDownload::Folder(id)) => {
                let ghost gid = id@;
                if is_paused {
                    paused_folders.push(id);
                    assert(text::texts(paused_folders@) =~= a.push(gid));
                } else {
                    folders.push(id);
                    assert(text::texts(folders@) =~= b.push(gid));
                }
            },
            None => {},
        }
        proof {
            let so_far = all.take(i as int);
            assert(all.take(i + 1) =~= so_far.push(row@));
            lemma_gather(a, text::texts(paused_folders@), so_far, row@, true, true);
            lemma_gather(b, text::texts(folders@), so_far, row@, true, false);
            lemma_gather(c, text::texts(paused_tasks@), so_far, row@, false, true);
            lemma_gather(d, text::texts(tasks@), so_far, row@, false, false);
        }
        i += 1;
    }
    assert(all.take(i as int) =~= all);
    let r = RestartPlan {
        paused_folders: sorted_unique(&paused_folders),
        folders: sorted_unique(&folders),
        paused_tasks: sorted_unique(&paused_tasks),
        tasks: sorted_unique(&tasks),
    };
    proof {
        lemma_same_members(
            text::texts(paused_folders@),
            text::texts(r.paused_folders@),
            all,
            true,
            true,
        );
        lemma_same_members(text::texts(folders@), text::texts(r.folders@), all, true, false);
        lemma_same_members(
            text::texts(paused_tasks@),
            text::texts(r.paused_tasks@),
            all,
            false,
            true,
        );
        lemma_same_members(text::texts(tasks@), text::texts(r.tasks@), all, false, false);
    }
    r
}

/// One download to restart.
#[derive(Debug)]
pub struct RestartStep {
    /// Whether the download is a folder download.
    pub folder: bool,
    pub id: String,
    /// Whether it is paused before it is resumed.
    pub pause_first: bool,
}

/// What a `RestartStep` holds.
#[verifier::ext_equal]
pub struct StepView {
    pub folder: bool,
    pub id: Seq<char>,
    pub pause_first: bool,
}

impl View for RestartStep {
    type V = StepView;

    open spec fn view(&self) -> StepView {
        StepView { folder: self.folder, id: self.id@, pause_first: self.pause_first }
    }
}

/// What several steps hold.
pub open spec fn step_views(steps: Seq<RestartStep>) -> Seq<StepView> {
    steps.map_values(|s: RestartStep| s@)
}

/// The steps for a list of downloads.
pub open spec fn steps_for(ids: Seq<String>, folder: bool, pause_first: bool) -> Seq<StepView> {
    ids.map_values(|id: String| StepView { folder, id: id@, pause_first })
}

/// The steps of a plan: folders before single downloads, and of each what is paused
/// first. What no manager is there for is left out.
pub open spec fn steps_of(plan: RestartPlan, folders: bool, downloads: bool) -> Seq<StepView> {
    let of_folders = if folders {
        steps_for(plan.paused_folders@, true, false) + steps_for(plan.folders@, true, true)
    } else {
        Seq::empty()
    };
    let of_tasks = if downloads {
        steps_for(plan.paused_tasks@, false, false) + steps_for(plan.tasks@, false, true)
    } else {
        Seq::empty()
    };
    of_folders + of_tasks
}

/// What to do next to restart downloads.
#[derive(Debug)]
pub enum RestartAction {
    /// Pause the download.
    Pause { folder: bool, id: String },
    /// Wait so long, then resume the download.
    Resume { folder: bool, id: String, wait: Duration },
    /// All is done; so many downloads move again.
    Done { restarted: usize },
}

/// Restarting downloads, one after another.
#[derive(Debug)]
pub struct RestartRun {
    steps: Vec<RestartStep>,
    at: usize,
    paused: bool,
    restarted: usize,
    delay: Duration,
}

/// How far a restart has come.
#[verifier::ext_equal]
pub struct RestartState {
    pub steps: Seq<StepView>,
    /// The step that is being done.
    pub at: int,
    /// Whether its download has been paused.
    pub paused: bool,
    pub restarted: int,
    /// How long to wait between pausing and resuming.
    pub delay: Duration,
}

impl View for RestartRun {
    type V = RestartState;

    closed spec fn view(&self) -> RestartState {
        RestartState {
            steps: step_views(self.steps@),
            at: self.at as int,
            paused: self.paused,
            restarted: self.restarted as int,
            delay: self.delay,
        }
    }
}

/// The state after the action at hand succeeded or failed. A download that cannot be
/// paused is left alone.
pub open spec fn after_action(s: RestartState, ok: bool) -> RestartState {
    if s.at >= s.steps.len() {
        s
    } else if s.steps[s.at].pause_first && !s.paused {
        if ok {
            RestartState { paused: true, ..s }
        } else {
            RestartState { at: s.at + 1, ..s }
        }
    } else {
        RestartState {
            at: s.at + 1,
            paused: false,
            restarted: if ok {
                s.restarted + 1
            } else {
                s.restarted
            },
            ..s
        }
    }
}

/// Appends the steps for a list of downloads.
fn push_steps(steps: &mut Vec<RestartStep>, ids: &Vec<String>, folder: bool, pause_first: bool)
    ensures
        step_views(final(steps)@) == step_views(old(steps)@) + steps_for(
            ids@,
            folder,
            pause_first,
        ),
{
    let ghost start = step_views(steps@);
    let ghost all = steps_for(ids@, folder, pause_first);
    let mut i: usize = 0;
    assert(start + all.take(0) =~= start);
    while i < ids.len()
        invariant
            i <= ids@.len(),
            all == steps_for(ids@, folder, pause_first),
            step_views(steps@) == start + all.take(i as int),
        decreases ids@.len() - i,
    {
        let ghost before = step_views(steps@);
        let step = RestartStep { folder, id: ids[i].clone(), pause_first };
        steps.push(step);
        i += 1;
        proof {
            assert(step_views(steps@) =~= before.push(step@));
            assert(all[i - 1] == step@);
            assert(before.push(step@) =~= start + all.take(i as int));
        }
    }
    assert(all.take(i as int) =~= all);
}

impl RestartRun {
    /// No more downloads move than steps have been done.
    #[verifier::type_invariant]
    spec fn inv(self) -> bool {
        self.restarted <= self.at <= self.steps@.len()
    }

    /// Begins a restart. `folders` and `downloads` say which managers are there.
    pub fn begin(plan: &RestartPlan, folders: bool, downloads: bool, delay: Duration) -> (r:
        RestartRun)
        ensures
            r@ == (RestartState {
                steps: steps_of(*plan, folders, downloads),
                at: 0,
                paused: false,
                restarted: 0,
                delay,
            }),
    {
        let mut steps: Vec<RestartStep> = Vec::new();
        assert(step_views(steps@) =~= Seq::<StepView>::empty());
        if folders {
            push_steps(&mut steps, &plan.paused_folders, true, false);
            push_steps(&mut steps, &plan.folders, true, true);
        }
        let ghost first = step_views(steps@);
        if downloads {
            push_steps(&mut steps, &plan.paused_tasks, false, false);
            push_steps(&mut steps, &plan.tasks, false, true);
        }
        assert(step_views(steps@) =~= steps_of(*plan, folders, downloads));
        RestartRun { steps, at: 0, paused: false, restarted: 0, delay }
    }

    /// What to do next.
    pub fn next(&self) -> (r: RestartAction)
        ensures
            self@.at >= self@.steps.len() ==> (r matches RestartAction::Done { restarted }
                && restarted == self@.restarted),
            self@.at < self@.steps.len() ==> {
                let step = self@.steps[self@.at];
                if step.pause_first && !self@.paused {
                    r matches RestartAction::Pause { folder, id } && folder == step.folder && id@
                        == step.id
                } else {
                    r matches RestartAction::Resume { folder, id, wait } && folder == step.folder
                        && id@ == step.id && wait.nanos == if self@.paused {
                        self@.delay.nanos
                    } else {
                        0
                    }
                }
            },
            0 <= self@.restarted <= self@.at <= self@.steps.len(),
    {
        proof {
            use_type_invariant(self);
        }
        if self.at >= self.steps.len() {
            return RestartAction::Done { restarted: self.restarted };
        }
        let step = &self.steps[self.at];
        assert(self@.steps[self@.at] == step@);
        if step.pause_first && !self.paused {
            RestartAction::Pause { folder: step.folder, id: step.id.clone() }
        } else {
            let wait = if self.paused {
                self.delay
            } else {
                Duration { nanos: 0 }
            };
            RestartAction::Resume { folder: step.folder, id: step.id.clone(), wait }
        }
    }

    /// Notes whether the action at hand succeeded.
    pub fn done(&mut self, ok: bool)
        ensures
            final(self)@ == after_action(old(self)@, ok),
    {
        proof {
            use_type_invariant(&*self);
        }
        let mut whole = RestartRun {
            steps: Vec::new(),
            at: 0,
            paused: false,
            restarted: 0,
            delay: Duration { nanos: 0 },
        };
        std::mem::swap(&mut whole, self);
        let RestartRun { steps, mut at, mut paused, mut restarted, delay } = whole;
        if at < steps.len() {
            assert(step_views(steps@)[at as int] == steps@[at as int]@);
            if steps[at].pause_first && !paused {
                if ok {
                    paused = true;
                } else {
                    at += 1;
                }
            } else {
                at += 1;
                paused = false;
                if ok {
                    restarted += 1;
                }
            }
        }
        *self = RestartRun { steps, at, paused, restarted, delay };
    }
}

/// Which downloads are restarted: of folders those that are scanned, downloaded, paused or
/// pending, under the id behind their mark; of single files those that are downloaded or paused.
pub proof fn law_which_downloads_are_restarted(row: subtasks::SubtaskView, id: Seq<char>)
    requires
        row.kind == "download"@,
    ensures
        row.task_id == "folder:"@ + id ==> (restartable(row) == Some(RestartableView::Folder(id))
            <==> (row.status == "scanning"@ || row.status == "downloading"@ || row.status
            == "paused"@ || row.status == "pending"@)),
        row.task_id == "folder:"@ + id ==> (restartable(row) is None <==> !(row.status
            == "scanning"@ || row.status == "downloading"@ || row.status == "paused"@ || row.status
            == "pending"@)),
        !"folder:"@.is_prefix_of(row.task_id) ==> (restartable(row) == Some(
            RestartableView::Task(row.task_id),
        ) <==> (row.status == "downloading"@ || row.status == "paused"@)),
        !"folder:"@.is_prefix_of(row.task_id) ==> (restartable(row) is None <==> !(row.status
            == "downloading"@ || row.status == "paused"@)),
{
    reveal_strlit("scanning");
    reveal_strlit("downloading");
    reveal_strlit("paused");
    reveal_strlit("pending");
    reveal_strlit("completed");
    reveal_strlit("success");
    reveal_strlit("failed");
    reveal_strlit("cancelled");
    reveal_strlit("transferred");
    reveal_strlit("transferfailed");
    reveal_strlit("downloadfailed");
    assert("scanning"@[0] == 's' && "scanning"@.len() == 8);
    assert("downloading"@[0] == 'd' && "downloading"@.len() == 11);
    assert("paused"@[0] == 'p' && "paused"@.len() == 6);
    assert("pending"@[0] == 'p' && "pending"@.len() == 7);
    assert("completed"@.len() == 9);
    assert("success"@[0] == 's' && "success"@.len() == 7);
    assert("failed"@[0] == 'f' && "failed"@.len() == 6);
    assert("cancelled"@.len() == 9);
    assert("transferred"@[0] == 't' && "transferred"@.len() == 11);
    assert("transferfailed"@.len() == 14 && "downloadfailed"@.len() == 14);
    if row.task_id == "folder:"@ + id {
        assert(row.task_id.skip("folder:"@.len() as int) =~= id);
        assert(row.task_id.take("folder:"@.len() as int) =~= "folder:"@);
    }
}

/// Rows that are no downloads are not restarted.
pub proof fn law_only_downloads_are_restarted(row: subtasks::SubtaskView)
    requires
        row.kind != "download"@,
    ensures
        restartable(row) is None,
{
}

/// A plan lists each download that is restarted, what is paused apart from what is not.
pub proof fn law_plan_lists_each_download(
    plan: RestartPlan,
    rows: Seq<subtasks::SubtaskView>,
    i: int,
    id: Seq<char>,
)
    requires
        is_plan(plan, rows),
        0 <= i < rows.len(),
    ensures
        restartable(rows[i]) == Some(RestartableView::Folder(id)) && rows[i].status == "paused"@
            ==> text::texts(plan.paused_folders@).contains(id),
        restartable(rows[i]) == Some(RestartableView::Folder(id)) && rows[i].status != "paused"@
            ==> text::texts(plan.folders@).contains(id),
        restartable(rows[i]) == Some(RestartableView::Task(id)) && rows[i].status == "paused"@
            ==> text::texts(plan.paused_tasks@).contains(id),
        restartable(rows[i]) == Some(RestartableView::Task(id)) && rows[i].status != "paused"@
            ==> text::texts(plan.tasks@).contains(id),
{
    assert(belongs(rows[i], true, true, id) ==> one_belongs(rows, true, true, id));
    assert(belongs(rows[i], true, false, id) ==> one_belongs(rows, true, false, id));
    assert(belongs(rows[i], false, true, id) ==> one_belongs(rows, false, true, id));
    assert(belongs(rows[i], false, false, id) ==> one_belongs(rows, false, false, id));
}

/// What a plan lists is restarted in its order: folders, then files, of each what is paused first.
/// What is paused is only resumed, all else is paused before.
pub proof fn law_steps_follow_the_plan(plan: RestartPlan, folders: bool, downloads: bool, k: int)
    requires
        0 <= k < steps_of(plan, folders, downloads).len(),
    ensures
        steps_of(plan, folders, downloads).len() == (if folders {
            plan.paused_folders@.len() + plan.folders@.len()
        } else {
            0
        }) + (if downloads {
            plan.paused_tasks@.len() + plan.tasks@.len()
        } else {
            0
        }),
        ({
            let s = steps_of(plan, folders, downloads)[k];
            let list = if s.folder && s.pause_first {
                plan.folders@
            } else if s.folder {
                plan.paused_folders@
            } else if s.pause_first {
                plan.tasks@
            } else {
                plan.paused_tasks@
            };
            &&& s.folder ==> folders
            &&& !s.folder ==> downloads
            &&& text::texts(list).contains(s.id)
        }),
        folders && k < plan.paused_folders@.len() ==> steps_of(plan, folders, downloads)[k]
            == (StepView { folder: true, id: plan.paused_folders@[k]@, pause_first: false }),
{
    let a = plan.paused_folders@;
    let b = plan.folders@;
    let c = plan.paused_tasks@;
    let d = plan.tasks@;
    let nf: int = if folders {
        (a.len() + b.len()) as int
    } else {
        0
    };
    let s = steps_of(plan, folders, downloads)[k];
    if k < nf {
        if k < a.len() {
            assert(text::texts(a)[k] == s.id);
        } else {
            assert(text::texts(b)[k - a.len()] == s.id);
        }
    } else if k - nf < c.len() {
        assert(text::texts(c)[k - nf] == s.id);
    } else {
        assert(text::texts(d)[k - nf - c.len()] == s.id);
    }
}

/// Each step is taken once. One that is to be paused first is paused, then resumed; where the
/// pause fails it is passed over. What was resumed is counted.
pub proof fn law_steps_are_taken_once(s: RestartState, ok: bool)
    requires
        0 <= s.at < s.steps.len(),
    ensures
        after_action(s, ok).steps == s.steps,
        after_action(s, ok).delay == s.delay,
        s.steps[s.at].pause_first && !s.paused && ok ==> after_action(s, ok).at == s.at
            && after_action(s, ok).paused && after_action(s, ok).restarted == s.restarted,
        s.steps[s.at].pause_first && !s.paused && !ok ==> after_action(s, ok).at == s.at + 1
            && !after_action(s, ok).paused && after_action(s, ok).restarted == s.restarted,
        !s.steps[s.at].pause_first || s.paused ==> after_action(s, ok).at == s.at + 1
            && !after_action(s, ok).paused && after_action(s, ok).restarted == s.restarted + if ok {
            1int
        } else {
            0
        },
{
}

/// Each list of the plan names what it restarts in order and once, and names nothing that no row
/// asks for.
pub proof fn law_plan_names_each_once(
    plan: RestartPlan,
    rows: Seq<subtasks::SubtaskView>,
    i: int,
    j: int,
)
    requires
        is_plan(plan, rows),
        0 <= i < j,
    ensures
        j < plan.paused_folders@.len() ==> sorting::comes_before(
            plan.paused_folders@[i]@,
            plan.paused_folders@[j]@,
        ),
        j < plan.folders@.len() ==> sorting::comes_before(plan.folders@[i]@, plan.folders@[j]@),
        j < plan.paused_tasks@.len() ==> sorting::comes_before(
            plan.paused_tasks@[i]@,
            plan.paused_tasks@[j]@,
        ),
        j < plan.tasks@.len() ==> sorting::comes_before(plan.tasks@[i]@, plan.tasks@[j]@),
{
    lemma_listed_in_order(plan.paused_folders@, i, j);
    lemma_listed_in_order(plan.folders@, i, j);
    lemma_listed_in_order(plan.paused_tasks@, i, j);
    lemma_listed_in_order(plan.tasks@, i, j);
}

proof fn lemma_listed_in_order(ids: Seq<String>, i: int, j: int)
    requires
        sorting::strictly_sorted(text::texts(ids)),
        0 <= i < j,
    ensures
        j < ids.len() ==> sorting::comes_before(ids[i]@, ids[j]@),
{
    if j < ids.len() {
        let t = text::texts(ids);
        assert(t[i] == ids[i]@ && t[j] == ids[j]@);
        sorting::law_text_order(ids[i]@, ids[j]@);
    }
}

} // verus!
