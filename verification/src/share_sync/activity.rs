//! Whether a task has moved.
use vstd::prelude::*;

use crate::share_sync::subtasks;
use crate::share_sync::subtasks::ShareSyncSubtask;
use crate::sorting;
use crate::sorting::{sort_stable, text_before, Keyed};
use crate::text;
use crate::text::same;
use crate::transfer::{TransferStatus, TransferTask};

verus! {

/// What of a row shows that it has moved. Its speed does not.
#[derive(Debug)]
pub struct SubtaskActivitySignature {
    pub task_id: String,
    pub kind: String,
    pub status: String,
    pub downloaded: u64,
    pub total: u64,
    /// Thousandths of a percent.
    pub progress_millis: u64,
}

/// What a `SubtaskActivitySignature` holds.
#[verifier::ext_equal]
pub struct SubtaskActivityView {
    pub task_id: Seq<char>,
    pub kind: Seq<char>,
    pub status: Seq<char>,
    pub downloaded: u64,
    pub total: u64,
    pub progress_millis: u64,
}

impl View for SubtaskActivitySignature {
    type V = SubtaskActivityView;

    open spec fn view(&self) -> SubtaskActivityView {
        SubtaskActivityView {
            task_id: self.task_id@,
            kind: self.kind@,
            status: self.status@,
            downloaded: self.downloaded,
            total: self.total,
            progress_millis: self.progress_millis,
        }
    }
}

/// The key of a text followed by a further key: the text's end comes before any of its
/// characters.
pub open spec fn key_and(s: Seq<char>, rest: Seq<int>) -> Seq<int> {
    s.map_values(|c: char| c as int + 1) + seq![0int] + rest
}

proof fn lemma_code_is_natural(c: char)
    ensures
        c as int >= 0,
{
}

/// Such keys are ordered by their texts and, where these are equal, by what follows.
pub proof fn lemma_key_and(a: Seq<char>, ra: Seq<int>, b: Seq<char>, rb: Seq<int>)
    ensures
        sorting::lex_lt(key_and(a, ra), key_and(b, rb)) == (sorting::lex_lt(
            sorting::text_key(a),
            sorting::text_key(b),
        ) || (a == b && sorting::lex_lt(ra, rb))),
    decreases a.len(),
{
    let x = key_and(a, ra);
    let y = key_and(b, rb);
    let ka = sorting::text_key(a);
    let kb = sorting::text_key(b);
    assert(x.len() == a.len() + 1 + ra.len());
    assert(y.len() == b.len() + 1 + rb.len());
    assert(ka.len() == a.len() && kb.len() == b.len());
    if a.len() == 0 {
        assert(x[0] == 0);
        assert(x.skip(1) =~= ra);
        if b.len() == 0 {
            assert(a =~= b);
            assert(y[0] == 0);
            assert(y.skip(1) =~= rb);
        } else {
            assert(y[0] == b[0] as int + 1);
            lemma_code_is_natural(b[0]);
        }
    } else if b.len() == 0 {
        assert(x[0] == a[0] as int + 1);
        assert(y[0] == 0);
        lemma_code_is_natural(a[0]);
    } else {
        assert(x[0] == a[0] as int + 1);
        assert(y[0] == b[0] as int + 1);
        assert(x.skip(1) =~= key_and(a.skip(1), ra));
        assert(y.skip(1) =~= key_and(b.skip(1), rb));
        assert(ka.skip(1) =~= sorting::text_key(a.skip(1)));
        assert(kb.skip(1) =~= sorting::text_key(b.skip(1)));
        assert(ka[0] == a[0] as int);
        assert(kb[0] == b[0] as int);
        if a[0] as int != b[0] as int {
            assert(sorting::lex_lt(x, y) == (x[0] < y[0]));
            assert(sorting::lex_lt(ka, kb) == (ka[0] < kb[0]));
        } else {
            lemma_key_and(a.skip(1), ra, b.skip(1), rb);
            assert(sorting::lex_lt(x, y) == sorting::lex_lt(x.skip(1), y.skip(1)));
            assert(sorting::lex_lt(ka, kb) == sorting::lex_lt(ka.skip(1), kb.skip(1)));
            if a.skip(1) == b.skip(1) {
                assert(a =~= seq![a[0]] + a.skip(1));
                assert(b =~= seq![b[0]] + b.skip(1));
                assert(a == b);
            }
        }
    }
}

/// By id, then by kind, then by state.
impl Keyed for SubtaskActivitySignature {
    open spec fn key(&self) -> Seq<int> {
        key_and(self.task_id@, key_and(self.kind@, sorting::text_key(self.status@)))
    }

    fn before(&self, other: &Self) -> (r: bool) {
        proof {
            lemma_key_and(
                self.task_id@,
                key_and(self.kind@, sorting::text_key(self.status@)),
                other.task_id@,
                key_and(other.kind@, sorting::text_key(other.status@)),
            );
            lemma_key_and(
                self.kind@,
                sorting::text_key(self.status@),
                other.kind@,
                sorting::text_key(other.status@),
            );
            sorting::lemma_lex_irreflexive(sorting::text_key(self.task_id@));
            sorting::lemma_lex_irreflexive(sorting::text_key(self.kind@));
        }
        if !same(self.task_id.as_str(), other.task_id.as_str()) {
            return text_before(self.task_id.as_str(), other.task_id.as_str());
        }
        if !same(self.kind.as_str(), other.kind.as_str()) {
            return text_before(self.kind.as_str(), other.kind.as_str());
        }
        text_before(self.status.as_str(), other.status.as_str())
    }

    fn dup(&self) -> (r: Self) {
        SubtaskActivitySignature {
            task_id: self.task_id.clone(),
            kind: self.kind.clone(),
            status: self.status.clone(),
            downloaded: self.downloaded,
            total: self.total,
            progress_millis: self.progress_millis,
        }
    }
}

/// What of a row shows that it has moved.
pub open spec fn row_activity(row: subtasks::SubtaskView) -> SubtaskActivityView {
    SubtaskActivityView {
        task_id: row.task_id,
        kind: row.kind,
        status: row.status,
        downloaded: row.downloaded,
        total: row.total,
        progress_millis: subtasks::progress_millis(row.progress) as u64,
    }
}

/// What several signatures hold.
pub open spec fn activity_views(v: Seq<SubtaskActivitySignature>) -> Seq<SubtaskActivityView> {
    v.map_values(|s: SubtaskActivitySignature| s@)
}

/// What of several rows shows that they have moved.
pub open spec fn row_activities(rows: Seq<subtasks::SubtaskView>) -> Seq<SubtaskActivityView> {
    rows.map_values(|r: subtasks::SubtaskView| row_activity(r))
}

/// What of a task and its rows shows that it has moved.
#[derive(Debug)]
pub struct TaskActivitySignature {
    pub status: TransferStatus,
    pub transferred_count: usize,
    pub total_count: usize,
    pub updated_at: i64,
    pub download_task_ids: Vec<String>,
    pub completed_download_ids: Vec<String>,
    pub failed_download_ids: Vec<String>,
    pub subtasks: Vec<SubtaskActivitySignature>,
}

/// What a `TaskActivitySignature` holds.
#[verifier::ext_equal]
pub struct TaskActivityView {
    pub status: TransferStatus,
    pub transferred_count: usize,
    pub total_count: usize,
    pub updated_at: i64,
    pub download_task_ids: Seq<Seq<char>>,
    pub completed_download_ids: Seq<Seq<char>>,
    pub failed_download_ids: Seq<Seq<char>>,
    pub subtasks: Seq<SubtaskActivityView>,
}

impl View for TaskActivitySignature {
    type V = TaskActivityView;

    open spec fn view(&self) -> TaskActivityView {
        TaskActivityView {
            status: self.status,
            transferred_count: self.transferred_count,
            total_count: self.total_count,
            updated_at: self.updated_at,
            download_task_ids: text::texts(self.download_task_ids@),
            completed_download_ids: text::texts(self.completed_download_ids@),
            failed_download_ids: text::texts(self.failed_download_ids@),
            subtasks: activity_views(self.subtasks@),
        }
    }
}

/// `sig` lists what `rows` show, sorted by id, kind and state; rows equal in these keep
/// their order.
pub open spec fn is_sorted_activity(
    sig: Seq<SubtaskActivitySignature>,
    rows: Seq<subtasks::SubtaskView>,
) -> bool {
    exists|unsorted: Seq<SubtaskActivitySignature>|
        activity_views(unsorted) == row_activities(rows) && #[trigger] sorting::is_stable_sort(
            sig,
            unsorted,
        )
}

/// `sig` is the signature of the task with the rows.
pub open spec fn is_activity(
    sig: TaskActivitySignature,
    task: TransferTask,
    rows: Seq<subtasks::SubtaskView>,
) -> bool {
    &&& sig.status == task.status
    &&& sig.transferred_count == task.transferred_count
    &&& sig.total_count == task.total_count
    &&& sig.updated_at == task.updated_at
    &&& sorting::is_stable_sort(sig.download_task_ids@, task.download_task_ids@)
    &&& sorting::is_stable_sort(sig.completed_download_ids@, task.completed_download_ids@)
    &&& sorting::is_stable_sort(sig.failed_download_ids@, task.failed_download_ids@)
    &&& is_sorted_activity(sig.subtasks@, rows)
}

/// What of a task and its rows shows that it has moved.
pub fn task_activity_signature(task: &TransferTask, rows: &Vec<ShareSyncSubtask>) -> (r:
    TaskActivitySignature)
    ensures
        is_activity(r, *task, subtasks::row_views(rows@)),
{
    let ghost views = subtasks::row_views(rows@);
    let mut unsorted: Vec<SubtaskActivitySignature> = Vec::new();
    let mut i: usize = 0;
    assert(activity_views(unsorted@) =~= row_activities(views.take(0)));
    while i < rows.len()
        invariant
            i <= rows@.len(),
            views == subtasks::row_views(rows@),
            activity_views(unsorted@) == row_activities(views.take(i as int)),
        decreases rows@.len() - i,
    {
        let ghost before = activity_views(unsorted@);
        let row = &rows[i];
        let one = SubtaskActivitySignature {
            task_id: row.task_id.clone(),
            kind: row.kind.clone(),
            status: row.status.clone(),
            downloaded: row.downloaded,
            total: row.total,
            progress_millis: row.progress.millis(),
        };
        let ghost gone = one@;
        unsorted.push(one);
        i += 1;
        proof {
            assert(views[i - 1] == row@);
            assert(gone == row_activity(row@));
            assert(activity_views(unsorted@) =~= before.push(gone));
            assert(row_activities(views.take(i as int)) =~= before.push(gone));
        }
    }
    assert(views.take(i as int) =~= views);
    let sorted = sort_stable(&unsorted);
    assert(sorting::is_stable_sort(sorted@, unsorted@));
    TaskActivitySignature {
        status: task.status,
        transferred_count: task.transferred_count,
        total_count: task.total_count,
        updated_at: task.updated_at,
        download_task_ids: sort_stable(&task.download_task_ids),
        completed_download_ids: sort_stable(&task.completed_download_ids),
        failed_download_ids: sort_stable(&task.failed_download_ids),
        subtasks: sorted,
    }
}

/// Whether two lists of texts are equal.
fn same_texts(a: &Vec<String>, b: &Vec<String>) -> (r: bool)
    ensures
        r == (text::texts(a@) == text::texts(b@)),
{
    let ghost x = text::texts(a@);
    let ghost y = text::texts(b@);
    if a.len() != b.len() {
        assert(x.len() != y.len());
        return false;
    }
    let mut i: usize = 0;
    while i < a.len()
        invariant
            i <= a@.len() == b@.len(),
            x == text::texts(a@),
            y == text::texts(b@),
            forall|k: int| 0 <= k < i ==> x[k] == y[k],
        decreases a@.len() - i,
    {
        assert(x[i as int] == a@[i as int]@);
        assert(y[i as int] == b@[i as int]@);
        if !same(a[i].as_str(), b[i].as_str()) {
            return false;
        }
        i += 1;
    }
    assert(x =~= y);
    true
}

fn same_activity(a: &SubtaskActivitySignature, b: &SubtaskActivitySignature) -> (r: bool)
    ensures
        r == (a@ == b@),
{
    same(a.task_id.as_str(), b.task_id.as_str()) && same(a.kind.as_str(), b.kind.as_str()) && same(
        a.status.as_str(),
        b.status.as_str(),
    ) && a.downloaded == b.downloaded && a.total == b.total && a.progress_millis
        == b.progress_millis
}

fn same_activities(
    a: &Vec<SubtaskActivitySignature>,
    b: &Vec<SubtaskActivitySignature>,
) -> (r: bool)
    ensures
        r == (activity_views(a@) == activity_views(b@)),
{
    let ghost x = activity_views(a@);
    let ghost y = activity_views(b@);
    if a.len() != b.len() {
        assert(x.len() != y.len());
        return false;
    }
    let mut i: usize = 0;
    while i < a.len()
        invariant
            i <= a@.len() == b@.len(),
            x == activity_views(a@),
            y == activity_views(b@),
            forall|k: int| 0 <= k < i ==> x[k] == y[k],
        decreases a@.len() - i,
    {
        assert(x[i as int] == a@[i as int]@);
        assert(y[i as int] == b@[i as int]@);
        if !same_activity(&a[i], &b[i]) {
            return false;
        }
        i += 1;
    }
    assert(x =~= y);
    true
}

impl TaskActivitySignature {
    /// Whether nothing has moved between the two.
    pub fn same_as(&self, other: &TaskActivitySignature) -> (r: bool)
        ensures
            r == (self@ == other@),
    {
        self.status == other.status && self.transferred_count == other.transferred_count
            && self.total_count == other.total_count && self.updated_at == other.updated_at
            && same_texts(&self.download_task_ids, &other.download_task_ids) && same_texts(
            &self.completed_download_ids,
            &other.completed_download_ids,
        ) && same_texts(&self.failed_download_ids, &other.failed_download_ids) && same_activities(
            &self.subtasks,
            &other.subtasks,
        )
    }
}

/// Rows that differ in nothing but what does not show movement, such as their speed, give
/// signatures that are equal.
pub proof fn law_activity_ignores_the_rest(
    a: Seq<SubtaskActivitySignature>,
    b: Seq<SubtaskActivitySignature>,
    x: Seq<subtasks::SubtaskView>,
    y: Seq<subtasks::SubtaskView>,
)
    requires
        row_activities(x) == row_activities(y),
        is_sorted_activity(a, x),
        is_sorted_activity(b, y),
    ensures
        activity_views(a) == activity_views(b),
{
    let ux = choose|u: Seq<SubtaskActivitySignature>|
        activity_views(u) == row_activities(x) && #[trigger] sorting::is_stable_sort(a, u);
    let uy = choose|u: Seq<SubtaskActivitySignature>|
        activity_views(u) == row_activities(y) && #[trigger] sorting::is_stable_sort(b, u);
    let oa = choose|order: Seq<int>| #[trigger]
        sorting::is_order(order, ux, 0, ux.len() as int) && a == sorting::reordered(ux, order);
    let ob = choose|order: Seq<int>| #[trigger]
        sorting::is_order(order, uy, 0, uy.len() as int) && b == sorting::reordered(uy, order);
    lemma_views_len(ux);
    lemma_views_len(uy);
    assert forall|i: int| 0 <= i < ux.len() implies (#[trigger] ux[i]).key() == uy[i].key() by {
        assert(activity_views(ux)[i] == ux[i]@);
        assert(activity_views(uy)[i] == uy[i]@);
    }
    sorting::lemma_order_unique(oa, ob, ux, uy);
    assert forall|i: int| 0 <= i < a.len() implies a[i]@ == b[i]@ by {
        assert(a[i] == ux[oa[i]]);
        assert(b[i] == uy[ob[i]]);
        assert(activity_views(ux)[oa[i]] == ux[oa[i]]@);
        assert(activity_views(uy)[oa[i]] == uy[oa[i]]@);
    }
    assert(activity_views(a) =~= activity_views(b));
}

/// A row that has moved, with nothing else changed in ids, kinds and states, changes the
/// signature.
pub proof fn law_activity_shows_movement(
    a: Seq<SubtaskActivitySignature>,
    b: Seq<SubtaskActivitySignature>,
    x: Seq<subtasks::SubtaskView>,
    y: Seq<subtasks::SubtaskView>,
    i: int,
)
    requires
        x.len() == y.len(),
        forall|k: int|
            0 <= k < x.len() ==> (#[trigger] x[k]).task_id == y[k].task_id && x[k].kind == y[k].kind
                && x[k].status == y[k].status,
        0 <= i < x.len(),
        row_activity(x[i]) != row_activity(y[i]),
        is_sorted_activity(a, x),
        is_sorted_activity(b, y),
    ensures
        activity_views(a) != activity_views(b),
{
    let ux = choose|u: Seq<SubtaskActivitySignature>|
        activity_views(u) == row_activities(x) && #[trigger] sorting::is_stable_sort(a, u);
    let uy = choose|u: Seq<SubtaskActivitySignature>|
        activity_views(u) == row_activities(y) && #[trigger] sorting::is_stable_sort(b, u);
    let oa = choose|order: Seq<int>| #[trigger]
        sorting::is_order(order, ux, 0, ux.len() as int) && a == sorting::reordered(ux, order);
    let ob = choose|order: Seq<int>| #[trigger]
        sorting::is_order(order, uy, 0, uy.len() as int) && b == sorting::reordered(uy, order);
    lemma_views_len(ux);
    lemma_views_len(uy);
    assert forall|k: int| 0 <= k < ux.len() implies (#[trigger] ux[k]).key() == uy[k].key() by {
        assert(activity_views(ux)[k] == ux[k]@ && row_activities(x)[k] == row_activity(x[k]));
        assert(activity_views(uy)[k] == uy[k]@ && row_activities(y)[k] == row_activity(y[k]));
        assert(x[k].task_id == y[k].task_id);
    }
    sorting::lemma_order_unique(oa, ob, ux, uy);
    assert(oa.contains(i));
    let p = choose|p: int| 0 <= p < oa.len() && oa[p] == i;
    assert(activity_views(ux)[i] == ux[i]@ && row_activities(x)[i] == row_activity(x[i]));
    assert(activity_views(uy)[i] == uy[i]@ && row_activities(y)[i] == row_activity(y[i]));
    assert(a[p] == ux[i] && b[p] == uy[i]);
    assert(activity_views(a)[p] == a[p]@);
    assert(activity_views(b)[p] == b[p]@);
}

/// No two rows have the same id.
pub open spec fn distinct_ids(rows: Seq<subtasks::SubtaskView>) -> bool {
    forall|i: int, j: int|
        0 <= i < j < rows.len() ==> (#[trigger] rows[i]).task_id != (#[trigger] rows[j]).task_id
}

/// The same texts, each as often, in some order.
pub open spec fn same_texts_in_some_order(a: Seq<String>, b: Seq<String>) -> bool {
    text::texts(a).to_multiset() == text::texts(b).to_multiset()
}

/// Two tasks differ in nothing that shows movement but, perhaps, in the order of their lists.
pub open spec fn same_task(a: TransferTask, b: TransferTask) -> bool {
    &&& a.status == b.status
    &&& a.transferred_count == b.transferred_count
    &&& a.total_count == b.total_count
    &&& a.updated_at == b.updated_at
    &&& same_texts_in_some_order(a.download_task_ids@, b.download_task_ids@)
    &&& same_texts_in_some_order(a.completed_download_ids@, b.completed_download_ids@)
    &&& same_texts_in_some_order(a.failed_download_ids@, b.failed_download_ids@)
}

/// Two rows differ in nothing but speed, time left, name, parent and owner.
pub open spec fn differs_in_noise(a: subtasks::SubtaskView, b: subtasks::SubtaskView) -> bool {
    b == (subtasks::SubtaskView {
        speed: b.speed,
        eta_seconds: b.eta_seconds,
        name: b.name,
        parent_task_id: b.parent_task_id,
        owner_uid: b.owner_uid,
        ..a
    })
}

proof fn lemma_sorted_texts(r: Seq<String>, v: Seq<String>)
    requires
        sorting::is_stable_sort(r, v),
    ensures
        text::texts(r).to_multiset() == text::texts(v).to_multiset(),
        forall|i: int, j: int|
            0 <= i < j < r.len() ==> !sorting::lex_lt(
                sorting::text_key(#[trigger] text::texts(r)[j]),
                sorting::text_key(#[trigger] text::texts(r)[i]),
            ),
{
    let order = choose|order: Seq<int>| #[trigger]
        sorting::is_order(order, v, 0, v.len() as int) && r == sorting::reordered(v, order);
    sorting::lemma_order_is_permutation(order, v);
    sorting::lemma_reordered_elements(text::texts(v), order);
    assert(text::texts(r) =~= sorting::reordered(text::texts(v), order));
    assert forall|i: int, j: int| 0 <= i < j < r.len() implies !sorting::lex_lt(
        sorting::text_key(#[trigger] text::texts(r)[j]),
        sorting::text_key(#[trigger] text::texts(r)[i]),
    ) by {
        sorting::lemma_stable_sort_sorted(r, v, i, j);
    }
}

proof fn lemma_sorted_texts_agree(a: Seq<String>, x: Seq<String>, b: Seq<String>, y: Seq<String>)
    requires
        sorting::is_stable_sort(a, x),
        sorting::is_stable_sort(b, y),
    ensures
        text::texts(a) == text::texts(b) <==> same_texts_in_some_order(x, y),
{
    lemma_sorted_texts(a, x);
    lemma_sorted_texts(b, y);
    let (ta, tb) = (text::texts(a), text::texts(b));
    if same_texts_in_some_order(x, y) {
        assert forall|i: int, j: int|
            0 <= i < ta.len() && 0 <= j < ta.len() && sorting::text_key(#[trigger] ta[i])
                == sorting::text_key(#[trigger] ta[j]) implies ta[i] == ta[j] by {
            sorting::lemma_text_key_injective(ta[i], ta[j]);
        }
        sorting::lemma_sorted_once(ta, tb, |s: Seq<char>| sorting::text_key(s));
    }
}

/// The key by which the signature of a row is sorted.
spec fn activity_key(v: SubtaskActivityView) -> Seq<int> {
    key_and(v.task_id, key_and(v.kind, sorting::text_key(v.status)))
}

proof fn lemma_sorted_activity(a: Seq<SubtaskActivitySignature>, x: Seq<subtasks::SubtaskView>)
    requires
        is_sorted_activity(a, x),
    ensures
        activity_views(a).to_multiset() == row_activities(x).to_multiset(),
        forall|i: int, j: int|
            0 <= i < j < a.len() ==> !sorting::lex_lt(
                activity_key(#[trigger] activity_views(a)[j]),
                activity_key(#[trigger] activity_views(a)[i]),
            ),
{
    let u = choose|u: Seq<SubtaskActivitySignature>|
        activity_views(u) == row_activities(x) && #[trigger] sorting::is_stable_sort(a, u);
    let order = choose|order: Seq<int>| #[trigger]
        sorting::is_order(order, u, 0, u.len() as int) && a == sorting::reordered(u, order);
    sorting::lemma_order_is_permutation(order, u);
    lemma_views_len(u);
    sorting::lemma_reordered_elements(activity_views(u), order);
    assert(activity_views(a) =~= sorting::reordered(activity_views(u), order));
    assert forall|i: int, j: int| 0 <= i < j < a.len() implies !sorting::lex_lt(
        activity_key(#[trigger] activity_views(a)[j]),
        activity_key(#[trigger] activity_views(a)[i]),
    ) by {
        sorting::lemma_stable_sort_sorted(a, u, i, j);
        assert(activity_views(a)[i] == a[i]@ && activity_views(a)[j] == a[j]@);
    }
}

proof fn lemma_distinct_keys(
    a: Seq<SubtaskActivitySignature>,
    x: Seq<subtasks::SubtaskView>,
    i: int,
    j: int,
)
    requires
        is_sorted_activity(a, x),
        distinct_ids(x),
        0 <= i < a.len(),
        0 <= j < a.len(),
        activity_key(activity_views(a)[i]) == activity_key(activity_views(a)[j]),
    ensures
        activity_views(a)[i] == activity_views(a)[j],
{
    let (v, w) = (activity_views(a)[i], activity_views(a)[j]);
    lemma_sorted_activity(a, x);
    let rows = row_activities(x);
    vstd::seq_lib::to_multiset_contains(rows, v);
    vstd::seq_lib::to_multiset_contains(rows, w);
    vstd::seq_lib::to_multiset_contains(activity_views(a), v);
    vstd::seq_lib::to_multiset_contains(activity_views(a), w);
    assert(activity_views(a).contains(v) && activity_views(a).contains(w));
    let k = choose|k: int| 0 <= k < rows.len() && rows[k] == v;
    let m = choose|m: int| 0 <= m < rows.len() && rows[m] == w;
    assert(rows[k] == row_activity(x[k]) && rows[m] == row_activity(x[m]));
    let rest = |s: SubtaskActivityView| key_and(s.kind, sorting::text_key(s.status));
    lemma_key_and(v.task_id, rest(v), w.task_id, rest(w));
    lemma_key_and(w.task_id, rest(w), v.task_id, rest(v));
    sorting::lemma_lex_irreflexive(activity_key(v));
    sorting::lemma_lex_total(sorting::text_key(v.task_id), sorting::text_key(w.task_id));
    sorting::lemma_text_key_injective(v.task_id, w.task_id);
    assert(x[k].task_id == x[m].task_id);
    assert(k == m);
}

/// Two signatures are equal exactly when the tasks differ in nothing that shows movement, and the
/// same rows are there as far as they show movement. Neither the order of rows nor that of the
/// lists of the task matters.
pub proof fn law_equal_activity(
    a: TaskActivitySignature,
    t: TransferTask,
    x: Seq<subtasks::SubtaskView>,
    b: TaskActivitySignature,
    u: TransferTask,
    y: Seq<subtasks::SubtaskView>,
)
    requires
        is_activity(a, t, x),
        is_activity(b, u, y),
        distinct_ids(x),
    ensures
        a@ == b@ <==> same_task(t, u) && row_activities(x).to_multiset() == row_activities(
            y,
        ).to_multiset(),
{
    lemma_sorted_texts_agree(
        a.download_task_ids@,
        t.download_task_ids@,
        b.download_task_ids@,
        u.download_task_ids@,
    );
    lemma_sorted_texts_agree(
        a.completed_download_ids@,
        t.completed_download_ids@,
        b.completed_download_ids@,
        u.completed_download_ids@,
    );
    lemma_sorted_texts_agree(
        a.failed_download_ids@,
        t.failed_download_ids@,
        b.failed_download_ids@,
        u.failed_download_ids@,
    );
    lemma_sorted_activity(a.subtasks@, x);
    lemma_sorted_activity(b.subtasks@, y);
    let (va, vb) = (activity_views(a.subtasks@), activity_views(b.subtasks@));
    if row_activities(x).to_multiset() == row_activities(y).to_multiset() {
        assert forall|i: int, j: int|
            0 <= i < va.len() && 0 <= j < va.len() && activity_key(#[trigger] va[i])
                == activity_key(#[trigger] va[j]) implies va[i] == va[j] by {
            lemma_distinct_keys(a.subtasks@, x, i, j);
        }
        sorting::lemma_sorted_once(va, vb, |s: SubtaskActivityView| activity_key(s));
    }
    if a@ == b@ {
        assert(va == vb);
    }
}

/// Rows in another order, which differ in nothing but speed, time left, name, parent and owner,
/// give the same signature; so do the lists of the task in another order.
pub proof fn law_activity_ignores_order_and_noise(
    a: TaskActivitySignature,
    t: TransferTask,
    x: Seq<subtasks::SubtaskView>,
    b: TaskActivitySignature,
    u: TransferTask,
    y: Seq<subtasks::SubtaskView>,
    order: Seq<int>,
)
    requires
        is_activity(a, t, x),
        is_activity(b, u, y),
        distinct_ids(x),
        same_task(t, u),
        x.len() == y.len(),
        sorting::is_permutation(order, x.len()),
        forall|k: int| 0 <= k < y.len() ==> differs_in_noise(x[order[k]], #[trigger] y[k]),
    ensures
        a@ == b@,
{
    sorting::lemma_reordered_elements(row_activities(x), order);
    let moved = sorting::reordered(row_activities(x), order);
    assert forall|k: int| 0 <= k < y.len() implies row_activities(y)[k] == #[trigger] moved[k] by {
        assert(differs_in_noise(x[order[k]], y[k]));
        assert(moved[k] == row_activities(x)[order[k]]);
    }
    assert(row_activities(y) =~= moved);
    law_equal_activity(a, t, x, b, u, y);
}

/// A row that has moved shows: where the row of an id has another state, other bytes or another
/// total than the row of that id had, the signatures differ, in whatever order the rows come and
/// whatever else has changed.
pub proof fn law_activity_shows_a_changed_row(
    a: TaskActivitySignature,
    t: TransferTask,
    x: Seq<subtasks::SubtaskView>,
    b: TaskActivitySignature,
    u: TransferTask,
    y: Seq<subtasks::SubtaskView>,
    i: int,
    j: int,
)
    requires
        is_activity(a, t, x),
        is_activity(b, u, y),
        distinct_ids(y),
        0 <= i < x.len(),
        0 <= j < y.len(),
        x[i].task_id == y[j].task_id,
        x[i].status != y[j].status || x[i].downloaded != y[j].downloaded || x[i].total
            != y[j].total,
    ensures
        a@ != b@,
{
    if a@ == b@ {
        lemma_sorted_activity(a.subtasks@, x);
        lemma_sorted_activity(b.subtasks@, y);
        assert(activity_views(a.subtasks@) == activity_views(b.subtasks@));
        let (rx, ry) = (row_activities(x), row_activities(y));
        let v = rx[i];
        assert(rx.contains(v));
        vstd::seq_lib::to_multiset_contains(rx, v);
        vstd::seq_lib::to_multiset_contains(ry, v);
        let k = choose|k: int| 0 <= k < ry.len() && ry[k] == v;
        assert(ry[k] == row_activity(y[k]) && rx[i] == row_activity(x[i]));
        assert(k == j);
    }
}

proof fn lemma_views_len(v: Seq<SubtaskActivitySignature>)
    ensures
        activity_views(v).len() == v.len(),
{
}

} // verus!
