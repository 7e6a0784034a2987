//! What the two share systems have in common.
use vstd::prelude::*;

use crate::netdisk::json;
use crate::netdisk::json::{show_json, text_at, Json};
use crate::numbers;
use crate::numbers::parse_u64;
use crate::text;
use crate::text::{find_char, same};
use crate::transfer;
use crate::transfer::SharedFileInfo;

verus! {

/// The text that a value stands for: a text that is not empty, or a number. The service
/// gives one and the same field now as a number, now as a text.
pub open spec fn text_or_number(j: Json) -> Option<Seq<char>> {
    match j {
        Json::Text(s) => if s@.len() > 0 {
            Some(s@)
        } else {
            None
        },
        _ => json::number_text(j),
    }
}

/// The text that a value stands for.
pub fn json_str_or_num(value: &Json) -> (r: Option<String>)
    ensures
        text::opt_text(r) == text_or_number(*value),
{
    match value {
        Json::Text(s) => if s.as_str().is_empty() {
            None
        } else {
            Some(s.clone())
        },
        _ => value.number(),
    }
}

/// The number that a value stands for, as a number or as a text; zero where it stands for
/// none.
pub open spec fn number_or_zero(j: Json) -> u64 {
    match j {
        Json::Unsigned(n) => n,
        Json::Text(s) => match numbers::unsigned_of(s@, u64::MAX as nat) {
            Some(n) => n as u64,
            None => 0,
        },
        _ => 0,
    }
}

/// The number that a value stands for.
pub fn json_u64(value: &Json) -> (r: u64)
    ensures
        r == number_or_zero(*value),
{
    match value {
        Json::Unsigned(n) => *n,
        Json::Text(s) => match parse_u64(s.as_str()) {
            Some(n) => n,
            None => 0,
        },
        _ => 0,
    }
}

/// The flag that a value stands for: the number one, the text `1`, or true.
pub open spec fn flag_of(j: Json) -> bool {
    match json::i64_of(j) {
        Some(n) => n == 1,
        None => match j {
            Json::Text(s) => s@ == "1"@,
            Json::Bool(b) => b,
            _ => false,
        },
    }
}

/// The flag that a value stands for.
pub fn json_flag(value: &Json) -> (r: bool)
    ensures
        r == flag_of(*value),
{
    match value.as_i64() {
        Some(n) => n == 1,
        None => match value {
            Json::Text(s) => same(s.as_str(), "1"),
            Json::Bool(b) => *b,
            _ => false,
        },
    }
}

// ---------------------------------------------------------------------------
// Entries
// ---------------------------------------------------------------------------
/// The entry that a value describes. The id stands under one name in one system and under
/// another in the other.
pub open spec fn shared_file(j: Json) -> transfer::FileView {
    transfer::FileView {
        fs_id: number_or_zero(
            match json::get(j, "fs_id"@) {
                Some(v) => v,
                None => json::at(j, "fsid"@),
            },
        ),
        is_dir: flag_of(json::at(j, "isdir"@)),
        path: json::text_or_empty(json::at(j, "path"@)),
        size: number_or_zero(json::at(j, "size"@)),
        name: json::text_or_empty(json::at(j, "server_filename"@)),
    }
}

/// The entries that values describe.
pub open spec fn shared_files(list: Seq<Json>) -> Seq<transfer::FileView> {
    list.map_values(|j: Json| shared_file(j))
}

fn parse_shared_file(item: &Json) -> (r: SharedFileInfo)
    ensures
        r@ == shared_file(*item),
{
    let fs_id: u64 = match item.get("fs_id") {
        Some(v) => json_u64(v),
        None => match item.get("fsid") {
            Some(v) => json_u64(v),
            None => 0,
        },
    };
    let is_dir = match item.get("isdir") {
        Some(v) => json_flag(v),
        None => false,
    };
    let size: u64 = match item.get("size") {
        Some(v) => json_u64(v),
        None => 0,
    };
    SharedFileInfo {
        fs_id,
        is_dir,
        path: text_at(item, "path"),
        size,
        name: text_at(item, "server_filename"),
    }
}

/// The entries that values describe.
pub fn parse_shared_files(list: &Vec<Json>) -> (r: Vec<SharedFileInfo>)
    ensures
        transfer::file_views(r@) == shared_files(list@),
{
    let mut r: Vec<SharedFileInfo> = Vec::new();
    let mut i: usize = 0;
    assert(transfer::file_views(r@) =~= shared_files(list@.take(0)));
    while i < list.len()
        invariant
            i <= list@.len(),
            transfer::file_views(r@) == shared_files(list@.take(i as int)),
        decreases list@.len() - i,
    {
        let ghost before = transfer::file_views(r@);
        let one = parse_shared_file(&list[i]);
        let ghost gone = one@;
        r.push(one);
        i += 1;
        assert(transfer::file_views(r@) =~= before.push(gone));
        assert(shared_files(list@.take(i as int)) =~= before.push(gone));
    }
    assert(list@.take(i as int) =~= list@);
    r
}

/// What a value tells of an entry that was copied.
#[verifier::ext_equal]
pub struct CopiedEntry {
    /// Where it is now.
    pub to: Seq<char>,
    /// Where it was, as far as that is told.
    pub from: Seq<char>,
    /// The id that it has now, as far as that is told.
    pub fs_id: Option<u64>,
}

/// The entry that a value tells of: one that says where the entry is now.
pub open spec fn copied_entry(j: Json) -> Option<CopiedEntry> {
    match json::text_of(json::at(j, "to"@)) {
        Some(to) => Some(
            CopiedEntry {
                to,
                from: json::text_or_empty(json::at(j, "from"@)),
                fs_id: json::u64_of(json::at(j, "to_fs_id"@)),
            },
        ),
        None => None,
    }
}

/// The entries that values tell of, in their order.
pub open spec fn copied_entries(list: Seq<Json>) -> Seq<CopiedEntry>
    decreases list.len(),
{
    if list.len() == 0 {
        Seq::empty()
    } else {
        let front = copied_entries(list.drop_last());
        match copied_entry(list.last()) {
            Some(e) => front.push(e),
            None => front,
        }
    }
}

/// Where the entries are now.
pub open spec fn copied_to(entries: Seq<CopiedEntry>) -> Seq<Seq<char>> {
    entries.map_values(|e: CopiedEntry| e.to)
}

/// Where the entries were; an empty text where that is not told.
pub open spec fn copied_from(entries: Seq<CopiedEntry>) -> Seq<Seq<char>> {
    entries.map_values(|e: CopiedEntry| e.from)
}

/// The ids that the entries have now; 0 where that is not told.
pub open spec fn copied_ids(entries: Seq<CopiedEntry>) -> Seq<u64> {
    entries.map_values(
        |e: CopiedEntry|
            match e.fs_id {
                Some(n) => n,
                None => 0,
            },
    )
}

/// Some value tells the id of an entry.
pub open spec fn tells_ids(list: Seq<Json>) -> bool {
    exists|i: int|
        0 <= i < list.len() && json::u64_of(json::at(#[trigger] list[i], "to_fs_id"@)) is Some
}

/// The paths that entries were copied to, those that they were copied from, and the ids that
/// they have now. The three correspond by index, but for the ids where none is told: there are
/// none then. An entry of which it is not told where it is now is left out.
pub fn collect_transfer_entries(list: &Vec<Json>) -> (r: (Vec<String>, Vec<String>, Vec<u64>))
    ensures
        text::texts(r.0@) == copied_to(copied_entries(list@)),
        text::texts(r.1@) == copied_from(copied_entries(list@)),
        r.2@ == if tells_ids(list@) {
            copied_ids(copied_entries(list@))
        } else {
            Seq::empty()
        },
{
    let mut to_paths: Vec<String> = Vec::new();
    let mut from_paths: Vec<String> = Vec::new();
    let mut fs_ids: Vec<u64> = Vec::new();
    let mut told = false;
    let mut i: usize = 0;
    let ghost mut rows: Seq<CopiedEntry> = Seq::empty();
    assert(text::texts(to_paths@) =~= copied_to(rows));
    assert(text::texts(from_paths@) =~= copied_from(rows));
    assert(fs_ids@ =~= copied_ids(rows));
    while i < list.len()
        invariant
            i <= list@.len(),
            rows == copied_entries(list@.take(i as int)),
            text::texts(to_paths@) == copied_to(rows),
            text::texts(from_paths@) == copied_from(rows),
            fs_ids@ == copied_ids(rows),
            told == tells_ids(list@.take(i as int)),
        decreases list@.len() - i,
    {
        let item = &list[i];
        let ghost before = rows;
        proof {
            assert(list@.take(i + 1).drop_last() =~= list@.take(i as int));
            assert(list@.take(i + 1).last() == *item);
        }
        let id = match item.get("to_fs_id") {
            Some(v) => v.as_u64(),
            None => None,
        };
        proof {
            let past = list@.take(i as int);
            let now = list@.take(i + 1);
            assert(id == json::u64_of(json::at(*item, "to_fs_id"@)));
            if tells_ids(past) {
                let k = choose|k: int|
                    0 <= k < past.len() && json::u64_of(
                        json::at(#[trigger] past[k], "to_fs_id"@),
                    ) is Some;
                assert(now[k] == past[k]);
            }
            if tells_ids(now) {
                let k = choose|k: int|
                    0 <= k < now.len() && json::u64_of(
                        json::at(#[trigger] now[k], "to_fs_id"@),
                    ) is Some;
                if k < i {
                    assert(past[k] == now[k]);
                }
            }
            assert(now[i as int] == *item);
        }
        if id.is_some() {
            told = true;
        }
        let now_at = match item.get("to") {
            Some(v) => v.as_str(),
            None => None,
        };
        match now_at {
            Some(to) => {
                let from = text_at(item, "from");
                let fs_id: u64 = match id {
                    Some(n) => n,
                    None => 0,
                };
                let ghost e = copied_entry(*item)->Some_0;
                let ghost (a, b, c) = (text::texts(to_paths@), text::texts(from_paths@), fs_ids@);
                to_paths.push(to.to_owned());
                from_paths.push(from);
                fs_ids.push(fs_id);
                proof {
                    rows = rows.push(e);
                    assert(text::texts(to_paths@) =~= a.push(e.to));
                    assert(text::texts(from_paths@) =~= b.push(e.from));
                    assert(copied_to(rows) =~= copied_to(before).push(e.to));
                    assert(copied_from(rows) =~= copied_from(before).push(e.from));
                    assert(copied_ids(rows) =~= copied_ids(before).push(fs_id));
                }
            },
            None => {},
        }
        i += 1;
    }
    assert(list@.take(i as int) =~= list@);
    if !told {
        fs_ids = Vec::new();
    }
    (to_paths, from_paths, fs_ids)
}

/// What was copied is told by one value for each index: where the entry is now, where it was
/// and, where ids are told at all, which id it has.
pub proof fn law_copied_entries_correspond(list: Seq<Json>, i: int) -> (k: int)
    requires
        0 <= i < copied_entries(list).len(),
    ensures
        copied_to(copied_entries(list)).len() == copied_from(copied_entries(list)).len(),
        copied_to(copied_entries(list)).len() == copied_ids(copied_entries(list)).len(),
        0 <= k < list.len(),
        json::text_of(json::at(list[k], "to"@)) == Some(copied_to(copied_entries(list))[i]),
        json::text_of(json::at(list[k], "from"@)) matches Some(from) ==> copied_from(
            copied_entries(list),
        )[i] == from,
        json::u64_of(json::at(list[k], "to_fs_id"@)) matches Some(id) ==> copied_ids(
            copied_entries(list),
        )[i] == id,
    decreases list.len(),
{
    let init = list.drop_last();
    if i < copied_entries(init).len() {
        let k = law_copied_entries_correspond(init, i);
        assert(list[k] == init[k]);
        assert(copied_entries(list)[i] == copied_entries(init)[i]);
        k
    } else {
        list.len() - 1
    }
}

// ---------------------------------------------------------------------------
// The mark of a share
// ---------------------------------------------------------------------------
/// `<uk>-<shareid>`: digits, a hyphen, digits. The personal system puts `/sharelink` and this
/// mark before the paths of a share. A directory whose name merely begins with `sharelink` has
/// no such mark.
pub open spec fn is_share_mark(s: Seq<char>) -> bool {
    exists|k: int|
        0 <= k < s.len() && #[trigger] s[k] == '-' && numbers::all_digits(s.take(k))
            && numbers::all_digits(s.skip(k + 1))
}

fn only_digits(cs: &Vec<char>, from: usize, to: usize) -> (r: bool)
    requires
        from <= to <= cs@.len(),
    ensures
        r == numbers::all_digits(cs@.subrange(from as int, to as int)),
{
    let ghost s = cs@.subrange(from as int, to as int);
    let mut i: usize = from;
    while i < to
        invariant
            from <= i <= to <= cs@.len(),
            s == cs@.subrange(from as int, to as int),
            forall|k: int| 0 <= k < i - from ==> numbers::is_digit(#[trigger] s[k]),
        decreases to - i,
    {
        let c = cs[i];
        assert(s[i - from] == c);
        if !('0' <= c && c <= '9') {
            return false;
        }
        i += 1;
    }
    from < to
}

/// Whether the characters from `from` to `to` are the mark of a share.
pub fn share_mark_between(cs: &Vec<char>, from: usize, to: usize) -> (r: bool)
    requires
        from <= to <= cs@.len(),
    ensures
        r == is_share_mark(cs@.subrange(from as int, to as int)),
{
    let ghost s = cs@.subrange(from as int, to as int);
    let found = find_char(cs, '-', from);
    proof {
        if is_share_mark(s) {
            let k = choose|k: int|
                0 <= k < s.len() && #[trigger] s[k] == '-' && numbers::all_digits(s.take(k))
                    && numbers::all_digits(s.skip(k + 1));
            assert(cs@[from + k] == '-');
            assert(found is Some);
            let i = found->Some_0;
            if i < from + k {
                assert(s.take(k)[i - from] == '-');
            }
            assert(i == from + k);
        }
    }
    match found {
        Some(i) => {
            if i >= to {
                return false;
            }
            let ghost k = i - from;
            proof {
                assert(s[k] == '-');
                assert(cs@.subrange(from as int, i as int) =~= s.take(k));
                assert(cs@.subrange(i + 1, to as int) =~= s.skip(k + 1));
            }
            only_digits(cs, from, i) && only_digits(cs, i + 1, to)
        },
        None => false,
    }
}

// ---------------------------------------------------------------------------
// Tasks of the service
// ---------------------------------------------------------------------------
/// The milliseconds between two questions about a task, and by how much they may vary: the
/// later the question, the longer.
pub open spec fn poll_ladder(attempt: u32) -> (int, int) {
    if attempt <= 1 {
        (0, 0)
    } else if attempt <= 5 {
        (1000, 200)
    } else if attempt <= 10 {
        (2000, 400)
    } else {
        (5000, 1000)
    }
}

/// `rand::Rng::gen_range` over an inclusive range, with the generator of the thread: some
/// number between the negated limit and the limit. Which one is left to chance.
#[verifier::external_body]
fn random_within(limit: i64) -> (r: i64)
    requires
        limit >= 0,
    ensures
        -limit <= r <= limit,
{
    rand::Rng::gen_range(&mut rand::thread_rng(), -limit..=limit)
}

/// The milliseconds before question number `attempt`, varied by so many.
pub fn poll_delay_with(attempt: u32, jitter: i64) -> (r: u64)
    requires
        -1000 <= jitter <= 1000,
    ensures
        r == if attempt <= 1 {
            0
        } else {
            poll_ladder(attempt).0 + jitter
        },
{
    if attempt <= 1 {
        return 0;
    }
    let base: i64 = if attempt <= 5 {
        1000
    } else if attempt <= 10 {
        2000
    } else {
        5000
    };
    (base + jitter) as u64
}

/// The milliseconds before question number `attempt`: varied at random, so that the
/// questions about several tasks do not come all at once.
pub fn poll_delay_ms(attempt: u32) -> (r: u64)
    ensures
        poll_ladder(attempt).0 - poll_ladder(attempt).1 <= r <= poll_ladder(attempt).0
            + poll_ladder(attempt).1,
{
    if attempt <= 1 {
        return 0;
    }
    let limit: i64 = if attempt <= 5 {
        200
    } else if attempt <= 10 {
        400
    } else {
        1000
    };
    poll_delay_with(attempt, random_within(limit))
}

/// Whether a value is the id of a task of the service: neither empty nor zero.
pub open spec fn names_task(j: Json) -> bool {
    match j {
        Json::Text(s) => s@.len() > 0 && s@ != "0"@,
        Json::Unsigned(n) => n != 0,
        _ => false,
    }
}

/// Whether a value is the id of a task of the service.
pub fn is_async_task_id(value: &Json) -> (r: bool)
    ensures
        r == names_task(*value),
{
    match value {
        Json::Text(s) => !s.as_str().is_empty() && !same(s.as_str(), "0"),
        Json::Unsigned(n) => *n != 0,
        _ => false,
    }
}

/// The id of a task of the service as a text: a text as it is, anything else as it is
/// written in JSON.
pub open spec fn task_id_text(j: Json) -> Seq<char> {
    match j {
        Json::Text(s) => s@,
        _ => match json::number_text(j) {
            Some(s) => s,
            None => json::json_text_of(j),
        },
    }
}

/// The id of a task of the service as a text.
pub fn task_id_string(value: &Json) -> (r: String)
    ensures
        r@ == task_id_text(*value),
{
    match value {
        Json::Text(s) => s.clone(),
        _ => match value.number() {
            Some(s) => s,
            None => show_json(value),
        },
    }
}

/// What a value says as a number, a text or a flag.
pub proof fn law_how_values_are_read(n: u64, s: String, b: bool)
    ensures
        number_or_zero(Json::Unsigned(n)) == n,
        s@ == numbers::decimal_of(n as nat) ==> number_or_zero(Json::Text(s)) == n,
        number_or_zero(Json::Null) == 0,
        flag_of(Json::Unsigned(n)) <==> n == 1,
        flag_of(Json::Bool(b)) <==> b,
        flag_of(Json::Text(s)) <==> s@ == "1"@,
        !flag_of(Json::Null),
        text_or_number(Json::Unsigned(n)) == Some(numbers::decimal_of(n as nat)),
        text_or_number(Json::Text(s)) == if s@.len() > 0 {
            Some(s@)
        } else {
            None
        },
        text_or_number(Json::Null) is None,
        names_task(Json::Unsigned(n)) <==> n != 0,
        names_task(Json::Text(s)) <==> s@.len() > 0 && s@ != "0"@,
        !names_task(Json::Null),
        task_id_text(Json::Text(s)) == s@,
        task_id_text(Json::Unsigned(n)) == numbers::decimal_of(n as nat),
{
    numbers::law_decimal_round_trip(n as nat, u64::MAX as nat);
}

/// Each listed entry is read: its id, its kind, its path, its size and its name.
pub proof fn law_each_entry_is_read(list: Seq<Json>, i: int)
    requires
        0 <= i < list.len(),
    ensures
        shared_files(list).len() == list.len(),
        shared_files(list)[i].is_dir == flag_of(json::at(list[i], "isdir"@)),
        shared_files(list)[i].path == json::text_or_empty(json::at(list[i], "path"@)),
        shared_files(list)[i].size == number_or_zero(json::at(list[i], "size"@)),
        shared_files(list)[i].name == json::text_or_empty(json::at(list[i], "server_filename"@)),
        json::get(list[i], "fs_id"@) matches Some(v) ==> shared_files(list)[i].fs_id
            == number_or_zero(v),
        json::get(list[i], "fs_id"@) is None ==> shared_files(list)[i].fs_id == number_or_zero(
            json::at(list[i], "fsid"@),
        ),
{
}

/// What was copied is gathered entry by entry: each that says where it went, with where it came
/// from and its id there. The three lists are of one length.
pub proof fn law_copied_entries_are_gathered(list: Seq<Json>, j: Json)
    ensures
        copied_entries(seq![]).len() == 0,
        json::text_of(json::at(j, "to"@)) is None ==> copied_entries(list.push(j))
            == copied_entries(list),
        json::text_of(json::at(j, "to"@)) matches Some(to) ==> copied_entries(list.push(j))
            == copied_entries(list).push(
            CopiedEntry {
                to,
                from: json::text_or_empty(json::at(j, "from"@)),
                fs_id: json::u64_of(json::at(j, "to_fs_id"@)),
            },
        ),
        copied_to(copied_entries(list)).len() == copied_entries(list).len(),
        copied_from(copied_entries(list)).len() == copied_entries(list).len(),
        copied_ids(copied_entries(list)).len() == copied_entries(list).len(),
        forall|i: int|
            0 <= i < copied_entries(list).len() ==> copied_to(copied_entries(list))[i]
                == #[trigger] copied_entries(list)[i].to && copied_from(copied_entries(list))[i]
                == copied_entries(list)[i].from && copied_ids(copied_entries(list))[i] == match copied_entries(
                list,
            )[i].fs_id {
                Some(n) => n,
                None => 0,
            },
{
    assert(list.push(j).drop_last() =~= list);
}

/// The mark of a share is two numbers with a dash between them.
pub proof fn law_share_mark_is_two_numbers(a: Seq<char>, b: Seq<char>)
    ensures
        numbers::all_digits(a) && numbers::all_digits(b) ==> is_share_mark(a.push('-') + b),
        numbers::all_digits(a) ==> !is_share_mark(a),
        is_share_mark(a.push('-') + b) && !a.contains('-') ==> numbers::all_digits(a)
            && numbers::all_digits(b),
{
    let s = a.push('-') + b;
    let n = a.len() as int;
    assert(s[n] == '-');
    assert(s.take(n) =~= a && s.skip(n + 1) =~= b);
    if is_share_mark(s) && !a.contains('-') {
        let k = choose|k: int|
            0 <= k < s.len() && #[trigger] s[k] == '-' && numbers::all_digits(s.take(k))
                && numbers::all_digits(s.skip(k + 1));
        if k < n {
            assert(a[k] == '-');
        }
        if k > n {
            assert(s.take(k)[n] == '-');
        }
    }
    if numbers::all_digits(a) && is_share_mark(a) {
        let k = choose|k: int|
            0 <= k < a.len() && #[trigger] a[k] == '-' && numbers::all_digits(a.take(k))
                && numbers::all_digits(a.skip(k + 1));
        assert(numbers::is_digit(a[k]));
    }
}

/// A task is asked about at once, then after about a second, two seconds, and at last five, give
/// or take a fifth.
pub proof fn law_task_is_asked_about_less_and_less(attempt: u32)
    ensures
        attempt <= 1 ==> poll_ladder(attempt) == (0int, 0int),
        2 <= attempt <= 5 ==> poll_ladder(attempt).0 == 1000,
        6 <= attempt <= 10 ==> poll_ladder(attempt).0 == 2000,
        attempt > 10 ==> poll_ladder(attempt).0 == 5000,
        5 * poll_ladder(attempt).1 == poll_ladder(attempt).0,
{
}

/// Entries tell identifiers exactly where one of them does.
pub proof fn law_when_identifiers_are_told(list: Seq<Json>, e: Json)
    ensures
        !tells_ids(seq![]),
        tells_ids(list.push(e)) <==> tells_ids(list) || json::u64_of(json::at(e, "to_fs_id"@))
            is Some,
{
    let all = list.push(e);
    if tells_ids(list) {
        let i = choose|i: int|
            0 <= i < list.len() && json::u64_of(json::at(#[trigger] list[i], "to_fs_id"@)) is Some;
        assert(all[i] == list[i]);
    }
    assert(all[list.len() as int] == e);
    if tells_ids(all) {
        let i = choose|i: int|
            0 <= i < all.len() && json::u64_of(json::at(#[trigger] all[i], "to_fs_id"@)) is Some;
        if i < list.len() {
            assert(all[i] == list[i]);
        }
    }
}

} // verus!
