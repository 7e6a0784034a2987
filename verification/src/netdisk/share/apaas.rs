//! Shares of the enterprise system.
//!
//! For each call of the service there is a function that makes the request, one that reads
//! the answer, and one that goes on from there once the answer is a JSON value.
use vstd::prelude::*;
use vstd::hash_map::StringHashMap;
use vstd::string::*;

use crate::collections::PathSet;
use crate::netdisk::json;
use crate::netdisk::json::{
    array_at, array_at2, array_at3, i64_at, read_json, text_at, texts_as_json, Json,
};
use crate::netdisk::share::common;
use crate::netdisk::share::common::{
    collect_transfer_entries, is_async_task_id, json_str_or_num, parse_shared_files,
    share_mark_between, task_id_string,
};
use crate::netdisk::share::links::parse_apaas_link;
use crate::netdisk::share::{ShareHttpRequest, ShareProvider};
use crate::numbers;
use crate::numbers::{decimal, signed_decimal};
use crate::text;
use crate::text::{
    chars_of, concat2, concat3, find, find_char, rfind_char, same, starts_with, string_between,
};
use crate::transfer;
use crate::transfer::{
    ShareFileListResult, ShareKind, ShareLink, SharePageInfo, SharedFileInfo, TransferResult,
};

verus! {

/// The enterprise system.
#[derive(Debug, Clone, Copy, PartialEq, Eq, Structural)]
pub struct ApaasShare;

impl ShareProvider for ApaasShare {
    open spec fn system(&self) -> ShareKind {
        ShareKind::Apaas
    }

    fn kind(&self) -> (r: ShareKind) {
        ShareKind::Apaas
    }

    fn parse_link(&self, url: &str) -> (r: Result<Option<ShareLink>, String>) {
        Ok(parse_apaas_link(url))
    }
}

/// The error number that says that some entries failed, and that theirs tell why.
pub const PARTIAL_FAILURE_ERRNO: i64 = 12;

// ---------------------------------------------------------------------------
// Requests
// ---------------------------------------------------------------------------
/// What a `ShareHttpRequest` holds.
#[verifier::ext_equal]
pub struct HttpView {
    pub url: Seq<char>,
    pub referer: Seq<char>,
    pub form: Option<Seq<(Seq<char>, Seq<char>)>>,
    pub cookie_randsk: Option<Seq<char>>,
    pub error_context: Seq<char>,
}

/// What the fields of a form hold.
pub open spec fn form_view(form: Seq<(&str, String)>) -> Seq<(Seq<char>, Seq<char>)> {
    form.map_values(|f: (&str, String)| (f.0@, f.1@))
}

/// What a request holds.
pub open spec fn request_view(r: ShareHttpRequest<'_>) -> HttpView {
    HttpView {
        url: r.url@,
        referer: r.referer@,
        form: match r.form {
            Some(f) => Some(form_view(f@)),
            None => None,
        },
        cookie_randsk: match r.cookie_randsk {
            Some(c) => Some(c@),
            None => None,
        },
        error_context: r.error_context@,
    }
}

/// The query that all calls share.
pub open spec fn query_of(app_id: Seq<char>) -> Seq<char> {
    "clienttype=0&web=1&channel=chunlei&app_id="@ + app_id
}

/// The query that all calls share. `app_id` is the number under which the service knows
/// the application.
pub fn common_query(app_id: &str) -> (r: String)
    ensures
        r@ == query_of(app_id@),
{
    concat2("clienttype=0&web=1&channel=chunlei&app_id=", app_id)
}

/// The page of a share.
pub open spec fn page_of(short_url: Seq<char>) -> Seq<char> {
    "https://pan.baidu.com/apaas/share?surl="@ + short_url
}

/// The page of a share.
pub fn share_referer(short_url: &str) -> (r: String)
    ensures
        r@ == page_of(short_url@),
{
    concat2("https://pan.baidu.com/apaas/share?surl=", short_url)
}

/// Adds a field to a form.
fn add_field<'a>(form: &mut Vec<(&'a str, String)>, name: &'a str, value: String)
    ensures
        form_view(final(form)@) == form_view(old(form)@).push((name@, value@)),
{
    let ghost before = form_view(form@);
    let ghost v = value@;
    form.push((name, value));
    assert(form_view(form@) =~= before.push((name@, v)));
}

fn new_form<'a>() -> (r: Vec<(&'a str, String)>)
    ensures
        form_view(r@) == Seq::<(Seq<char>, Seq<char>)>::empty(),
{
    let r: Vec<(&'a str, String)> = Vec::new();
    assert(form_view(r@) =~= Seq::<(Seq<char>, Seq<char>)>::empty());
    r
}

/// The request for the page of a share.
pub fn access_request(link: &ShareLink, app_id: &str) -> (r: ShareHttpRequest<'static>)
    ensures
        request_view(r) == (HttpView {
            url: page_of(link.short_key@) + "&"@ + query_of(app_id@),
            referer: "https://pan.baidu.com/disk/home"@,
            form: None,
            cookie_randsk: None,
            error_context: "访问分享页面失败（企业版）"@,
        }),
{
    let page = share_referer(link.short_key.as_str());
    let query = common_query(app_id);
    ShareHttpRequest {
        url: concat3(page.as_str(), "&", query.as_str()),
        referer: "https://pan.baidu.com/disk/home".to_owned(),
        form: None,
        cookie_randsk: None,
        error_context: "访问分享页面失败（企业版）",
    }
}

/// The request that checks a password.
pub fn verify_request(info: &SharePageInfo, password: &str, app_id: &str) -> (r: ShareHttpRequest<
    'static,
>)
    ensures
        request_view(r) == (HttpView {
            url: "https://pan.baidu.com/apaas/api/share/getspwd?short_url="@ + info.short_key@
                + "&product=&"@ + query_of(app_id@),
            referer: page_of(info.short_key@),
            form: Some(seq![("pwd"@, password@)]),
            cookie_randsk: None,
            error_context: "验证提取码请求失败（企业版）"@,
        }),
{
    let query = common_query(app_id);
    let mut url = concat3(
        "https://pan.baidu.com/apaas/api/share/getspwd?short_url=",
        info.short_key.as_str(),
        "&product=&",
    );
    url.append(query.as_str());
    let mut form = new_form();
    add_field(&mut form, "pwd", password.to_owned());
    assert(form_view(form@) =~= seq![("pwd"@, password@)]);
    ShareHttpRequest {
        url,
        referer: share_referer(info.short_key.as_str()),
        form: Some(form),
        cookie_randsk: None,
        error_context: "验证提取码请求失败（企业版）",
    }
}

/// A directory of a share as this system knows it: without `/sharelink<uk>-<shareid>`, which the
/// other system puts before it. Every other directory is itself.
pub open spec fn plain_dir(dir: Seq<char>) -> Seq<char> {
    if !"/sharelink"@.is_prefix_of(dir) {
        dir
    } else {
        let rest = dir.skip("/sharelink"@.len() as int);
        match text::first_at(rest, '/', 0) {
            Some(i) => if common::is_share_mark(rest.take(i)) {
                rest.skip(i)
            } else {
                dir
            },
            None => if common::is_share_mark(rest) {
                Seq::empty()
            } else {
                dir
            },
        }
    }
}

/// A directory of a share as this system knows it.
pub fn normalize_dir(dir: &str) -> (r: String)
    ensures
        r@ == plain_dir(dir@),
{
    if !starts_with(dir, "/sharelink") {
        return dir.to_owned();
    }
    let cs = chars_of(dir);
    let head = chars_of("/sharelink");
    let from: usize = head.len();
    let rest = string_between(&cs, from, cs.len());
    let rc = chars_of(rest.as_str());
    assert(rc@ =~= dir@.skip("/sharelink"@.len() as int));
    match find_char(&rc, '/', 0) {
        Some(i) => {
            assert(rc@.subrange(0, i as int) =~= rc@.take(i as int));
            if share_mark_between(&rc, 0, i) {
                let r = string_between(&rc, i, rc.len());
                assert(r@ =~= rc@.skip(i as int));
                r
            } else {
                dir.to_owned()
            }
        },
        None => {
            assert(rc@.subrange(0, rc@.len() as int) =~= rc@);
            if share_mark_between(&rc, 0, rc.len()) {
                let r = String::new();
                assert(r@ =~= Seq::<char>::empty());
                r
            } else {
                dir.to_owned()
            }
        },
    }
}

/// The key of a share, or none.
pub open spec fn token_text(token: Option<&str>) -> Seq<char> {
    match token {
        Some(t) => t@,
        None => Seq::empty(),
    }
}

/// The form of a listing. The root has no directory: the service refuses `/`.
pub open spec fn list_form(dir: Seq<char>, page: u32, num: u32, token: Seq<char>) -> Seq<
    (Seq<char>, Seq<char>),
> {
    let first = seq![
        ("spwd"@, token),
        ("page"@, numbers::decimal_of(page as nat)),
        ("page_size"@, numbers::decimal_of(num as nat)),
    ];
    let d = plain_dir(dir);
    if d.len() > 0 && d != "/"@ {
        first.push(("dir"@, d))
    } else {
        first
    }
}

/// The request for one page of a directory of a share.
pub fn list_request(
    info: &SharePageInfo,
    dir: &str,
    page: u32,
    num: u32,
    token: Option<&str>,
    app_id: &str,
) -> (r: ShareHttpRequest<'static>)
    ensures
        request_view(r) == (HttpView {
            url: "https://pan.baidu.com/apaas/1.0/share/list?short_url="@ + info.short_key@
                + "&product=&"@ + query_of(app_id@),
            referer: page_of(info.short_key@),
            form: Some(list_form(dir@, page, num, token_text(token))),
            cookie_randsk: None,
            error_context: "获取分享文件列表失败（企业版）"@,
        }),
{
    let query = common_query(app_id);
    let mut url = concat3(
        "https://pan.baidu.com/apaas/1.0/share/list?short_url=",
        info.short_key.as_str(),
        "&product=&",
    );
    url.append(query.as_str());
    let d = normalize_dir(dir);
    let mut form = new_form();
    let spwd = match token {
        Some(t) => t.to_owned(),
        None => {
            let none = String::new();
            assert(none@ =~= Seq::<char>::empty());
            none
        },
    };
    add_field(&mut form, "spwd", spwd);
    add_field(&mut form, "page", decimal(page as u64));
    add_field(&mut form, "page_size", decimal(num as u64));
    if !d.as_str().is_empty() && !same(d.as_str(), "/") {
        add_field(&mut form, "dir", d);
    }
    assert(form_view(form@) =~= list_form(dir@, page, num, token_text(token)));
    ShareHttpRequest {
        url,
        referer: share_referer(info.short_key.as_str()),
        form: Some(form),
        cookie_randsk: None,
        error_context: "获取分享文件列表失败（企业版）",
    }
}

/// The form of a copy: its fields stand side by side, and the list of ids is written in
/// JSON. `ids` is that list as it is written.
pub open spec fn copy_form(
    ids: Seq<char>,
    target_path: Seq<char>,
    spwd: Seq<char>,
    short_url: Seq<char>,
) -> Seq<(Seq<char>, Seq<char>)> {
    seq![
        ("fsid_list"@, ids),
        ("to_path"@, target_path),
        ("spwd"@, spwd),
        ("short_url"@, short_url),
        ("async"@, "1"@),
        ("ondup"@, "newcopy"@),
        ("product"@, Seq::empty()),
    ]
}

/// The form of a copy; `ids` is the list of ids as it is written in JSON.
pub fn transfer_form_with(ids: String, target_path: &str, spwd: &str, short_url: &str) -> (r: Vec<
    (&'static str, String),
>)
    ensures
        form_view(r@) == copy_form(ids@, target_path@, spwd@, short_url@),
{
    let mut form = new_form();
    let none = String::new();
    assert(none@ =~= Seq::<char>::empty());
    add_field(&mut form, "fsid_list", ids);
    add_field(&mut form, "to_path", target_path.to_owned());
    add_field(&mut form, "spwd", spwd.to_owned());
    add_field(&mut form, "short_url", short_url.to_owned());
    add_field(&mut form, "async", "1".to_owned());
    add_field(&mut form, "ondup", "newcopy".to_owned());
    add_field(&mut form, "product", none);
    assert(form_view(form@) =~= copy_form(ids@, target_path@, spwd@, short_url@));
    form
}

/// The form of a copy.
pub fn transfer_form(
    fsid_list: &Vec<String>,
    target_path: &str,
    spwd: &str,
    short_url: &str,
) -> (r: Vec<(&'static str, String)>)
    ensures
        form_view(r@) == copy_form(
            json::json_list_of(text::texts(fsid_list@)),
            target_path@,
            spwd@,
            short_url@,
        ),
{
    transfer_form_with(texts_as_json(fsid_list), target_path, spwd, short_url)
}

/// The ids in decimal.
pub open spec fn id_texts(fs_ids: Seq<u64>) -> Seq<Seq<char>> {
    fs_ids.map_values(|id: u64| numbers::decimal_of(id as nat))
}

/// The request that copies entries of a share to a directory of the disk.
pub fn transfer_request(
    info: &SharePageInfo,
    fs_ids: &Vec<u64>,
    target_path: &str,
    token: Option<&str>,
    app_id: &str,
) -> (r: ShareHttpRequest<'static>)
    ensures
        request_view(r) == (HttpView {
            url: "https://pan.baidu.com/apaas/1.0/share/transfer?"@ + query_of(app_id@),
            referer: page_of(info.short_key@),
            form: Some(
                copy_form(
                    json::json_list_of(id_texts(fs_ids@)),
                    target_path@,
                    token_text(token),
                    info.short_key@,
                ),
            ),
            cookie_randsk: None,
            error_context: "转存请求失败（企业版）"@,
        }),
{
    let mut ids: Vec<String> = Vec::new();
    let mut i: usize = 0;
    assert(text::texts(ids@) =~= id_texts(fs_ids@.take(0)));
    while i < fs_ids.len()
        invariant
            i <= fs_ids@.len(),
            text::texts(ids@) == id_texts(fs_ids@.take(i as int)),
        decreases fs_ids@.len() - i,
    {
        let ghost before = text::texts(ids@);
        let one = decimal(fs_ids[i]);
        let ghost gone = one@;
        ids.push(one);
        i += 1;
        assert(text::texts(ids@) =~= before.push(gone));
        assert(id_texts(fs_ids@.take(i as int)) =~= before.push(gone));
    }
    assert(fs_ids@.take(i as int) =~= fs_ids@);
    let query = common_query(app_id);
    let spwd = match token {
        Some(t) => t.to_owned(),
        None => {
            let none = String::new();
            assert(none@ =~= Seq::<char>::empty());
            none
        },
    };
    ShareHttpRequest {
        url: concat2("https://pan.baidu.com/apaas/1.0/share/transfer?", query.as_str()),
        referer: share_referer(info.short_key.as_str()),
        form: Some(transfer_form(&ids, target_path, spwd.as_str(), info.short_key.as_str())),
        cookie_randsk: None,
        error_context: "转存请求失败（企业版）",
    }
}

/// The request that asks about a task of the service.
pub fn query_request(info: &SharePageInfo, task_id: &str, app_id: &str) -> (r: ShareHttpRequest<
    'static,
>)
    ensures
        request_view(r) == (HttpView {
            url: "https://pan.baidu.com/apaas/1.0/share/taskquery?"@ + query_of(app_id@),
            referer: page_of(info.short_key@),
            form: Some(seq![("task_id"@, task_id@)]),
            cookie_randsk: None,
            error_context: "任务查询请求失败（企业版）"@,
        }),
{
    let query = common_query(app_id);
    let mut form = new_form();
    add_field(&mut form, "task_id", task_id.to_owned());
    assert(form_view(form@) =~= seq![("task_id"@, task_id@)]);
    ShareHttpRequest {
        url: concat2("https://pan.baidu.com/apaas/1.0/share/taskquery?", query.as_str()),
        referer: share_referer(info.short_key.as_str()),
        form: Some(form),
        cookie_randsk: None,
        error_context: "任务查询请求失败（企业版）",
    }
}

// ---------------------------------------------------------------------------
// The object in a page
// ---------------------------------------------------------------------------
/// How far the reading of an object has come.
pub struct Reading {
    /// How many braces are open.
    pub depth: nat,
    /// Whether a string is open.
    pub in_string: bool,
    /// Whether the character before was a backslash that stands for itself no more.
    pub escaped: bool,
}

/// The reading after one more character. Braces in strings do not count, nor does a quote
/// after a backslash.
pub open spec fn read_char(r: Reading, c: char) -> Reading {
    if r.in_string {
        if r.escaped {
            Reading { escaped: false, ..r }
        } else if c == '\\' {
            Reading { escaped: true, ..r }
        } else if c == '"' {
            Reading { in_string: false, ..r }
        } else {
            r
        }
    } else if c == '"' {
        Reading { in_string: true, ..r }
    } else if c == '{' {
        Reading { depth: r.depth + 1, ..r }
    } else if c == '}' && r.depth > 0 {
        Reading { depth: (r.depth - 1) as nat, ..r }
    } else {
        r
    }
}

/// The reading of the characters from `open` up to `i`.
pub open spec fn read_to(s: Seq<char>, open: int, i: int) -> Reading
    decreases i - open,
{
    if i <= open {
        Reading { depth: 0, in_string: false, escaped: false }
    } else {
        read_char(read_to(s, open, i - 1), s[i - 1])
    }
}

/// Whether the object that begins at `open` is closed before `i`.
pub open spec fn is_closed(s: Seq<char>, open: int, i: int) -> bool {
    i > open && read_to(s, open, i).depth == 0 && !read_to(s, open, i).in_string
}

/// Where the object that begins at `open` ends.
pub open spec fn is_object_end(s: Seq<char>, open: int, end: int) -> bool {
    &&& open < end <= s.len()
    &&& is_closed(s, open, end)
    &&& forall|i: int| open < i < end ==> !is_closed(s, open, i)
}

/// The object that begins at `open`; none where it is never closed.
pub open spec fn is_object_from(r: Option<Seq<char>>, s: Seq<char>, open: int) -> bool {
    match r {
        Some(t) => exists|end: int| #[trigger]
            is_object_end(s, open, end) && t == s.subrange(open, end),
        None => forall|end: int| open < end <= s.len() ==> !is_closed(s, open, end),
    }
}

/// The first object after the marker, if there is one: from its brace to the one that
/// closes it.
pub open spec fn is_object_after(r: Option<Seq<char>>, s: Seq<char>, marker: Seq<char>) -> bool {
    match text::find_text(s, marker, 0) {
        None => r is None,
        Some(m) => match text::first_at(s, '{', (m + marker.len()) as int) {
            None => r is None,
            Some(open) => is_object_from(r, s, open),
        },
    }
}

/// The first object after the marker.
pub fn extract_json_object_after(haystack: &str, marker: &str) -> (r: Option<String>)
    ensures
        is_object_after(text::opt_text(r), haystack@, marker@),
{
    let cs = chars_of(haystack);
    let mc = chars_of(marker);
    let n: usize = cs.len();
    let at = match find(&cs, &mc, 0) {
        Some(i) => i,
        None => {
            return None;
        },
    };
    let open = match find_char(&cs, '{', at + mc.len()) {
        Some(i) => i,
        None => {
            return None;
        },
    };
    let mut depth: usize = 0;
    let mut in_string = false;
    let mut escaped = false;
    let mut i: usize = open;
    while i < n
        invariant
            open <= i <= n == cs@.len(),
            cs@ == haystack@,
            cs@[open as int] == '{',
            depth <= i - open,
            depth == read_to(cs@, open as int, i as int).depth,
            in_string == read_to(cs@, open as int, i as int).in_string,
            escaped == read_to(cs@, open as int, i as int).escaped,
            i > open ==> depth > 0,
            forall|k: int| open < k <= i ==> !is_closed(cs@, open as int, k),
            text::find_text(haystack@, marker@, 0) == Some(at as int),
            text::first_at(haystack@, '{', (at + marker@.len()) as int) == Some(open as int),
        decreases n - i,
    {
        let c = cs[i];
        let ghost before = read_to(cs@, open as int, i as int);
        if in_string {
            if escaped {
                escaped = false;
            } else if c == '\\' {
                escaped = true;
            } else if c == '"' {
                in_string = false;
            }
        } else if c == '"' {
            in_string = true;
        } else if c == '{' {
            depth += 1;
        } else if c == '}' {
            depth -= 1;
            if depth == 0 {
                let r = string_between(&cs, open, i + 1);
                assert(is_closed(cs@, open as int, i + 1));
                assert(is_object_end(haystack@, open as int, i + 1));
                assert(r@ == haystack@.subrange(open as int, i + 1));
                assert(is_object_from(Some(r@), haystack@, open as int));
                let o = Some(r);
                return o;
            }
        }
        i += 1;
        assert(!is_closed(cs@, open as int, i as int));
    }
    None
}

/// What is read of an object begins with a brace and ends with one.
pub proof fn law_object_is_enclosed(s: Seq<char>, open: int, end: int)
    requires
        0 <= open < s.len(),
        s[open] == '{',
        is_object_end(s, open, end),
    ensures
        end >= open + 2,
        s.subrange(open, end)[0] == '{',
        s.subrange(open, end).last() == '}',
{
    reveal_with_fuel(read_to, 2);
    assert(read_to(s, open, open + 1).depth == 1);
    assert(!is_closed(s, open, open + 1));
    let before = read_to(s, open, end - 1);
    assert(!is_closed(s, open, end - 1));
    assert(read_to(s, open, end) == read_char(before, s[end - 1]));
    lemma_open_outside_strings(s, open, end - 1);
}

/// While an object is being read some brace is open.
proof fn lemma_open_outside_strings(s: Seq<char>, open: int, i: int)
    requires
        0 <= open < s.len(),
        s[open] == '{',
        open < i <= s.len(),
        forall|k: int| open < k <= i ==> !is_closed(s, open, k),
    ensures
        read_to(s, open, i).depth > 0,
    decreases i - open,
{
    reveal_with_fuel(read_to, 2);
    if i > open + 1 {
        lemma_open_outside_strings(s, open, i - 1);
        assert(!is_closed(s, open, i));
    }
}

// ---------------------------------------------------------------------------
// Errors
// ---------------------------------------------------------------------------
/// What the service says, in brackets; nothing where it says nothing.
pub open spec fn detail_text(show_msg: Seq<char>) -> Seq<char> {
    if show_msg.len() == 0 {
        Seq::empty()
    } else {
        "（"@ + show_msg + "）"@
    }
}

fn detail(show_msg: &str) -> (r: String)
    ensures
        r@ == detail_text(show_msg@),
{
    if show_msg.is_empty() {
        let r = String::new();
        assert(r@ =~= Seq::<char>::empty());
        r
    } else {
        concat3("（", show_msg, "）")
    }
}

/// What the error number of a copy means. Whoever splits copies into smaller ones goes by
/// the words.
pub open spec fn errno_text(errno: i64) -> Seq<char> {
    if errno == -10 || errno == -32 || errno == 31112 {
        "网盘空间不足，无法转存"@
    } else if errno == -33 || errno == 120 || errno == 130 || errno == 31075 || errno == 31174
        || errno == 31175 {
        "转存文件数超过上限"@
    } else if errno == -8 || errno == -30 || errno == 31061 {
        "目标位置已存在同名文件"@
    } else if errno == 4 || errno == -31 || errno == 31069 || errno == 111 || errno == 31171 {
        "转存超时，请稍后再试"@
    } else if errno == -6 {
        "登录已失效，请重新登录"@
    } else if errno == 20025 {
        "分享页面已失效，请刷新后重试"@
    } else if errno == 90003 {
        "部分文件有版权限制，不支持转存"@
    } else {
        "企业版转存失败: errno="@ + numbers::signed_decimal_of(errno as int)
    }
}

/// What the error number of a copy means, with what the service says.
pub fn describe_transfer_errno(errno: i64, show_msg: &str) -> (r: String)
    ensures
        r@ == errno_text(errno) + detail_text(show_msg@),
{
    let tail = detail(show_msg);
    let head = if errno == -10 || errno == -32 || errno == 31112 {
        "网盘空间不足，无法转存".to_owned()
    } else if errno == -33 || errno == 120 || errno == 130 || errno == 31075 || errno == 31174
        || errno == 31175 {
        "转存文件数超过上限".to_owned()
    } else if errno == -8 || errno == -30 || errno == 31061 {
        "目标位置已存在同名文件".to_owned()
    } else if errno == 4 || errno == -31 || errno == 31069 || errno == 111 || errno == 31171 {
        "转存超时，请稍后再试".to_owned()
    } else if errno == -6 {
        "登录已失效，请重新登录".to_owned()
    } else if errno == 20025 {
        "分享页面已失效，请刷新后重试".to_owned()
    } else if errno == 90003 {
        "部分文件有版权限制，不支持转存".to_owned()
    } else {
        let n = signed_decimal(errno);
        concat2("企业版转存失败: errno=", n.as_str())
    };
    concat2(head.as_str(), tail.as_str())
}

/// The error number of an answer; minus one where it has none.
pub open spec fn errno_of(j: Json) -> i64 {
    match json::i64_of(json::at(j, "errno"@)) {
        Some(n) => n,
        None => -1i64,
    }
}

fn errno_in(j: &Json) -> (r: i64)
    ensures
        r == errno_of(*j),
{
    match i64_at(j, "errno") {
        Some(n) => n,
        None => -1,
    }
}

/// What the service says.
pub open spec fn shown_in(j: Json) -> Seq<char> {
    json::text_or_empty(json::at(j, "show_msg"@))
}

/// A hint on an error number.
pub open spec fn errno_hint(errno: i64) -> Seq<char> {
    if errno == 13042 {
        "，请求的目录不在分享范围内"@
    } else if errno == -6 {
        "，登录状态失效，请重新登录"@
    } else {
        Seq::empty()
    }
}

/// What is said of a call that the service refused.
pub open spec fn refused_text(j: Json, action: Seq<char>) -> Seq<char> {
    action + "失败: errno="@ + numbers::signed_decimal_of(errno_of(j) as int) + errno_hint(
        errno_of(j),
    ) + detail_text(shown_in(j))
}

/// Whether the service did what it was asked.
pub fn check_errno(j: &Json, action: &str) -> (r: Result<(), String>)
    ensures
        match r {
            Ok(_) => errno_of(*j) == 0,
            Err(e) => errno_of(*j) != 0 && e@ == refused_text(*j, action@),
        },
{
    let errno = errno_in(j);
    if errno == 0 {
        return Ok(());
    }
    let shown = text_at(j, "show_msg");
    let hint = if errno == 13042 {
        "，请求的目录不在分享范围内".to_owned()
    } else if errno == -6 {
        "，登录状态失效，请重新登录".to_owned()
    } else {
        let none = String::new();
        assert(none@ =~= Seq::<char>::empty());
        none
    };
    let n = signed_decimal(errno);
    let tail = detail(shown.as_str());
    let mut r = concat3(action, "失败: errno=", n.as_str());
    r.append(hint.as_str());
    r.append(tail.as_str());
    Err(r)
}

// ---------------------------------------------------------------------------
// The page of a share
// ---------------------------------------------------------------------------
/// What the data of a share's page tell, or why they tell nothing.
pub open spec fn page_outcome(data: Json, link_key: Seq<char>) -> Result<
    transfer::PageInfoView,
    Seq<char>,
> {
    let share_info = json::at(data, "shareInfo"@);
    let link_info = json::at(share_info, "link_info"@);
    let shareid = match common::text_or_number(json::at(link_info, "share_id"@)) {
        Some(s) => s,
        None => Seq::empty(),
    };
    let share_uk = match common::text_or_number(json::at(link_info, "share_uk"@)) {
        Some(s) => s,
        None => Seq::empty(),
    };
    let short_url = json::text_or_empty(json::at(link_info, "short_url"@));
    if errno_of(share_info) != 0 {
        Err(
            "企业版分享不可用: errno="@ + numbers::signed_decimal_of(errno_of(share_info) as int)
                + detail_text(shown_in(share_info)),
        )
    } else if shareid.len() == 0 {
        Err("无法从企业版分享页面提取 share_id，请确认链接有效"@)
    } else {
        Ok(
            transfer::PageInfoView {
                shareid,
                uk: share_uk,
                share_uk,
                bdstoken: Seq::empty(),
                kind: ShareKind::Apaas,
                short_key: if short_url.len() > 0 {
                    short_url
                } else {
                    link_key
                },
            },
        )
    }
}

fn text_or_number_at(j: &Json, name: &str) -> (r: String)
    ensures
        r@ == match common::text_or_number(json::at(*j, name@)) {
            Some(s) => s,
            None => Seq::empty(),
        },
{
    let none = String::new();
    assert(none@ =~= Seq::<char>::empty());
    match j.get(name) {
        Some(v) => match json_str_or_num(v) {
            Some(s) => s,
            None => none,
        },
        None => none,
    }
}

/// `r` is the outcome that `v` describes.
pub open spec fn page_reads(
    r: Result<SharePageInfo, String>,
    v: Result<transfer::PageInfoView, Seq<char>>,
) -> bool {
    match (r, v) {
        (Ok(p), Ok(x)) => p@ == x,
        (Err(e), Err(x)) => e@ == x,
        _ => false,
    }
}

/// What the data of a share's page tell.
pub fn page_info_from(data: &Json, link_key: &str) -> (r: Result<SharePageInfo, String>)
    ensures
        page_reads(r, page_outcome(*data, link_key@)),
{
    let null = Json::Null;
    let share_info = match data.get("shareInfo") {
        Some(v) => v,
        None => &null,
    };
    let errno = errno_in(share_info);
    if errno != 0 {
        let shown = text_at(share_info, "show_msg");
        let n = signed_decimal(errno);
        let tail = detail(shown.as_str());
        return Err(concat3("企业版分享不可用: errno=", n.as_str(), tail.as_str()));
    }
    let link_info = match share_info.get("link_info") {
        Some(v) => v,
        None => &null,
    };
    let shareid = text_or_number_at(link_info, "share_id");
    let share_uk = text_or_number_at(link_info, "share_uk");
    if shareid.as_str().is_empty() {
        return Err(
            "无法从企业版分享页面提取 share_id，请确认链接有效".to_owned(),
        );
    }
    let short_url = text_at(link_info, "short_url");
    let short_key = if short_url.as_str().is_empty() {
        link_key.to_owned()
    } else {
        short_url
    };
    let bdstoken = String::new();
    assert(bdstoken@ =~= Seq::<char>::empty());
    Ok(
        SharePageInfo {
            shareid,
            uk: share_uk.clone(),
            share_uk,
            bdstoken,
            kind: ShareKind::Apaas,
            short_key,
        },
    )
}

/// What the page of a share tells: its data stand in it as an object.
pub fn page_info(body: &str, link: &ShareLink) -> (r: Result<SharePageInfo, String>)
    ensures
        exists|raw: Option<Seq<char>>| #[trigger]
            is_object_after(raw, body@, "window.yunData"@) && match raw {
                None => r matches Err(e) && e@
                    == "企业版分享页面未找到 yunData，链接可能已失效或不是企业版分享"@,
                Some(t) => match json::json_of(t) {
                    None => r matches Err(e) && e@ == "解析企业版分享页面 yunData 失败"@,
                    Some(data) => page_reads(r, page_outcome(data, link.short_key@)),
                },
            },
{
    let raw = extract_json_object_after(body, "window.yunData");
    assert(is_object_after(text::opt_text(raw), body@, "window.yunData"@));
    match raw {
        None => Err(
            "企业版分享页面未找到 yunData，链接可能已失效或不是企业版分享".to_owned(),
        ),
        Some(t) => match read_json(t.as_str()) {
            None => Err("解析企业版分享页面 yunData 失败".to_owned()),
            Some(data) => page_info_from(&data, link.short_key.as_str()),
        },
    }
}

// ---------------------------------------------------------------------------
// The password
// ---------------------------------------------------------------------------
/// The key that a checked password gives, or why there is none. The answer has an error
/// number outside and one inside.
pub open spec fn spwd_outcome(j: Json) -> Result<Seq<char>, Seq<char>> {
    let data = json::at(j, "data"@);
    let spwd = json::text_or_empty(json::at(data, "spwd"@));
    if errno_of(j) != 0 {
        Err(refused_text(j, "企业版验证提取码"@))
    } else if errno_of(data) != 0 || spwd.len() == 0 {
        Err(
            "提取码错误: errno="@ + numbers::signed_decimal_of(errno_of(data) as int)
                + detail_text(shown_in(data)),
        )
    } else {
        Ok(spwd)
    }
}

/// `r` is the outcome that `v` describes.
pub open spec fn text_reads(r: Result<String, String>, v: Result<Seq<char>, Seq<char>>) -> bool {
    match (r, v) {
        (Ok(s), Ok(x)) => s@ == x,
        (Err(e), Err(x)) => e@ == x,
        _ => false,
    }
}

/// The key that a checked password gives.
pub fn spwd_from(j: &Json) -> (r: Result<String, String>)
    ensures
        text_reads(r, spwd_outcome(*j)),
{
    match check_errno(j, "企业版验证提取码") {
        Ok(_) => {},
        Err(e) => {
            return Err(e);
        },
    }
    let null = Json::Null;
    let data = match j.get("data") {
        Some(v) => v,
        None => &null,
    };
    let errno = errno_in(data);
    let spwd = text_at(data, "spwd");
    if errno != 0 || spwd.as_str().is_empty() {
        let shown = text_at(data, "show_msg");
        let n = signed_decimal(errno);
        let tail = detail(shown.as_str());
        return Err(concat3("提取码错误: errno=", n.as_str(), tail.as_str()));
    }
    Ok(spwd)
}

/// The key that a checked password gives, from the answer of the service.
pub fn verify_reply(body: &str) -> (r: Result<String, String>)
    ensures
        match json::json_of(body@) {
            Some(j) => text_reads(r, spwd_outcome(j)),
            None => r matches Err(e) && e@ == "解析企业版验证提取码响应失败"@,
        },
{
    match read_json(body) {
        Some(j) => spwd_from(&j),
        None => Err("解析企业版验证提取码响应失败".to_owned()),
    }
}

// ---------------------------------------------------------------------------
// Listings
// ---------------------------------------------------------------------------
/// The answer to a listing, or why there is none.
pub fn list_reply(body: &str) -> (r: Result<Json, String>)
    ensures
        match json::json_of(body@) {
            Some(j) => if errno_of(j) == 0 {
                r == Ok::<Json, String>(j)
            } else {
                r matches Err(e) && e@ == refused_text(j, "获取企业版分享文件列表"@)
            },
            None => r matches Err(e) && e@ == "解析企业版文件列表响应失败"@,
        },
{
    match read_json(body) {
        Some(j) => match check_errno(&j, "获取企业版分享文件列表") {
            Ok(_) => Ok(j),
            Err(e) => Err(e),
        },
        None => Err("解析企业版文件列表响应失败".to_owned()),
    }
}

/// The entries that an answer to a listing holds.
pub open spec fn listed_files(j: Json) -> Seq<transfer::FileView> {
    match json::items_of(json::at(json::at(j, "data"@), "list"@)) {
        Some(l) => common::shared_files(l),
        None => Seq::empty(),
    }
}

/// The entries that an answer to a listing holds.
pub fn dir_listing(j: &Json) -> (r: Vec<SharedFileInfo>)
    ensures
        transfer::file_views(r@) == listed_files(*j),
{
    match array_at2(j, "data", "list") {
        Some(l) => parse_shared_files(l),
        None => {
            let r: Vec<SharedFileInfo> = Vec::new();
            assert(transfer::file_views(r@) =~= Seq::<transfer::FileView>::empty());
            r
        },
    }
}

/// The top directory of a share, from the answer to a listing.
pub fn root_listing(j: &Json, info: &SharePageInfo) -> (r: ShareFileListResult)
    ensures
        transfer::file_views(r.files@) == listed_files(*j),
        r.uk@ == match common::text_or_number(json::at(json::at(*j, "data"@), "uk"@)) {
            Some(s) => s,
            None => Seq::empty(),
        },
        r.shareid@ == info.shareid@,
        r.share_root_path is None,
{
    let null = Json::Null;
    let data = match j.get("data") {
        Some(v) => v,
        None => &null,
    };
    ShareFileListResult {
        files: dir_listing(j),
        uk: text_or_number_at(data, "uk"),
        shareid: info.shareid.clone(),
        share_root_path: None,
    }
}

// ---------------------------------------------------------------------------
// Copies
// ---------------------------------------------------------------------------
/// What came of the request for a copy.
#[derive(Debug)]
pub enum TransferReply {
    /// The service refused.
    Refused(TransferResult),
    /// The service has begun a task.
    Task(String),
    /// The entries were copied: to where, and from where.
    Copied { to_paths: Vec<String>, from_paths: Vec<String> },
}

/// What a `TransferReply` says.
#[verifier::ext_equal]
pub enum ReplyView {
    Refused(Seq<char>),
    Task(Seq<char>),
    Copied { to_paths: Seq<Seq<char>>, from_paths: Seq<Seq<char>> },
}

/// Whether a copy failed and says so much and no more.
pub open spec fn is_refusal(t: TransferResult, msg: Seq<char>) -> bool {
    &&& !t.success
    &&& t.transferred_paths@.len() == 0
    &&& t.from_paths@.len() == 0
    &&& text::opt_text(t.error) == Some(msg)
    &&& t.transferred_fs_ids@.len() == 0
}

/// `r` says what `v` does.
pub open spec fn reply_reads(r: TransferReply, v: ReplyView) -> bool {
    match (r, v) {
        (TransferReply::Refused(t), ReplyView::Refused(msg)) => is_refusal(t, msg),
        (TransferReply::Task(id), ReplyView::Task(x)) => id@ == x,
        (
            TransferReply::Copied { to_paths, from_paths },
            ReplyView::Copied { to_paths: a, from_paths: b },
        ) => text::texts(to_paths@) == a && text::texts(from_paths@) == b,
        _ => false,
    }
}

/// The first error number from `i` on that is not zero.
pub open spec fn first_errno(list: Seq<Json>, i: int) -> Option<i64>
    decreases list.len() - i,
{
    if i < 0 || i >= list.len() {
        None
    } else {
        match json::i64_of(json::at(list[i], "errno"@)) {
            Some(e) => if e != 0 {
                Some(e)
            } else {
                first_errno(list, i + 1)
            },
            None => first_errno(list, i + 1),
        }
    }
}

/// The list under one name, else under another, else none.
pub open spec fn either(a: Option<Seq<Json>>, b: Option<Seq<Json>>) -> Option<Seq<Json>> {
    match a {
        Some(l) => Some(l),
        None => b,
    }
}

/// The error number that tells why a copy failed: where some entries failed, the first of
/// theirs.
pub open spec fn telling_errno(j: Json) -> i64 {
    let errno = errno_of(j);
    if errno == PARTIAL_FAILURE_ERRNO {
        match either(
            json::items_of(json::at(j, "info"@)),
            json::items_of(json::at(json::at(j, "data"@), "info"@)),
        ) {
            Some(l) => match first_errno(l, 0) {
                Some(e) => e,
                None => errno,
            },
            None => errno,
        }
    } else {
        errno
    }
}

/// The id of the task that the service has begun.
pub open spec fn task_of(j: Json) -> Json {
    if json::at(j, "task_id"@) == Json::Null {
        json::at(json::at(j, "data"@), "task_id"@)
    } else {
        json::at(j, "task_id"@)
    }
}

/// What was copied, as an answer lists it.
pub open spec fn copied(list: Option<Seq<Json>>) -> ReplyView {
    match list {
        Some(l) => ReplyView::Copied {
            to_paths: common::copied_to(common::copied_entries(l)),
            from_paths: common::copied_from(common::copied_entries(l)),
        },
        None => ReplyView::Copied { to_paths: Seq::empty(), from_paths: Seq::empty() },
    }
}

/// Where an answer to a copy lists what was copied.
pub open spec fn copied_list(j: Json) -> Option<Seq<Json>> {
    either(
        json::items_of(json::at(json::at(json::at(j, "data"@), "desc"@), "list"@)),
        either(
            json::items_of(json::at(json::at(j, "desc"@), "list"@)),
            either(
                json::items_of(json::at(json::at(j, "data"@), "list"@)),
                json::items_of(json::at(j, "list"@)),
            ),
        ),
    )
}

/// What came of the request for a copy.
pub open spec fn transfer_outcome(j: Json) -> ReplyView {
    if errno_of(j) != 0 {
        ReplyView::Refused(errno_text(telling_errno(j)) + detail_text(shown_in(j)))
    } else if common::names_task(task_of(j)) {
        ReplyView::Task(common::task_id_text(task_of(j)))
    } else {
        copied(copied_list(j))
    }
}

fn find_errno(list: &Vec<Json>) -> (r: Option<i64>)
    ensures
        r == first_errno(list@, 0),
{
    let mut i: usize = 0;
    while i < list.len()
        invariant
            i <= list@.len(),
            first_errno(list@, 0) == first_errno(list@, i as int),
        decreases list@.len() - i,
    {
        match i64_at(&list[i], "errno") {
            Some(e) => {
                if e != 0 {
                    return Some(e);
                }
            },
            None => {},
        }
        i += 1;
    }
    None
}

fn copied_in(list: Option<&Vec<Json>>) -> (r: TransferReply)
    ensures
        reply_reads(
            r,
            copied(
                match list {
                    Some(l) => Some(l@),
                    None => None,
                },
            ),
        ),
{
    match list {
        Some(l) => {
            let t = collect_transfer_entries(l);
            TransferReply::Copied { to_paths: t.0, from_paths: t.1 }
        },
        None => {
            let to_paths: Vec<String> = Vec::new();
            let from_paths: Vec<String> = Vec::new();
            assert(text::texts(to_paths@) =~= Seq::<Seq<char>>::empty());
            assert(text::texts(from_paths@) =~= Seq::<Seq<char>>::empty());
            TransferReply::Copied { to_paths, from_paths }
        },
    }
}

/// What came of the request for a copy.
pub fn transfer_reply_from(j: &Json) -> (r: TransferReply)
    ensures
        reply_reads(r, transfer_outcome(*j)),
{
    let errno = errno_in(j);
    if errno != 0 {
        let shown = text_at(j, "show_msg");
        let telling: i64 = if errno == PARTIAL_FAILURE_ERRNO {
            let list = match array_at(j, "info") {
                Some(l) => Some(l),
                None => array_at2(j, "data", "info"),
            };
            match list {
                Some(l) => match find_errno(l) {
                    Some(e) => e,
                    None => errno,
                },
                None => errno,
            }
        } else {
            errno
        };
        return TransferReply::Refused(
            TransferResult {
                success: false,
                transferred_paths: Vec::new(),
                from_paths: Vec::new(),
                error: Some(describe_transfer_errno(telling, shown.as_str())),
                transferred_fs_ids: Vec::new(),
            },
        );
    }
    let null = Json::Null;
    let outer = match j.get("task_id") {
        Some(v) => v,
        None => &null,
    };
    let task = if outer.is_null() {
        match j.get("data") {
            Some(d) => match d.get("task_id") {
                Some(v) => v,
                None => &null,
            },
            None => &null,
        }
    } else {
        outer
    };
    assert(*task == task_of(*j));
    if is_async_task_id(task) {
        return TransferReply::Task(task_id_string(task));
    }
    let list = match array_at3(j, "data", "desc", "list") {
        Some(l) => Some(l),
        None => match array_at2(j, "desc", "list") {
            Some(l) => Some(l),
            None => match array_at2(j, "data", "list") {
                Some(l) => Some(l),
                None => array_at(j, "list"),
            },
        },
    };
    copied_in(list)
}

/// What came of the request for a copy, from the answer of the service.
pub fn transfer_reply(body: &str) -> (r: Result<TransferReply, String>)
    ensures
        match json::json_of(body@) {
            Some(j) => r matches Ok(t) && reply_reads(t, transfer_outcome(j)),
            None => r matches Err(e) && e@ == "解析企业版转存响应失败"@,
        },
{
    match read_json(body) {
        Some(j) => Ok(transfer_reply_from(&j)),
        None => Err("解析企业版转存响应失败".to_owned()),
    }
}

/// The part of an answer about a task that speaks of the task.
pub open spec fn task_scope(j: Json) -> Json {
    if json::at(j, "status"@) == Json::Null {
        json::at(j, "data"@)
    } else {
        j
    }
}

/// What came of a task of the service: `None` while it goes on.
pub open spec fn task_outcome(j: Json, body: Seq<char>) -> Result<Option<ReplyView>, Seq<char>> {
    let scope = task_scope(j);
    let task_errno = match json::i64_of(json::at(scope, "task_errno"@)) {
        Some(n) => n,
        None => 0i64,
    };
    let status = json::text_or_empty(json::at(scope, "status"@));
    if errno_of(j) != 0 {
        Err(refused_text(j, "企业版任务查询"@))
    } else if task_errno != 0 {
        Err(
            "企业版异步转存任务失败: task_errno="@ + numbers::signed_decimal_of(task_errno as int)
                + ", response="@ + body,
        )
    } else if status == "success"@ {
        Ok(
            Some(
                copied(
                    either(
                        json::items_of(json::at(json::at(scope, "desc"@), "list"@)),
                        json::items_of(json::at(scope, "list"@)),
                    ),
                ),
            ),
        )
    } else if status == "failed"@ {
        Err("企业版异步转存任务失败: status=failed, response="@ + body)
    } else {
        Ok(None)
    }
}

/// `r` is the outcome that `v` describes.
pub open spec fn task_reads(
    r: Result<Option<TransferReply>, String>,
    v: Result<Option<ReplyView>, Seq<char>>,
) -> bool {
    match (r, v) {
        (Ok(Some(t)), Ok(Some(x))) => reply_reads(t, x),
        (Ok(None), Ok(None)) => true,
        (Err(e), Err(x)) => e@ == x,
        _ => false,
    }
}

/// What came of a task of the service; `body` is the answer as it came.
pub fn task_reply_from(j: &Json, body: &str) -> (r: Result<Option<TransferReply>, String>)
    ensures
        task_reads(r, task_outcome(*j, body@)),
{
    match check_errno(j, "企业版任务查询") {
        Ok(_) => {},
        Err(e) => {
            return Err(e);
        },
    }
    let null = Json::Null;
    let outer_status = match j.get("status") {
        Some(v) => v,
        None => &null,
    };
    let scope = if outer_status.is_null() {
        match j.get("data") {
            Some(d) => d,
            None => &null,
        }
    } else {
        j
    };
    assert(*scope == task_scope(*j));
    let task_errno: i64 = match i64_at(scope, "task_errno") {
        Some(n) => n,
        None => 0,
    };
    let status = text_at(scope, "status");
    if task_errno != 0 {
        let n = signed_decimal(task_errno);
        let mut e = concat3(
            "企业版异步转存任务失败: task_errno=",
            n.as_str(),
            ", response=",
        );
        e.append(body);
        return Err(e);
    }
    if same(status.as_str(), "success") {
        let list = match array_at2(scope, "desc", "list") {
            Some(l) => Some(l),
            None => array_at(scope, "list"),
        };
        return Ok(Some(copied_in(list)));
    }
    if same(status.as_str(), "failed") {
        return Err(
            concat2("企业版异步转存任务失败: status=failed, response=", body),
        );
    }
    Ok(None)
}

/// What came of a task of the service, from its answer.
pub fn task_reply(body: &str) -> (r: Result<Option<TransferReply>, String>)
    ensures
        match json::json_of(body@) {
            Some(j) => task_reads(r, task_outcome(j, body@)),
            None => r matches Err(e) && e@ == "解析企业版任务查询响应失败"@,
        },
{
    match read_json(body) {
        Some(j) => task_reply_from(&j, body),
        None => Err("解析企业版任务查询响应失败".to_owned()),
    }
}

// ---------------------------------------------------------------------------
// The ids of what was copied
// ---------------------------------------------------------------------------
/// The entries of a page of a directory of the disk.
pub const FS_ID_PAGE_SIZE: usize = 1000;

/// The directory that holds a path.
pub open spec fn holder(path: Seq<char>) -> Seq<char> {
    match text::last_before(path, '/', path.len() as int) {
        Some(i) => if i == 0 {
            "/"@
        } else {
            path.take(i)
        },
        None => "/"@,
    }
}

fn holder_of(path: &str) -> (r: String)
    ensures
        r@ == holder(path@),
{
    let cs = chars_of(path);
    match rfind_char(&cs, '/', cs.len()) {
        Some(i) => if i == 0 {
            "/".to_owned()
        } else {
            let r = string_between(&cs, 0, i);
            assert(r@ =~= path@.take(i as int));
            r
        },
        None => "/".to_owned(),
    }
}

/// Looking up the ids of paths of the disk, directory by directory. The enterprise system
/// does not tell the ids of what was copied.
pub struct FsIdLookup {
    dirs: Vec<String>,
    at: usize,
    page: u32,
    found: StringHashMap<u64>,
}

/// How far a lookup has come.
#[verifier::ext_equal]
pub struct LookupState {
    /// The directories to list.
    pub dirs: Seq<Seq<char>>,
    /// The one that is being listed.
    pub at: int,
    /// The page of it that is listed next.
    pub page: u32,
    /// The ids found.
    pub found: Map<Seq<char>, u64>,
}

impl View for FsIdLookup {
    type V = LookupState;

    closed spec fn view(&self) -> LookupState {
        LookupState {
            dirs: text::texts(self.dirs@),
            at: self.at as int,
            page: self.page,
            found: self.found@,
        }
    }
}

/// The ids found with those of a page.
pub open spec fn with_page(found: Map<Seq<char>, u64>, list: Seq<(String, u64)>) -> Map<
    Seq<char>,
    u64,
>
    decreases list.len(),
{
    if list.len() == 0 {
        found
    } else {
        with_page(found, list.drop_last()).insert(list.last().0@, list.last().1)
    }
}

/// The lookup after a page, or after a failure. A full page is followed by the next one;
/// else the next directory comes.
pub open spec fn looked_up(s: LookupState, reply: Option<Seq<(String, u64)>>) -> LookupState {
    match reply {
        Some(list) => if list.len() < FS_ID_PAGE_SIZE {
            LookupState { at: s.at + 1, page: 1, found: with_page(s.found, list), ..s }
        } else {
            LookupState { page: (s.page + 1) as u32, found: with_page(s.found, list), ..s }
        },
        None => LookupState { at: s.at + 1, page: 1, ..s },
    }
}

/// The directories that hold the paths.
pub open spec fn holders(paths: Seq<Seq<char>>) -> Set<Seq<char>> {
    paths.map_values(|p: Seq<char>| holder(p)).to_set()
}

impl FsIdLookup {
    /// Begins to look up the ids of the paths. Each directory is listed once.
    pub fn begin(paths: &Vec<String>) -> (r: FsIdLookup)
        ensures
            r@.dirs.to_set() == holders(text::texts(paths@)),
            r@.dirs.no_duplicates(),
            r@.at == 0,
            r@.page == 1,
            r@.found == Map::<Seq<char>, u64>::empty(),
    {
        let ghost ps = text::texts(paths@);
        let ghost hs = ps.map_values(|p: Seq<char>| holder(p));
        let mut seen = PathSet::new();
        let mut dirs: Vec<String> = Vec::new();
        let mut i: usize = 0;
        proof {
            assert(text::texts(dirs@) =~= Seq::<Seq<char>>::empty());
            assert(hs.take(0).to_set() =~= Set::<Seq<char>>::empty());
            assert(text::texts(dirs@).to_set() =~= Set::<Seq<char>>::empty());
        }
        while i < paths.len()
            invariant
                i <= paths@.len(),
                ps == text::texts(paths@),
                hs == ps.map_values(|p: Seq<char>| holder(p)),
                seen@ == text::texts(dirs@).to_set(),
                seen@ == hs.take(i as int).to_set(),
                text::texts(dirs@).no_duplicates(),
            decreases paths@.len() - i,
        {
            let ghost before = text::texts(dirs@);
            let dir = holder_of(paths[i].as_str());
            let ghost gd = dir@;
            proof {
                assert(ps[i as int] == paths@[i as int]@);
                assert(hs[i as int] == gd);
                assert(hs.take(i + 1) =~= hs.take(i as int).push(gd));
                crate::collections::lemma_push_to_set(hs.take(i as int), gd);
                crate::collections::lemma_push_to_set(before, gd);
            }
            if seen.insert(dir.clone()) {
                dirs.push(dir);
                proof {
                    assert(text::texts(dirs@) =~= before.push(gd));
                    assert(!before.contains(gd)) by {
                        if before.contains(gd) {
                            assert(before.to_set().contains(gd));
                        }
                    }
                }
            } else {
                assert(before.to_set().insert(gd) =~= before.to_set());
            }
            i += 1;
        }
        assert(hs.take(i as int) =~= hs);
        let found = StringHashMap::new();
        assert(found@ =~= Map::<Seq<char>, u64>::empty());
        FsIdLookup { dirs, at: 0, page: 1, found }
    }

    /// The directory and the page to list next; `None` where all are listed.
    pub fn next(&self) -> (r: Option<(String, u32)>)
        ensures
            self@.at >= self@.dirs.len() ==> r is None,
            0 <= self@.at < self@.dirs.len() ==> (r matches Some(d) && d.0@
                == self@.dirs[self@.at] && d.1 == self@.page),
    {
        if self.at < self.dirs.len() {
            assert(self@.dirs[self@.at] == self.dirs@[self.at as int]@);
            Some((self.dirs[self.at].clone(), self.page))
        } else {
            None
        }
    }

    /// Goes on with the paths and ids of a page; `None` where it could not be listed.
    pub fn listed(&mut self, reply: Option<Vec<(String, u64)>>)
        requires
            old(self)@.page < u32::MAX,
            0 <= old(self)@.at < old(self)@.dirs.len(),
        ensures
            final(self)@ == looked_up(
                old(self)@,
                match reply {
                    Some(v) => Some(v@),
                    None => None,
                },
            ),
    {
        let n: usize = self.dirs.len();
        assert(text::texts(self.dirs@).len() == n);
        match reply {
            Some(list) => {
                let mut i: usize = 0;
                let ghost start = self.found@;
                assert(list@.take(0) =~= Seq::<(String, u64)>::empty());
                while i < list.len()
                    invariant
                        i <= list@.len(),
                        self.dirs == old(self).dirs,
                        self.at == old(self).at,
                        self.page == old(self).page,
                        start == old(self).found@,
                        self.found@ == with_page(start, list@.take(i as int)),
                    decreases list@.len() - i,
                {
                    proof {
                        assert(list@.take(i + 1).drop_last() =~= list@.take(i as int));
                        assert(list@.take(i + 1).last() == list@[i as int]);
                    }
                    self.found.insert(list[i].0.clone(), list[i].1);
                    i += 1;
                }
                assert(list@.take(i as int) =~= list@);
                if list.len() < FS_ID_PAGE_SIZE {
                    self.at = self.at + 1;
                    self.page = 1;
                } else {
                    self.page = self.page + 1;
                }
            },
            None => {
                self.at = self.at + 1;
                self.page = 1;
            },
        }
    }

    /// The ids of the paths; zero where none was found.
    pub fn finish(&self, paths: &Vec<String>) -> (r: Vec<u64>)
        ensures
            r@ == text::texts(paths@).map_values(
                |p: Seq<char>|
                    if self@.found.contains_key(p) {
                        self@.found[p]
                    } else {
                        0u64
                    },
            ),
    {
        let ghost found = self@.found;
        let ghost all = text::texts(paths@).map_values(
            |p: Seq<char>|
                if found.contains_key(p) {
                    found[p]
                } else {
                    0u64
                },
        );
        let mut r: Vec<u64> = Vec::new();
        let mut i: usize = 0;
        while i < paths.len()
            invariant
                i <= paths@.len(),
                found == self.found@,
                all == text::texts(paths@).map_values(
                    |p: Seq<char>|
                        if found.contains_key(p) {
                            found[p]
                        } else {
                            0u64
                        },
                ),
                r@ == all.take(i as int),
            decreases paths@.len() - i,
        {
            let id: u64 = match self.found.get(paths[i].as_str()) {
                Some(n) => *n,
                None => 0,
            };
            r.push(id);
            proof {
                assert(text::texts(paths@)[i as int] == paths@[i as int]@);
                assert(all[i as int] == id);
            }
            i += 1;
            assert(r@ =~= all.take(i as int));
        }
        assert(all.take(i as int) =~= all);
        r
    }
}

/// The result of a copy that succeeded.
pub fn copied_result(to_paths: Vec<String>, from_paths: Vec<String>, fs_ids: Vec<u64>) -> (r:
    TransferResult)
    ensures
        r.success,
        r.transferred_paths == to_paths,
        r.from_paths == from_paths,
        r.error is None,
        r.transferred_fs_ids == fs_ids,
{
    TransferResult {
        success: true,
        transferred_paths: to_paths,
        from_paths,
        error: None,
        transferred_fs_ids: fs_ids,
    }
}

/// A listed directory is named without the mark of the share; other names stay.
pub proof fn law_dir_is_named_without_the_mark(mark: Seq<char>, rest: Seq<char>)
    requires
        common::is_share_mark(mark),
        !mark.contains('/'),
    ensures
        plain_dir("/sharelink"@ + mark + seq!['/'] + rest) == seq!['/'] + rest,
        plain_dir("/sharelink"@ + mark).len() == 0,
        !"/sharelink"@.is_prefix_of(rest) ==> plain_dir(rest) == rest,
{
    let head = "/sharelink"@;
    let d = head + mark + seq!['/'] + rest;
    let tail = mark + seq!['/'] + rest;
    assert(d.take(head.len() as int) =~= head);
    assert(d.skip(head.len() as int) =~= tail);
    text::lemma_first_at(tail, '/', 0);
    assert(tail[mark.len() as int] == '/');
    let k = text::first_at(tail, '/', 0)->Some_0;
    if k < mark.len() {
        assert(tail[k] == mark[k]);
        assert(mark.contains(mark[k]));
    }
    assert(tail.take(mark.len() as int) =~= mark);
    assert(tail.skip(mark.len() as int) =~= seq!['/'] + rest);
    let e = head + mark;
    assert(e.take(head.len() as int) =~= head);
    assert(e.skip(head.len() as int) =~= mark);
    text::lemma_first_at(mark, '/', 0);
    if text::first_at(mark, '/', 0) is Some {
        assert(mark.contains(mark[text::first_at(mark, '/', 0)->Some_0]));
    }
}

/// A listing is asked for with the token, its page and its length; below the root also with its
/// directory.
pub proof fn law_what_a_listing_asks_for(dir: Seq<char>, page: u32, num: u32, token: Seq<char>)
    ensures
        ({
            let f = list_form(dir, page, num, token);
            &&& f.len() >= 3
            &&& f[0] == ("spwd"@, token)
            &&& f[1] == ("page"@, numbers::decimal_of(page as nat))
            &&& f[2] == ("page_size"@, numbers::decimal_of(num as nat))
            &&& f.len() == 4 <==> plain_dir(dir).len() > 0 && plain_dir(dir) != "/"@
            &&& f.len() == 4 ==> f[3] == ("dir"@, plain_dir(dir))
        }),
{
}

/// What a copy is asked with: the ids, where they go to, the token and the share, to be done later
/// and beside what is there already.
pub proof fn law_what_a_copy_asks_for(
    ids: Seq<char>,
    target: Seq<char>,
    spwd: Seq<char>,
    short_url: Seq<char>,
    fs_ids: Seq<u64>,
    i: int,
)
    requires
        0 <= i < fs_ids.len(),
    ensures
        copy_form(ids, target, spwd, short_url).contains(("fsid_list"@, ids)),
        copy_form(ids, target, spwd, short_url).contains(("to_path"@, target)),
        copy_form(ids, target, spwd, short_url).contains(("spwd"@, spwd)),
        copy_form(ids, target, spwd, short_url).contains(("short_url"@, short_url)),
        copy_form(ids, target, spwd, short_url).contains(("async"@, "1"@)),
        copy_form(ids, target, spwd, short_url).contains(("ondup"@, "newcopy"@)),
        copy_form(ids, target, spwd, short_url).len() == 7,
        id_texts(fs_ids).len() == fs_ids.len(),
        id_texts(fs_ids)[i] == numbers::decimal_of(fs_ids[i] as nat),
{
    let f = copy_form(ids, target, spwd, short_url);
    assert(f[0] == ("fsid_list"@, ids) && f[1] == ("to_path"@, target) && f[2] == ("spwd"@, spwd));
    assert(f[3] == ("short_url"@, short_url) && f[4] == ("async"@, "1"@) && f[5] == (
        "ondup"@,
        "newcopy"@,
    ));
}

/// A request to copy was refused exactly where the answer has an error; else it is a task where
/// the answer names one, or done.
pub proof fn law_how_a_copy_is_answered(j: Json)
    ensures
        transfer_outcome(j) is Refused <==> errno_of(j) != 0,
        transfer_outcome(j) is Task <==> errno_of(j) == 0 && common::names_task(task_of(j)),
        transfer_outcome(j) matches ReplyView::Task(id) ==> id == common::task_id_text(task_of(j)),
        transfer_outcome(j) is Copied <==> errno_of(j) == 0 && !common::names_task(task_of(j)),
        transfer_outcome(j) matches ReplyView::Copied { to_paths, from_paths } ==> to_paths.len()
            == from_paths.len(),
        json::at(j, "task_id"@) != Json::Null ==> task_of(j) == json::at(j, "task_id"@),
        json::at(j, "task_id"@) == Json::Null ==> task_of(j) == json::at(
            json::at(j, "data"@),
            "task_id"@,
        ),
        json::i64_of(json::at(j, "errno"@)) matches Some(n) ==> errno_of(j) == n,
        json::i64_of(json::at(j, "errno"@)) is None ==> errno_of(j) == -1,
{
}

/// A copy under way has failed where the answer, or its task, has an error or says so; it is done
/// where it says so, and goes on else.
pub proof fn law_how_a_copy_under_way_is_answered(j: Json, body: Seq<char>)
    ensures
        errno_of(j) != 0 ==> task_outcome(j, body) is Err,
        (json::i64_of(json::at(task_scope(j), "task_errno"@)) matches Some(n) && n != 0)
            ==> task_outcome(j, body) is Err,
        json::text_or_empty(json::at(task_scope(j), "status"@)) == "failed"@ ==> task_outcome(
            j,
            body,
        ) is Err,
        task_outcome(j, body) matches Ok(Some(_)) <==> errno_of(j) == 0 && !(json::i64_of(
            json::at(task_scope(j), "task_errno"@),
        ) matches Some(n) && n != 0) && json::text_or_empty(json::at(task_scope(j), "status"@))
            == "success"@,
        json::at(j, "status"@) != Json::Null ==> task_scope(j) == j,
        json::at(j, "status"@) == Json::Null ==> task_scope(j) == json::at(j, "data"@),
{
    reveal_strlit("failed");
    reveal_strlit("success");
    assert("failed"@.len() == 6 && "success"@.len() == 7);
}

/// Of a copy that failed in part the first error of an entry is told.
pub proof fn law_first_error_of_an_entry_is_told(list: Seq<Json>, i: int)
    requires
        0 <= i <= list.len(),
    ensures
        match first_errno(list, i) {
            Some(e) => e != 0 && exists|k: int|
                {
                    &&& i <= k < list.len()
                    &&& json::i64_of(json::at(#[trigger] list[k], "errno"@)) == Some(e)
                    &&& forall|m: int|
                        i <= m < k ==> (json::i64_of(json::at(#[trigger] list[m], "errno"@))
                            matches Some(n) ==> n == 0)
                },
            None => forall|m: int|
                i <= m < list.len() ==> (json::i64_of(json::at(#[trigger] list[m], "errno"@))
                    matches Some(n) ==> n == 0),
        },
    decreases list.len() - i,
{
    if i < list.len() {
        let e = json::i64_of(json::at(list[i], "errno"@));
        if !(e matches Some(n) && n != 0) {
            law_first_error_of_an_entry_is_told(list, i + 1);
        }
    }
}

/// A share can be opened where its page has no error and names it; its keys are those of the page,
/// and its short name the page's, or else the link's.
pub proof fn law_when_a_share_can_be_opened(data: Json, link_key: Seq<char>)
    ensures
        ({
            let info = json::at(data, "shareInfo"@);
            let link = json::at(info, "link_info"@);
            &&& page_outcome(data, link_key) is Ok <==> errno_of(info) == 0 && (
            common::text_or_number(json::at(link, "share_id"@)) matches Some(s) && s.len() > 0)
            &&& page_outcome(data, link_key) matches Ok(p) ==> {
                &&& common::text_or_number(json::at(link, "share_id"@)) == Some(p.shareid)
                &&& p.uk == p.share_uk
                &&& common::text_or_number(json::at(link, "share_uk"@)) matches Some(u)
                    ==> p.share_uk == u
                &&& json::text_or_empty(json::at(link, "short_url"@)).len() > 0 ==> p.short_key
                    == json::text_or_empty(json::at(link, "short_url"@))
                &&& json::text_or_empty(json::at(link, "short_url"@)).len() == 0 ==> p.short_key
                    == link_key
                &&& p.kind == ShareKind::Apaas
            }
        }),
{
}

/// A password was right exactly where neither the answer nor what it holds has an error, and a
/// token is there; then the token is what is handed on.
pub proof fn law_when_a_password_was_right(j: Json)
    ensures
        ({
            let data = json::at(j, "data"@);
            let token = json::text_or_empty(json::at(data, "spwd"@));
            &&& spwd_outcome(j) is Ok <==> errno_of(j) == 0 && errno_of(data) == 0 && token.len()
                > 0
            &&& spwd_outcome(j) matches Ok(t) ==> t == token
        }),
{
}

/// The directory that holds a path is what stands before its last slash; the root for what stands
/// at the top.
pub proof fn law_holder_stands_before_the_last_slash(dir: Seq<char>, name: Seq<char>)
    requires
        !name.contains('/'),
    ensures
        dir.len() > 0 ==> holder(dir.push('/') + name) == dir,
        holder(seq!['/'] + name) == "/"@,
        holder(name) == "/"@,
{
    let s = dir.push('/') + name;
    text::lemma_last_before(s, '/', s.len() as int);
    assert(s[dir.len() as int] == '/');
    let k = text::last_before(s, '/', s.len() as int)->Some_0;
    if k > dir.len() {
        assert(s[k] == name[k - dir.len() - 1]);
        assert(name.contains('/'));
    }
    assert(s.take(dir.len() as int) =~= dir);
    let t = seq!['/'] + name;
    text::lemma_last_before(t, '/', t.len() as int);
    assert(t[0] == '/');
    let m = text::last_before(t, '/', t.len() as int)->Some_0;
    if m > 0 {
        assert(t[m] == name[m - 1]);
        assert(name.contains('/'));
    }
    text::lemma_last_before(name, '/', name.len() as int);
    if text::last_before(name, '/', name.len() as int) is Some {
        assert(name.contains(name[text::last_before(name, '/', name.len() as int)->Some_0]));
    }
}

/// Ids are looked up directory by directory, each to its end: after a full page its next one, else
/// the next directory. What was found is kept, a later listing of a path over an earlier.
pub proof fn law_ids_are_looked_up_to_the_end(
    s: LookupState,
    list: Seq<(String, u64)>,
    x: (String, u64),
)
    requires
        s.page < u32::MAX,
    ensures
        list.len() >= FS_ID_PAGE_SIZE ==> looked_up(s, Some(list)).at == s.at && looked_up(
            s,
            Some(list),
        ).page == s.page + 1,
        list.len() < FS_ID_PAGE_SIZE ==> looked_up(s, Some(list)).at == s.at + 1 && looked_up(
            s,
            Some(list),
        ).page == 1,
        looked_up(s, None).at == s.at + 1 && looked_up(s, None).page == 1 && looked_up(s, None).found
            == s.found,
        looked_up(s, Some(list)).dirs == s.dirs,
        looked_up(s, Some(list)).found == with_page(s.found, list),
        with_page(s.found, list.push(x)) == with_page(s.found, list).insert(x.0@, x.1),
        with_page(s.found, seq![]) == s.found,
{
    assert(list.push(x).drop_last() =~= list);
}

/// A failure that has no words of its own is told by its number, and two such failures never
/// alike.
pub proof fn law_unknown_failures_are_told_apart(a: i64, b: i64)
    requires
        a > 100000,
        b > 100000,
        errno_text(a) == errno_text(b),
    ensures
        a == b,
{
    let lead = "企业版转存失败: errno="@;
    let x = numbers::decimal_of(a as nat);
    let y = numbers::decimal_of(b as nat);
    assert((lead + x).skip(lead.len() as int) =~= x);
    assert((lead + y).skip(lead.len() as int) =~= y);
    numbers::law_decimal_round_trip(a as nat, u64::MAX as nat);
    numbers::law_decimal_round_trip(b as nat, u64::MAX as nat);
}

/// Failures of one cause are told alike, and failures of two causes never: no room, too many
/// files, a name that is taken, and too long a wait.
pub proof fn law_failures_are_told_by_their_cause(a: i64, b: i64)
    ensures
        (a == -10 || a == -32 || a == 31112) && (b == -10 || b == -32 || b == 31112) ==> errno_text(a)
            == errno_text(b) && errno_text(a) == "网盘空间不足，无法转存"@,
        (a == -33 || a == 120 || a == 130 || a == 31075 || a == 31174 || a == 31175) ==> errno_text(a)
            == "转存文件数超过上限"@,
        (a == -8 || a == -30 || a == 31061) ==> errno_text(a) == "目标位置已存在同名文件"@,
        (a == 4 || a == -31 || a == 31069 || a == 111 || a == 31171) ==> errno_text(a)
            == "转存超时，请稍后再试"@,
        a == -6 ==> errno_text(a) == "登录已失效，请重新登录"@,
        a == 20025 ==> errno_text(a) == "分享页面已失效，请刷新后重试"@,
        a == 90003 ==> errno_text(a) == "部分文件有版权限制，不支持转存"@,
{
}

/// A reply says what was read of it: why the copy was refused, which task carries it out, or what
/// was copied from where to where.
pub proof fn law_reply_says_what_was_read(r: TransferReply, v: ReplyView)
    requires
        reply_reads(r, v),
    ensures
        r is Refused <==> v is Refused,
        r is Task <==> v is Task,
        r is Copied <==> v is Copied,
        r matches TransferReply::Task(id) ==> (v matches ReplyView::Task(x) && id@ == x),
        r matches TransferReply::Copied { to_paths, from_paths } ==> (v matches ReplyView::Copied {
            to_paths: a,
            from_paths: b,
        } && text::texts(to_paths@) == a && text::texts(from_paths@) == b),
        r matches TransferReply::Refused(t) ==> !t.success && t.error is Some && (
        v matches ReplyView::Refused(msg) && t.error->Some_0@ == msg),
{
}

} // verus!
