use netdisk_sync::netdisk::json::Json;
use netdisk_sync::netdisk::share::apaas::{
    access_request, check_errno, copied_result, describe_transfer_errno, dir_listing,
    extract_json_object_after, list_reply, list_request, normalize_dir, page_info, query_request,
    root_listing, task_reply, transfer_form, transfer_reply, transfer_request, verify_reply,
    verify_request, ApaasShare, FsIdLookup, TransferReply,
};
use netdisk_sync::netdisk::share::common::{
    collect_transfer_entries, is_async_task_id, json_flag, json_str_or_num, json_u64,
    parse_shared_files, poll_delay_ms, poll_delay_with, task_id_string,
};
use netdisk_sync::netdisk::share::copying::{ApaasCopy, CopyAsk};
use netdisk_sync::netdisk::share::links::parse_share_link;
use netdisk_sync::netdisk::share::personal::PersonalShare;
use netdisk_sync::netdisk::share::{provider_for, ShareProvider};
use netdisk_sync::share_sync::paths::strip_sharelink_prefix;
use netdisk_sync::transfer::{ShareKind, ShareLink, SharePageInfo};

fn json(s: &str) -> Json {
    Json::parse(s).unwrap()
}

#[test]
fn extracts_nested_yundata_object() {
    let html = r#"<script>window.yunData = {"a":{"b":[1,2]},"c":"}"};
            window.yunData && eval();</script>"#;
    let raw = extract_json_object_after(html, "window.yunData").unwrap();
    let v = json(&raw);
    let b = v.get("a").unwrap().get("b").unwrap().as_array().unwrap();
    assert_eq!(b[1].as_u64(), Some(2));
    assert_eq!(v.get("c").unwrap().as_str(), Some("}"));
}

#[test]
fn extraction_handles_escaped_quotes() {
    let html = r#"window.yunData = {"name":"a\"}b","n":1};"#;
    let raw = extract_json_object_after(html, "window.yunData").unwrap();
    let v = json(&raw);
    assert_eq!(v.get("n").unwrap().as_u64(), Some(1));
    assert_eq!(v.get("name").unwrap().as_str(), Some("a\"}b"));
}

#[test]
fn parse_link_only_accepts_apaas_routes() {
    assert!(ApaasShare.parse_link("https://pan.baidu.com/s/1abc").unwrap().is_none());
    assert!(ApaasShare
        .parse_link("https://pan.baidu.com/share/init?surl=abc")
        .unwrap()
        .is_none());

    let link = ApaasShare
        .parse_link("https://pan.baidu.com/apaas/share?surl=KqfOZ0gupO45mF7TyXzlRg&pwd=1HYy")
        .unwrap()
        .unwrap();
    assert_eq!(link.short_key, "KqfOZ0gupO45mF7TyXzlRg");
    assert_eq!(link.password.as_deref(), Some("1HYy"));
}

#[test]
fn transfer_form_is_flat_with_json_array() {
    let form = transfer_form(
        &vec!["250200452845377".to_string(), "2804215504560".to_string()],
        "/13/13",
        "SPWD-TOKEN",
        "KqfOZ0gupO45mF7TyXzlRg",
    );
    let map: std::collections::HashMap<_, _> = form.iter().cloned().collect();

    assert!(!map.contains_key("data"), "字段被错误地包进了 data: {:?}", map);

    assert_eq!(map["fsid_list"], r#"["250200452845377","2804215504560"]"#);
    assert_eq!(map["to_path"], "/13/13");
    assert_eq!(map["spwd"], "SPWD-TOKEN");
    assert_eq!(map["short_url"], "KqfOZ0gupO45mF7TyXzlRg");
    assert_eq!(map["async"], "1");
    assert_eq!(map["ondup"], "newcopy");
    assert_eq!(map["product"], "");
}

#[test]
fn taskquery_success_entries_live_under_desc_list() {
    let text = r#"{"data":{"desc":{"list":[{"error_code":0,
                "from":"/build_1125897667178235-9/夫君背叛，局中方醒  首发12集",
                "size":1992141078,
                "to":"/13/13/夫君背叛，局中方醒  首发12集"}],"succNum":1},
                "progress":0,"status":"success","task_id":"507727160105585"},
                "errno":0}"#;
    let body = json(text);
    let scope = body.get("data").unwrap();
    let list = scope.get("desc").unwrap().get("list").unwrap().as_array().expect("应能定位到结果列表");
    let (to, from, fs_ids) = collect_transfer_entries(list);

    assert_eq!(to, vec!["/13/13/夫君背叛，局中方醒  首发12集"]);
    assert_eq!(from.len(), 1);
    assert!(fs_ids.is_empty(), "企业版本就没有 to_fs_id");

    match task_reply(text) {
        Ok(Some(TransferReply::Copied { to_paths, from_paths })) => {
            assert_eq!(to_paths, to);
            assert_eq!(from_paths, from);
        }
        other => panic!("{:?}", other.is_ok()),
    }
}

#[test]
fn taskquery_running_desc_is_empty_array() {
    let text = r#"{"data":{"desc":[],"progress":10,"status":"running","task_id":"507727160105585"},"errno":0}"#;
    let body = json(text);
    let scope = body.get("data").unwrap();
    assert_eq!(scope.get("status").unwrap().as_str(), Some("running"));
    assert!(scope.get("desc").unwrap().get("list").is_none());
    assert!(matches!(task_reply(text), Ok(None)));
}

#[test]
fn normalize_dir_strips_personal_sharelink_prefix() {
    assert_eq!(
        normalize_dir("/sharelink1644665781-13606518782/夫君背叛，局中方醒  首发12集"),
        "/夫君背叛，局中方醒  首发12集"
    );
    assert_eq!(normalize_dir("/sharelink1644665781-13606518782"), "");
    assert_eq!(normalize_dir("/夫君背叛，局中方醒  首发12集"), "/夫君背叛，局中方醒  首发12集");
    assert_eq!(normalize_dir(""), "");
    assert_eq!(normalize_dir("/"), "/");
    assert_eq!(normalize_dir("/sharelinkage/a"), "/sharelinkage/a");
}

#[test]
fn only_the_mark_of_a_share_is_taken_off_a_directory() {
    for dir in [
        "/sharelink2024/a",
        "/sharelink/a",
        "/sharelink-/a",
        "/sharelink1-/a",
        "/sharelink-2/a",
        "/sharelink1-2-3/a",
        "/sharelink1-2x/a",
        "/sharelink2024",
    ] {
        assert_eq!(normalize_dir(dir), dir);
        assert_eq!(strip_sharelink_prefix(dir), dir);
    }
    assert_eq!(normalize_dir("/sharelink1-2/a"), "/a");
    assert_eq!(strip_sharelink_prefix("/sharelink1-2/a"), "/a");
    assert_eq!(strip_sharelink_prefix("/sharelink1-2"), "/");
    assert_eq!(strip_sharelink_prefix("/sharelinkage/a"), "/sharelinkage/a");
}

#[test]
fn errno_13042_carries_dir_hint() {
    let j = json(
        r#"{"errno":13042,"show_msg":"prohibit list dir that are not in the sharing link"}"#,
    );
    let msg = check_errno(&j, "获取企业版分享文件列表").unwrap_err();
    assert!(msg.contains("13042"));
    assert!(msg.contains("不在分享范围内"));
}

#[test]
fn parses_personal_and_apaas_file_items() {
    let personal = json(
        r#"[{"fs_id": 123456789, "isdir": 1, "path": "/a/b", "size": 0, "server_filename": "b"}]"#,
    );
    let files = parse_shared_files(personal.as_array().unwrap());
    assert_eq!(files[0].fs_id, 123456789);
    assert!(files[0].is_dir);
    assert_eq!(files[0].name, "b");

    let apaas = json(
        r#"[{"fsid": "250200452845377", "isdir": 0, "path": "/x/y.mp4", "size": 382557048,
            "server_filename": "y.mp4"}]"#,
    );
    let files = parse_shared_files(apaas.as_array().unwrap());
    assert_eq!(files[0].fs_id, 250200452845377);
    assert!(!files[0].is_dir);
    assert_eq!(files[0].size, 382557048);
}

#[test]
fn collects_transfer_entries_in_order() {
    let list = json(
        r#"[{"from": "/s/1.mp4", "to": "/d/1.mp4", "to_fs_id": 11},
            {"from": "/s/2.mp4", "to": "/d/2.mp4", "to_fs_id": 22}]"#,
    );
    let (to, from, ids) = collect_transfer_entries(list.as_array().unwrap());
    assert_eq!(to, vec!["/d/1.mp4", "/d/2.mp4"]);
    assert_eq!(from, vec!["/s/1.mp4", "/s/2.mp4"]);
    assert_eq!(ids, vec![11, 22]);
}

#[test]
fn what_was_copied_corresponds_by_index() {
    let list = json(r#"[{"from": "/s/1"}, {"from": "/s/2", "to": "/d/2", "to_fs_id": 22}]"#);
    let (to, from, ids) = collect_transfer_entries(list.as_array().unwrap());
    assert_eq!((to, from, ids), (vec!["/d/2".into()], vec!["/s/2".into()], vec![22]));
    let list = json(
        r#"[{"to": "/d/1"}, {"from": "/s/2", "to": "/d/2", "to_fs_id": 22}, {"to_fs_id": 3}]"#,
    );
    let (to, from, ids) = collect_transfer_entries(list.as_array().unwrap());
    assert_eq!(to, vec!["/d/1", "/d/2"]);
    assert_eq!(from, vec!["", "/s/2"]);
    assert_eq!(ids, vec![0, 22]);
}

#[test]
fn detects_async_task_id_across_types() {
    assert!(is_async_task_id(&json("12345")));
    assert!(is_async_task_id(&json("\"12345\"")));
    assert!(!is_async_task_id(&json("0")));
    assert!(!is_async_task_id(&json("\"0\"")));
    assert!(!is_async_task_id(&json("\"\"")));
    assert!(!is_async_task_id(&json("null")));
}

#[test]
fn poll_delay_follows_ladder() {
    assert_eq!(poll_delay_ms(1), 0);
    assert!((800..=1200).contains(&poll_delay_ms(3)));
    assert!((1600..=2400).contains(&poll_delay_ms(8)));
    assert!((4000..=6000).contains(&poll_delay_ms(20)));
}

#[test]
fn apaas_link_keeps_surl_without_prefix() {
    let link =
        parse_share_link("https://pan.baidu.com/apaas/share?surl=KqfOZ0gupO45mF7TyXzlRg&pwd=1HYy")
            .unwrap();
    assert_eq!(link.kind, ShareKind::Apaas);
    assert_eq!(link.short_key, "KqfOZ0gupO45mF7TyXzlRg");
    assert_eq!(link.password.as_deref(), Some("1HYy"));
}

#[test]
fn personal_short_link_is_unchanged() {
    let link = parse_share_link("https://pan.baidu.com/s/1abcDEFg").unwrap();
    assert_eq!(link.kind, ShareKind::Personal);
    assert_eq!(link.short_key, "1abcDEFg");
    assert!(link.password.is_none());
}

#[test]
fn personal_surl_form_still_gets_prefix() {
    let link = parse_share_link("https://pan.baidu.com/share/init?surl=abcDEFg&pwd=xy12").unwrap();
    assert_eq!(link.kind, ShareKind::Personal);
    assert_eq!(link.short_key, "1abcDEFg");
    assert_eq!(link.password.as_deref(), Some("xy12"));
}

#[test]
fn rejects_non_baidu_link() {
    assert!(parse_share_link("https://example.com/s/1abc").is_err());
}

#[test]
fn parses_short_link_and_password() {
    let link = PersonalShare
        .parse_link("https://pan.baidu.com/s/1abcDEFg?pwd=xy12")
        .unwrap()
        .unwrap();
    assert_eq!(link.short_key, "1abcDEFg");
    assert_eq!(link.password.as_deref(), Some("xy12"));
    assert_eq!(link.kind, ShareKind::Personal);
}

#[test]
fn adds_prefix_for_surl_form() {
    let link = PersonalShare
        .parse_link("https://pan.baidu.com/share/init?surl=abcDEFg")
        .unwrap()
        .unwrap();
    assert_eq!(link.short_key, "1abcDEFg");
}

#[test]
fn refuses_apaas_links() {
    assert!(PersonalShare
        .parse_link("https://pan.baidu.com/apaas/share?surl=abc&pwd=1234")
        .unwrap()
        .is_none());
}

#[test]
fn providers_know_their_kind() {
    assert_eq!(provider_for(ShareKind::Personal).kind(), ShareKind::Personal);
    assert_eq!(provider_for(ShareKind::Apaas).kind(), ShareKind::Apaas);
    let link = provider_for(ShareKind::Personal).parse_link("https://pan.baidu.com/s/1x").unwrap();
    assert_eq!(link.unwrap().short_key, "1x");
}

#[test]
fn numbers_and_flags_come_as_texts_too() {
    assert_eq!(json_str_or_num(&json("12")).as_deref(), Some("12"));
    assert_eq!(json_str_or_num(&json("-3")).as_deref(), Some("-3"));
    assert_eq!(json_str_or_num(&json("\"x\"")).as_deref(), Some("x"));
    assert_eq!(json_str_or_num(&json("\"\"")), None);
    assert_eq!(json_str_or_num(&json("true")), None);
    assert_eq!(json_u64(&json("\"17\"")), 17);
    assert_eq!(json_u64(&json("\"x\"")), 0);
    assert!(json_flag(&json("1")));
    assert!(json_flag(&json("\"1\"")));
    assert!(!json_flag(&json("2")));
    assert_eq!(task_id_string(&json("77")), "77");
    assert_eq!(task_id_string(&json("\"77\"")), "77");
    assert_eq!(task_id_string(&json("1.5")), "1.5");
    assert_eq!(task_id_string(&json("{\"a\":1}")), "{\"a\":1}");
    assert!(Json::parse("{").is_none());
}

#[test]
fn delays_take_the_jitter_they_are_given() {
    assert_eq!(poll_delay_with(1, 1000), 0);
    assert_eq!(poll_delay_with(2, -200), 800);
    assert_eq!(poll_delay_with(6, 400), 2400);
    assert_eq!(poll_delay_with(11, 0), 5000);
}

fn page() -> SharePageInfo {
    SharePageInfo {
        shareid: "9".to_string(),
        uk: "8".to_string(),
        share_uk: "7".to_string(),
        bdstoken: "t".to_string(),
        kind: ShareKind::Apaas,
        short_key: "key".to_string(),
    }
}

#[test]
fn requests_name_the_share() {
    let link = ShareLink {
        short_key: "key".to_string(),
        raw_url: "u".to_string(),
        password: None,
        kind: ShareKind::Apaas,
    };
    let r = access_request(&link, "250528");
    assert_eq!(
        r.url,
        "https://pan.baidu.com/apaas/share?surl=key&clienttype=0&web=1&channel=chunlei&app_id=250528"
    );
    assert_eq!(r.referer, "https://pan.baidu.com/disk/home");
    assert!(r.form.is_none());
    let r = verify_request(&page(), "1HYy", "250528");
    assert_eq!(
        r.url,
        "https://pan.baidu.com/apaas/api/share/getspwd?short_url=key&product=&clienttype=0&web=1&channel=chunlei&app_id=250528"
    );
    assert_eq!(r.referer, "https://pan.baidu.com/apaas/share?surl=key");
    let r = query_request(&page(), "55", "250528");
    assert_eq!(r.form.unwrap(), vec![("task_id", "55".to_string())]);
    let r = list_request(&page(), "/d", 2, 100, Some("spwd"), "250528");
    assert!(r.url.starts_with("https://pan.baidu.com/apaas/"));
    let r = transfer_request(&page(), &vec![3, 4], "/to", None, "250528");
    let form = r.form.unwrap();
    assert!(form.contains(&("fsid_list", "[\"3\",\"4\"]".to_string())));
    assert!(form.contains(&("to_path", "/to".to_string())));
}

#[test]
fn the_page_of_a_share_is_read() {
    let link = ShareLink {
        short_key: "key".to_string(),
        raw_url: "u".to_string(),
        password: None,
        kind: ShareKind::Apaas,
    };
    assert_eq!(
        page_info("<html>", &link).unwrap_err(),
        "企业版分享页面未找到 yunData，链接可能已失效或不是企业版分享"
    );
    assert_eq!(
        page_info("window.yunData = {x};", &link).unwrap_err(),
        "解析企业版分享页面 yunData 失败"
    );
}

#[test]
fn replies_that_are_no_json_are_refused() {
    assert_eq!(verify_reply("x").unwrap_err(), "解析企业版验证提取码响应失败");
    assert!(list_reply("x").is_err());
    assert_eq!(transfer_reply("x").unwrap_err(), "解析企业版转存响应失败");
    assert!(matches!(task_reply("x"), Err(e) if e == "解析企业版任务查询响应失败"));
}

#[test]
fn listings_of_a_share_are_read() {
    let body = r#"{"errno":0,"data":{"uk":12,"list":[{"fsid":"5","isdir":"1","path":"/p","size":"3","server_filename":"p"}]}}"#;
    let j = list_reply(body).unwrap();
    let files = dir_listing(&j);
    assert_eq!(files.len(), 1);
    assert_eq!(files[0].fs_id, 5);
    assert_eq!(files[0].size, 3);
    assert!(files[0].is_dir);
    let root = root_listing(&j, &page());
    assert_eq!(root.uk, "12");
    assert_eq!(root.shareid, "9");
    assert!(!root.is_empty());
    assert_eq!(root.len(), 1);
    assert!(dir_listing(&json("{}")).is_empty());
    assert!(list_reply(r#"{"errno":2}"#).is_err());
}

#[test]
fn refused_copies_say_why() {
    assert!(describe_transfer_errno(-32, "").contains("网盘空间不足"));
    match transfer_reply(r#"{"errno":-32,"show_msg":"full"}"#).unwrap() {
        TransferReply::Refused(t) => {
            assert!(!t.success);
            assert!(t.error.unwrap().contains("网盘空间不足"));
        }
        _ => panic!("the copy was refused"),
    }
    match transfer_reply(r#"{"errno":0,"data":{"task_id":"31"}}"#).unwrap() {
        TransferReply::Task(id) => assert_eq!(id, "31"),
        _ => panic!("a task was begun"),
    }
}

#[test]
fn ids_are_looked_up_directory_by_directory() {
    let paths = vec!["/d/a".to_string(), "/d/b".to_string(), "/d/c".to_string()];
    let mut look = FsIdLookup::begin(&paths);
    let (dir, page) = look.next().unwrap();
    assert_eq!(dir, "/d");
    assert_eq!(page, 1);
    look.listed(Some(vec![("/d/a".to_string(), 1), ("/d/c".to_string(), 3)]));
    assert!(look.next().is_none());
    assert_eq!(look.finish(&paths), vec![1, 0, 3]);
    let r = copied_result(paths, vec![], vec![1, 0, 3]);
    assert!(r.success && r.error.is_none());
    assert_eq!(r.transferred_fs_ids, vec![1, 0, 3]);
}

#[test]
fn a_copy_asks_about_its_task_until_it_ends() {
    let begun = json(r#"{"errno":0,"task_id":77}"#);
    let (copy, ask) = ApaasCopy::requested_from(&begun);
    assert!(matches!(ask, CopyAsk::Poll { after_ms: 0, task_id } if task_id == "77"));
    let running = r#"{"errno":0,"data":{"status":"running","desc":[]}}"#;
    let (copy, ask) = copy.polled(running);
    match ask {
        CopyAsk::Poll { after_ms, task_id } => {
            assert_eq!(task_id, "77");
            assert!((800..=1200).contains(&after_ms));
        }
        _ => panic!("the task goes on"),
    }
    let done =
        r#"{"errno":0,"data":{"status":"success","desc":{"list":[{"from":"/f/a","to":"/d/a"}]}}}"#;
    let (copy, ask) = copy.polled(done);
    assert!(matches!(ask, CopyAsk::List { dir, page: 1 } if dir == "/d"));
    let (copy, ask) = copy.listed(Some(vec![("/d/a".to_string(), 5)]));
    match ask {
        CopyAsk::Done(Ok(r)) => {
            assert!(r.success);
            assert_eq!(r.transferred_paths, vec!["/d/a"]);
            assert_eq!(r.from_paths, vec!["/f/a"]);
            assert_eq!(r.transferred_fs_ids, vec![5]);
        }
        _ => panic!("the copy is done"),
    }
    assert!(matches!(copy, ApaasCopy::Over));
}

#[test]
fn a_copy_ends_with_what_went_wrong() {
    let (_, ask) = ApaasCopy::requested("no json");
    assert!(matches!(ask, CopyAsk::Done(Err(e)) if e == "解析企业版转存响应失败"));
    let (_, ask) = ApaasCopy::requested(r#"{"errno":-30}"#);
    assert!(matches!(ask, CopyAsk::Done(Ok(r)) if !r.success && r.error.is_some()));
    let (copy, _) = ApaasCopy::requested(r#"{"errno":0,"data":{"task_id":"t"}}"#);
    let (_, ask) = copy.polled(r#"{"errno":0,"status":"failed"}"#);
    assert!(matches!(
        ask,
        CopyAsk::Done(Err(e)) if e == r#"企业版异步转存任务失败: status=failed, response={"errno":0,"status":"failed"}"#
    ));
    let (copy, _) = ApaasCopy::requested(r#"{"errno":0,"data":{"task_id":"t"}}"#);
    let (_, ask) = copy.polled("{");
    assert!(matches!(ask, CopyAsk::Done(Err(e)) if e == "解析企业版任务查询响应失败"));
    let (_, ask) = ApaasCopy::requested(r#"{"errno":0}"#);
    assert!(matches!(ask, CopyAsk::Done(Ok(r)) if r.success && r.transferred_paths.is_empty()));
}
