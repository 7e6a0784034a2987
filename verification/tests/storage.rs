use netdisk_sync::cloud_sync::error::{CloudSyncError, ErrorCategory};
use netdisk_sync::cloud_sync::signing::{amz_date_now, header, sha256_hex, sigv4_sign, SigV4Ctx};
use netdisk_sync::cloud_sync::storage::{
    build_storage, build_storage_with, bucket_tested, get_reply, http_status_err, list_query,
    list_reply, network_failure, plain_reply, size_from_header, url_encode, url_host,
    BaiduClientResolver, BaiduStorage, NetdiskAccount, ObjectListing, OssStorage, Precreated,
    RemoteItem, S3Storage, Storage, UploadStep,
};
use netdisk_sync::cloud_sync::types::{
    BaiduConfig, ConnectionConfig, OssConfig, S3Config, StorageKind,
};
use netdisk_sync::cloud_sync::xml::{extract_tag, page_from_text, parse_list_response};

fn s3(endpoint: Option<&str>, path_style: Option<bool>) -> S3Config {
    S3Config {
        name: "n".into(),
        region: "us-east-1".into(),
        bucket: "examplebucket".into(),
        access_key: "AKIDEXAMPLE".into(),
        secret_key: "wJalrXUtnFEMI/K7MDENG+bPxRfiCYEXAMPLEKEY".into(),
        endpoint: endpoint.map(|e| e.to_string()),
        path_style,
    }
}

#[test]
fn digests_are_those_of_the_standard() {
    assert_eq!(
        sha256_hex(b""),
        "e3b0c44298fc1c149afbf4c8996fb92427ae41e4649b934ca495991b7852b855"
    );
    assert_eq!(
        sha256_hex(b"abc"),
        "ba7816bf8f01cfea414140de5dae2223b00361a396177a9cb410ff61f20015ad"
    );
}

#[test]
fn a_known_request_gets_its_known_signature() {
    let ctx = SigV4Ctx {
        access_key: "AKIDEXAMPLE",
        secret_key: "wJalrXUtnFEMI/K7MDENG+bPxRfiCYEXAMPLEKEY",
        region: "us-east-1",
        service: "service",
    };
    let empty = "e3b0c44298fc1c149afbf4c8996fb92427ae41e4649b934ca495991b7852b855";
    let auth = sigv4_sign(
        &ctx,
        "GET",
        "example.amazonaws.com",
        "/",
        "",
        empty,
        "20150830T123600Z",
        &vec![],
    );
    assert_eq!(
        auth,
        "AWS4-HMAC-SHA256 Credential=AKIDEXAMPLE/20150830/us-east-1/service/aws4_request, SignedHeaders=host;x-amz-date, Signature=5fa00fa31553b73ebf1942676e86291e8372ff2a2260956d9b8aae1d763fbf31"
    );
    let more = sigv4_sign(
        &ctx,
        "GET",
        "example.amazonaws.com",
        "/",
        "",
        empty,
        "20150830T123600Z",
        &vec![header("Content-Type", "  text/plain ")],
    );
    assert!(more.contains("SignedHeaders=content-type;host;x-amz-date,"));
    let same = sigv4_sign(
        &ctx,
        "GET",
        "example.amazonaws.com",
        "/",
        "",
        empty,
        "20150830T123600Z",
        &vec![header("content-type", "text/plain")],
    );
    assert_eq!(more, same);
}

#[test]
fn a_request_is_signed_with_the_first_eight_bytes_of_its_time() {
    let ctx = SigV4Ctx {
        access_key: "key",
        secret_key: "secret",
        region: "r",
        service: "s",
    };
    let auth = sigv4_sign(&ctx, "GET", "h", "/", "", "", "201508\u{e9}T", &vec![]);
    assert!(auth.starts_with("AWS4-HMAC-SHA256 Credential=key/201508\u{e9}/r/s/aws4_request, "));
}

#[test]
fn the_time_of_a_request_has_its_form() {
    let now = amz_date_now();
    assert!(now.len() >= 16);
    assert!(now.ends_with('Z'));
    assert_eq!(now.as_bytes()[now.len() - 8], b'T');
    assert!(now[..8].chars().all(|c| c.is_ascii_digit()));
}

#[test]
fn hosts_are_read_from_addresses() {
    assert_eq!(url_host("https://a.b:9000/x"), "a.b");
    assert_eq!(url_host("http://a.b"), "a.b");
    assert_eq!(url_host("a.b/x:y"), "a.b");
    assert_eq!(url_host(""), "");
}

#[test]
fn texts_are_percent_encoded() {
    assert_eq!(url_encode("aZ0-_.~"), "aZ0-_.~");
    assert_eq!(url_encode("a b/é"), "a%20b%2F%C3%A9");
}

#[test]
fn buckets_have_a_host_and_an_address() {
    let plain = S3Storage::new(&s3(None, None)).unwrap();
    assert_eq!(plain.host(), "examplebucket.s3.us-east-1.amazonaws.com");
    assert_eq!(plain.endpoint_url(), "https://s3.us-east-1.amazonaws.com");
    assert_eq!(plain.kind(), StorageKind::S3);
    let styled = S3Storage::new(&s3(None, Some(true))).unwrap();
    assert_eq!(styled.host(), "s3.us-east-1.amazonaws.com");
    let own = S3Storage::new(&s3(Some("http://m:9000//"), Some(true))).unwrap();
    assert_eq!(own.host(), "m");
    assert_eq!(own.endpoint_url(), "http://m:9000");
    assert_eq!(own.url_of("//a/b"), "http://m:9000/a/b");
}

#[test]
fn queries_of_listings_are_in_order() {
    assert_eq!(list_query("", None, None), "list-type=2");
    assert_eq!(
        list_query("a/", Some(1000), Some("t=")),
        "continuation-token=t%3D&list-type=2&max-keys=1000&prefix=a%2F"
    );
}

#[test]
fn requests_are_signed_and_addressed() {
    let s = S3Storage::new(&s3(None, None)).unwrap();
    let date = "20150830T123600Z";
    let r = s.head_bucket(date);
    assert_eq!(r.method, "HEAD");
    assert_eq!(r.url, "https://s3.us-east-1.amazonaws.com/examplebucket");
    let names: Vec<&str> = r.headers.iter().map(|h| h.name.as_str()).collect();
    assert_eq!(names, vec!["x-amz-date", "x-amz-content-sha256", "authorization", "Host"]);
    assert_eq!(r.headers[0].value, date);
    assert_eq!(r.headers[1].value, "UNSIGNED-PAYLOAD");
    assert!(r.headers[2].value.starts_with("AWS4-HMAC-SHA256 Credential=AKIDEXAMPLE/20150830/"));
    assert_eq!(r.headers[3].value, "examplebucket.s3.us-east-1.amazonaws.com");
    let r = s.list_page("p", Some(5), None, date);
    assert_eq!(r.url, "https://s3.us-east-1.amazonaws.com/?list-type=2&max-keys=5&prefix=p");
    assert_eq!(s.get_object("/k", date).method, "GET");
    assert_eq!(s.head_object("/k", date).method, "HEAD");
    assert_eq!(s.delete_object("/k", date).method, "DELETE");
    let put = s.put_object("/k", b"abc", Some("text/plain"), date);
    assert_eq!(put.url, "https://s3.us-east-1.amazonaws.com/k");
    assert_eq!(put.headers[1].value, sha256_hex(b"abc"));
    assert_eq!(put.headers[4].name, "content-type");
    assert!(put.headers[2]
        .value
        .contains("SignedHeaders=content-type;host;x-amz-content-sha256;x-amz-date,"));
    assert_eq!(s.put_object("/k", b"abc", None, date).headers.len(), 4);
}

#[test]
fn statuses_become_errors() {
    let e = http_status_err(404, "PUT", b"no");
    assert_eq!(e.category(), ErrorCategory::NotFound);
    assert_eq!(e.to_string(), "资源不存在: PUT HTTP 404 Not Found: no");
    assert_eq!(http_status_err(401, "X", b"").category(), ErrorCategory::Auth);
    assert_eq!(http_status_err(403, "X", b"").category(), ErrorCategory::Auth);
    assert_eq!(http_status_err(429, "X", b"").category(), ErrorCategory::RateLimited);
    assert_eq!(http_status_err(500, "X", b"\xff").category(), ErrorCategory::Internal);
    assert!(http_status_err(500, "X", b"\xff").to_string().ends_with('\u{fffd}'));
    assert!(plain_reply(204, "DELETE", b"").is_ok());
    assert!(plain_reply(301, "DELETE", b"").is_err());
    assert!(get_reply(200, "k", b"").is_ok());
    assert_eq!(get_reply(404, "k", b"").unwrap_err().to_string(), "资源不存在: 对象不存在: k");
    assert!(list_reply(500, b"").is_err());
    assert_eq!(network_failure("GET", "e").to_string(), "网络错误: GET 失败: e");
    assert_eq!(size_from_header(Some("12")), 12);
    assert_eq!(size_from_header(Some("x")), 0);
    assert_eq!(size_from_header(None), 0);
}

const LISTING: &str = "<R><IsTruncated>true</IsTruncated><NextContinuationToken>tok</NextContinuationToken>\
<Contents><Key>a</Key><Size>3</Size><LastModified>2020-01-02T03:04:05Z</LastModified><ETag>e</ETag></Contents>\
<Contents><Key>b</Key></Contents><CommonPrefixes><Prefix>p/</Prefix></CommonPrefixes>\
<CommonPrefixes></CommonPrefixes><Contents><Key>c</Key>";

#[test]
fn listings_are_read() {
    let page = parse_list_response(LISTING.as_bytes());
    assert!(page.truncated);
    assert_eq!(page.next_token.as_deref(), Some("tok"));
    assert_eq!(page.objects.len(), 2);
    assert_eq!(page.objects[0].key, "a");
    assert_eq!(page.objects[0].size, 3);
    assert_eq!(page.objects[0].last_modified.unwrap().secs, 1577934245);
    assert_eq!(page.objects[0].etag.as_deref(), Some("e"));
    assert_eq!(page.objects[1].size, 0);
    assert!(page.objects[1].last_modified.is_none());
    assert_eq!(page.prefixes, vec!["p/"]);
    assert_eq!(extract_tag("<a><b>x</b></a>", "b").as_deref(), Some("x"));
    assert!(extract_tag("<b>x", "b").is_none());
    let tested = bucket_tested(9, &page);
    assert!(tested.ok);
    assert_eq!(tested.sample_objects, vec!["a", "b"]);
}

#[test]
fn pages_are_gathered() {
    let mut l = ObjectListing::begin();
    assert_eq!(l.add_page(page_from_text(LISTING)).as_deref(), Some("tok"));
    let last = "<Contents><Key>z</Key></Contents>";
    assert!(l.add_page(page_from_text(last)).is_none());
    assert!(l.add_page(page_from_text("<IsTruncated>true</IsTruncated>")).is_none());
    let all = l.finish();
    let keys: Vec<&str> = all.objects.iter().map(|o| o.key.as_str()).collect();
    assert_eq!(keys, vec!["a", "b", "z"]);
    assert!(!all.truncated);
}

fn oss(endpoint: Option<&str>) -> OssConfig {
    OssConfig {
        name: "o".into(),
        region: "cn-x".into(),
        bucket: "b".into(),
        access_key: "ak".into(),
        secret_key: "sk".into(),
        endpoint: endpoint.map(|e| e.to_string()),
        internal_endpoint: None,
        path_style: Some(true),
    }
}

#[test]
fn oss_has_a_public_endpoint() {
    let s = OssStorage::new(&oss(None)).unwrap();
    assert_eq!(s.inner.endpoint_url(), "https://oss-cn-x.aliyuncs.com");
    assert_eq!(s.kind(), StorageKind::Oss);
    assert_eq!(OssStorage::new(&oss(Some("https://e/"))).unwrap().inner.host(), "e");
}

fn item(name: &str, is_dir: bool) -> RemoteItem {
    RemoteItem {
        path: format!("/d/{name}"),
        server_filename: name.into(),
        is_dir,
        size: 5,
        server_mtime: 100,
        md5: Some("m".into()),
    }
}

#[test]
fn the_network_disk_is_listed_and_measured() {
    let l = BaiduStorage::listing(Ok(vec![item("x", true), item("y", false)])).unwrap();
    assert_eq!(l.prefixes, vec!["/d/x"]);
    assert_eq!(l.objects[0].key, "/d/y");
    assert_eq!(l.objects[0].last_modified.unwrap().secs, 100);
    assert_eq!(BaiduStorage::listing(Err("e".into())).unwrap_err().to_string(), "内部错误: 百度列目录失败: e");
    assert_eq!(BaiduStorage::head_size("/d/y", Ok(vec![item("x", true), item("y", false)])).unwrap(), 5);
    assert_eq!(
        BaiduStorage::head_size("/d/z", Ok(vec![item("y", false)])).unwrap_err().to_string(),
        "资源不存在: 百度未找到: /d/z"
    );
    assert_eq!(BaiduStorage::normalize_dir("/d/y"), "/d");
    assert_eq!(BaiduStorage::normalize_dir("/d"), "/");
    assert_eq!(BaiduStorage::normalize_dir("d"), "/");
    assert_eq!(BaiduStorage::listed_dir(""), "/");
    assert_eq!(BaiduStorage::listed_dir("/d"), "/d");
}

#[test]
fn uploads_to_the_network_disk_are_limited() {
    let plan = BaiduStorage::plan_upload(b"abc").unwrap();
    assert_eq!(plan.size, 3);
    assert_eq!(plan.block_list, "[\"900150983cd24fb0d6963f7d28e17f72\"]");
    assert!(BaiduStorage::plan_upload(&vec![0u8; 4 * 1024 * 1024]).is_ok());
    assert_eq!(
        BaiduStorage::plan_upload(&vec![0u8; 4 * 1024 * 1024 + 1]).unwrap_err().to_string(),
        "配置错误: 百度单次上传 ≤ 4MB；文件 4194305 超出限制"
    );
    let pre = |rapid_upload| Ok(Precreated { rapid_upload, upload_id: "u".into() });
    assert!(matches!(BaiduStorage::precreated(pre(true)), Ok(UploadStep::Done)));
    assert!(matches!(BaiduStorage::precreated(pre(false)), Ok(UploadStep::Send { upload_id }) if upload_id == "u"));
    assert!(BaiduStorage::precreated(Err("e".into())).is_err());
    assert!(BaiduStorage::chunk_sent(Ok(())).is_ok());
    assert!(BaiduStorage::file_created(Err("e".into())).is_err());
    assert!(BaiduStorage::deleted(Err("e".into())).is_err());
    assert!(BaiduStorage::upload_stream().is_err());
    assert_eq!(
        BaiduStorage::download_reply(503).unwrap_err().to_string(),
        "内部错误: 百度下载 HTTP 503 Service Unavailable"
    );
}

struct Accounts(Vec<u64>);

impl BaiduClientResolver for Accounts {
    fn resolve(&self, owner_uid: u64) -> Option<NetdiskAccount> {
        if self.0.contains(&owner_uid) {
            Some(NetdiskAccount { uid: owner_uid })
        } else {
            None
        }
    }
}

#[test]
fn connections_get_their_storage() {
    let disk = |owner_uid| ConnectionConfig::Baidu(BaiduConfig { name: "d".into(), owner_uid });
    let accounts = Accounts(vec![3]);
    let s = build_storage(&disk(3), &accounts).unwrap();
    assert_eq!(s.kind(), StorageKind::Baidu);
    let e: CloudSyncError = build_storage(&disk(4), &accounts).unwrap_err();
    assert_eq!(e.to_string(), "鉴权失败: 百度账号 4 未登录或不存在");
    assert_eq!(
        build_storage(&ConnectionConfig::S3(s3(None, None)), &accounts).unwrap().kind(),
        StorageKind::S3
    );
    assert_eq!(
        build_storage_with(&ConnectionConfig::Oss(oss(None)), None).unwrap().kind(),
        StorageKind::Oss
    );
    let tested = BaiduStorage::new(NetdiskAccount { uid: 3 }).tested(true, 7).unwrap();
    assert_eq!(tested.sample_objects, vec!["baidu-user: 3"]);
    assert_eq!(
        BaiduStorage::new(NetdiskAccount { uid: 3 }).tested(false, 7).unwrap_err().to_string(),
        "鉴权失败: 百度账号 3 的 BDUSS 已失效"
    );
}
