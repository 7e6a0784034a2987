//! Storage services: S3, OSS and the network disk.
use vstd::prelude::*;

use crate::cloud_sync::error::{CloudErrorView, CloudSyncError};
use crate::cloud_sync::signing;
use crate::cloud_sync::signing::{header, sha256_hex, sigv4_sign, Header, SigV4Ctx, SignedParts};
use crate::cloud_sync::types;
use crate::cloud_sync::types::{
    ConnectionConfig, ListObjectsResult, ObjectInfo, ObjectView, OssConfig, S3Config, StorageKind,
    TestConnectionResult,
};
use crate::cloud_sync::xml;
use crate::cloud_sync::xml::{from_utf8_lossy, parse_list_response, ListPage};
use crate::ids;
use crate::ids::from_seconds;
use crate::numbers;
use crate::numbers::{decimal, parse_u64};
use crate::share_sync::target_paths;
use crate::share_sync::target_paths::local_file_name;
use crate::text;
use crate::text::{
    chars_of, concat2, concat3, copy_opt, find_char, run_end, run_start, same, starts_with,
    string_between,
};

verus! {

/// A storage service.
pub trait Storage {
    /// The kind of service.
    spec fn service(&self) -> StorageKind;

    /// The kind of service.
    fn kind(&self) -> (r: StorageKind)
        ensures
            r == self.service(),
    ;
}

// ---------------------------------------------------------------------------
// Addresses
// ---------------------------------------------------------------------------
/// What comes before the first `ch`.
pub open spec fn up_to(s: Seq<char>, ch: char) -> Seq<char> {
    match text::first_at(s, ch, 0) {
        Some(i) => s.take(i),
        None => s,
    }
}

/// The address without the scheme.
pub open spec fn without_scheme(url: Seq<char>) -> Seq<char> {
    if "https://"@.is_prefix_of(url) {
        url.skip("https://"@.len() as int)
    } else if "http://"@.is_prefix_of(url) {
        url.skip("http://"@.len() as int)
    } else {
        url
    }
}

/// The host that an address names.
pub open spec fn host_of(url: Seq<char>) -> Seq<char> {
    up_to(up_to(without_scheme(url), '/'), ':')
}

fn take_up_to(s: &str, ch: char) -> (r: String)
    ensures
        r@ == up_to(s@, ch),
{
    let cs = chars_of(s);
    match find_char(&cs, ch, 0) {
        Some(i) => {
            let r = string_between(&cs, 0, i);
            assert(r@ =~= s@.take(i as int));
            r
        },
        None => s.to_owned(),
    }
}

fn skip_chars(s: &str, n: usize) -> (r: String)
    requires
        n <= s@.len(),
    ensures
        r@ == s@.skip(n as int),
{
    let cs = chars_of(s);
    let r = string_between(&cs, n, cs.len());
    assert(r@ =~= s@.skip(n as int));
    r
}

/// The host that an address names.
pub fn url_host(url: &str) -> (r: String)
    ensures
        r@ == host_of(url@),
{
    proof {
        reveal_strlit("https://");
        reveal_strlit("http://");
    }
    let rest = if starts_with(url, "https://") {
        skip_chars(url, 8)
    } else if starts_with(url, "http://") {
        skip_chars(url, 7)
    } else {
        url.to_owned()
    };
    let host_port = take_up_to(rest.as_str(), '/');
    take_up_to(host_port.as_str(), ':')
}

// ---------------------------------------------------------------------------
// Percent encoding
// ---------------------------------------------------------------------------
/// The byte stands for itself in an address.
pub open spec fn is_unreserved(b: u8) -> bool {
    ||| 'A' as u8 <= b <= 'Z' as u8
    ||| 'a' as u8 <= b <= 'z' as u8
    ||| '0' as u8 <= b <= '9' as u8
    ||| b == '-' as u8
    ||| b == '_' as u8
    ||| b == '.' as u8
    ||| b == '~' as u8
}

/// The digit of a number below 16, in upper case.
pub open spec fn upper_digit(n: u8) -> char {
    if n < 10 {
        ('0' as u8 + n) as char
    } else {
        ('A' as u8 + (n - 10)) as char
    }
}

/// The number that a digit stands for.
pub open spec fn digit_number(c: char) -> int {
    if '0' <= c && c <= '9' {
        c as int - '0' as int
    } else {
        c as int - 'A' as int + 10
    }
}

/// One byte of an address.
pub open spec fn encoded_byte(b: u8) -> Seq<char> {
    if is_unreserved(b) {
        seq![b as char]
    } else {
        seq!['%', upper_digit((b / 16) as u8), upper_digit((b % 16) as u8)]
    }
}

/// Bytes in the form that an address can hold.
pub open spec fn percent_encoded(data: Seq<u8>) -> Seq<char>
    decreases data.len(),
{
    if data.len() == 0 {
        seq![]
    } else {
        encoded_byte(data[0]) + percent_encoded(data.skip(1))
    }
}

/// The bytes that a text in that form stands for.
pub open spec fn percent_decoded(s: Seq<char>) -> Seq<u8>
    decreases s.len(),
{
    if s.len() == 0 {
        seq![]
    } else if s[0] == '%' && s.len() >= 3 {
        seq![(16 * digit_number(s[1]) + digit_number(s[2])) as u8] + percent_decoded(s.skip(3))
    } else {
        seq![s[0] as u8] + percent_decoded(s.skip(1))
    }
}

/// Percent encoding loses nothing: the bytes can be read back from the text.
pub proof fn law_encoding_reads_back(data: Seq<u8>)
    ensures
        percent_decoded(percent_encoded(data)) == data,
    decreases data.len(),
{
    if data.len() > 0 {
        let b = data[0];
        let rest = percent_encoded(data.skip(1));
        law_encoding_reads_back(data.skip(1));
        let s = encoded_byte(b) + rest;
        assert(s.skip(encoded_byte(b).len() as int) =~= rest);
        if is_unreserved(b) {
            assert(s[0] == b as char);
            assert(s[0] as u8 == b);
        } else {
            assert(digit_number(s[1]) == b / 16);
            assert(digit_number(s[2]) == b % 16);
        }
        assert(seq![b] + data.skip(1) =~= data);
    } else {
        assert(data =~= seq![]);
    }
}

proof fn lemma_encoded_push(data: Seq<u8>, b: u8)
    ensures
        percent_encoded(data.push(b)) == percent_encoded(data) + encoded_byte(b),
    decreases data.len(),
{
    if data.len() == 0 {
        assert(data.push(b).skip(1) =~= Seq::<u8>::empty());
        assert(percent_encoded(Seq::<u8>::empty()) =~= Seq::<char>::empty());
        assert(data =~= Seq::<u8>::empty());
        assert(percent_encoded(data.push(b)) =~= percent_encoded(data) + encoded_byte(b));
    } else {
        lemma_encoded_push(data.skip(1), b);
        assert(data.push(b).skip(1) =~= data.skip(1).push(b));
        assert(percent_encoded(data.push(b)) =~= percent_encoded(data) + encoded_byte(b));
    }
}

fn upper(n: u8) -> (r: char)
    requires
        n < 16,
    ensures
        r == upper_digit(n),
{
    if n < 10 {
        (48u8 + n) as char
    } else {
        (65u8 + (n - 10)) as char
    }
}

/// The text in the form that an address can hold.
pub fn url_encode(s: &str) -> (r: String)
    ensures
        r@ == percent_encoded(vstd::utf8::encode_utf8(s@)),
{
    let data = s.as_bytes();
    let mut out = String::new();
    let mut i: usize = 0;
    assert(data@.take(0) =~= Seq::<u8>::empty());
    assert(out@ =~= percent_encoded(data@.take(0)));
    while i < data.len()
        invariant
            i <= data@.len(),
            out@ == percent_encoded(data@.take(i as int)),
        decreases data@.len() - i,
    {
        let b: u8 = data[i];
        let ghost before = out@;
        if (65 <= b && b <= 90) || (97 <= b && b <= 122) || (48 <= b && b <= 57) || b == 45 || b
            == 95 || b == 46 || b == 126 {
            out.push(b as char);
            assert(out@ =~= before + encoded_byte(b));
        } else {
            out.push('%');
            out.push(upper(b / 16));
            out.push(upper(b % 16));
            assert(out@ =~= before + encoded_byte(b));
        }
        proof {
            lemma_encoded_push(data@.take(i as int), b);
            assert(data@.take(i as int).push(b) =~= data@.take(i + 1));
        }
        i += 1;
    }
    assert(data@.take(i as int) =~= data@);
    out
}

// ---------------------------------------------------------------------------
// Answers
// ---------------------------------------------------------------------------
/// How an HTTP status is shown.
pub uninterp spec fn status_line(status: u16) -> Seq<char>;

/// `reqwest::StatusCode::from_u16`, which takes every number of three digits, and the display
/// form of the status: its number and its reason.
#[verifier::external_body]
fn show_status(status: u16) -> (r: String)
    requires
        100 <= status < 1000,
    ensures
        r@ == status_line(status),
{
    reqwest::StatusCode::from_u16(status).map(|s| s.to_string()).unwrap_or_default()
}

/// The status says that the request was served.
pub open spec fn is_success(status: u16) -> bool {
    200 <= status < 300
}

/// The error for a request that was answered with a status.
pub open spec fn status_error(status: u16, message: Seq<char>) -> CloudErrorView {
    if status == 404 {
        CloudErrorView::NotFound(message)
    } else if status == 401 || status == 403 {
        CloudErrorView::Auth(message)
    } else if status == 429 {
        CloudErrorView::RateLimited(message)
    } else {
        CloudErrorView::Internal(message)
    }
}

/// What is said of a request that was answered with a status.
pub open spec fn status_message(op: Seq<char>, shown: Seq<char>, body: Seq<char>) -> Seq<char> {
    op + " HTTP "@ + shown + ": "@ + body
}

/// The error for a request that was answered with a status, shown as `shown`.
pub fn status_err_shown(status: u16, shown: &str, op: &str, body: &str) -> (r: CloudSyncError)
    ensures
        r@ == status_error(status, status_message(op@, shown@, body@)),
{
    let mut msg = op.to_owned();
    msg.append(" HTTP ");
    msg.append(shown);
    msg.append(": ");
    msg.append(body);
    if status == 404 {
        CloudSyncError::NotFound(msg)
    } else if status == 401 || status == 403 {
        CloudSyncError::Auth(msg)
    } else if status == 429 {
        CloudSyncError::RateLimited(msg)
    } else {
        CloudSyncError::Internal(msg)
    }
}

/// The error for a request that was answered with a status.
pub open spec fn answered_with(status: u16, op: Seq<char>, body: Seq<u8>) -> CloudErrorView {
    status_error(status, status_message(op, status_line(status), xml::lossy_text(body)))
}

/// The error for a request that was answered with a status.
pub fn http_status_err(status: u16, op: &str, body: &[u8]) -> (r: CloudSyncError)
    requires
        100 <= status < 1000,
    ensures
        r@ == answered_with(status, op@, body@),
{
    let shown = show_status(status);
    let said = from_utf8_lossy(body);
    status_err_shown(status, shown.as_str(), op, said.as_str())
}

/// The error for a request that was not answered.
pub fn network_failure(op: &str, message: &str) -> (r: CloudSyncError)
    ensures
        r@ == CloudErrorView::Network(op@ + " 失败: "@ + message@),
{
    CloudSyncError::Network(concat3(op, " 失败: ", message))
}

/// What a request has to say that has nothing to say but whether it was served.
pub fn plain_reply(status: u16, op: &str, body: &[u8]) -> (r: Result<(), CloudSyncError>)
    requires
        100 <= status < 1000,
    ensures
        match r {
            Ok(_) => is_success(status),
            Err(e) => !is_success(status) && e@ == answered_with(status, op@, body@),
        },
{
    if 200 <= status && status < 300 {
        Ok(())
    } else {
        Err(http_status_err(status, op, body))
    }
}

/// The error for an object that was asked for and not served.
pub open spec fn get_error(status: u16, key: Seq<char>, body: Seq<u8>) -> CloudErrorView {
    if status == 404 {
        CloudErrorView::NotFound("对象不存在: "@ + key)
    } else {
        answered_with(status, "GET"@, body)
    }
}

/// Whether an object that was asked for is served.
pub fn get_reply(status: u16, key: &str, body: &[u8]) -> (r: Result<(), CloudSyncError>)
    requires
        100 <= status < 1000,
    ensures
        match r {
            Ok(_) => is_success(status),
            Err(e) => !is_success(status) && e@ == get_error(status, key@, body@),
        },
{
    if status == 404 {
        Err(CloudSyncError::NotFound(concat2("对象不存在: ", key)))
    } else {
        plain_reply(status, "GET", body)
    }
}

/// The page of a listing that was asked for.
pub fn list_reply(status: u16, body: &[u8]) -> (r: Result<ListPage, CloudSyncError>)
    requires
        100 <= status < 1000,
    ensures
        match r {
            Ok(page) => is_success(status) && xml::page_says(page, xml::lossy_text(body@)),
            Err(e) => !is_success(status) && e@ == answered_with(status, "LIST"@, body@),
        },
{
    if 200 <= status && status < 300 {
        Ok(parse_list_response(body))
    } else {
        Err(http_status_err(status, "LIST", body))
    }
}

/// The size of an object, from the length that the answer names.
pub fn size_from_header(content_length: Option<&str>) -> (r: u64)
    ensures
        r == match content_length {
            Some(v) => xml::size_of_text(Some(v@)),
            None => 0,
        },
{
    match content_length {
        Some(v) => match parse_u64(v) {
            Some(n) => n,
            None => 0,
        },
        None => 0,
    }
}

// ---------------------------------------------------------------------------
// S3
// ---------------------------------------------------------------------------
/// A bucket of S3, or of a service that speaks as S3 does.
#[derive(Debug)]
pub struct S3Storage {
    pub cfg: S3Config,
}

/// A request that is ready to be sent.
#[derive(Debug)]
pub struct SignedRequest {
    pub method: String,
    pub url: String,
    pub headers: Vec<Header>,
}

/// The host that requests for the bucket go to.
pub open spec fn bucket_host(cfg: S3Config) -> Seq<char> {
    match cfg.endpoint {
        Some(ep) => host_of(ep@),
        None => if cfg.path_style == Some(true) {
            "s3."@ + cfg.region@ + ".amazonaws.com"@
        } else {
            cfg.bucket@ + ".s3."@ + cfg.region@ + ".amazonaws.com"@
        },
    }
}

/// The address that the service is reached at.
pub open spec fn service_url(cfg: S3Config) -> Seq<char> {
    match cfg.endpoint {
        Some(ep) => text::strip_end(ep@, '/'),
        None => "https://s3."@ + cfg.region@ + ".amazonaws.com"@,
    }
}

/// The address of an object.
pub open spec fn object_url(cfg: S3Config, key: Seq<char>) -> Seq<char> {
    service_url(cfg) + "/"@ + text::strip_start(key, '/')
}

/// Who signs requests for the bucket.
pub open spec fn signs_for(ctx: SigV4Ctx, cfg: S3Config) -> bool {
    ctx.access_key@ == cfg.access_key@ && ctx.secret_key@ == cfg.secret_key@ && ctx.region@
        == cfg.region@ && ctx.service@ == "s3"@
}

/// What is signed of a request for the bucket.
pub open spec fn bucket_parts(
    cfg: S3Config,
    method: Seq<char>,
    query: Seq<char>,
    payload_hash: Seq<char>,
    amz_date: Seq<char>,
    extra: Seq<(Seq<char>, Seq<char>)>,
) -> SignedParts {
    SignedParts {
        method,
        host: bucket_host(cfg),
        uri: "/"@,
        query,
        payload_hash,
        amz_date,
        extra,
    }
}

/// `auth` authorizes the request.
pub open spec fn authorizes(auth: Seq<char>, cfg: S3Config, parts: SignedParts) -> bool {
    exists|ctx: SigV4Ctx| #[trigger]
        signs_for(ctx, cfg) && signing::is_authorization(auth, ctx, parts)
}

/// The request is the one with these parts, signed; `last` are the headers that are not.
pub open spec fn is_request(
    r: SignedRequest,
    cfg: S3Config,
    url: Seq<char>,
    parts: SignedParts,
    last: Seq<(Seq<char>, Seq<char>)>,
) -> bool {
    &&& r.method@ == parts.method
    &&& r.url@ == url
    &&& r.headers@.len() == 4 + last.len()
    &&& authorizes(r.headers@[2].value@, cfg, parts)
    &&& signing::header_pairs(r.headers@) == seq![
        ("x-amz-date"@, parts.amz_date),
        ("x-amz-content-sha256"@, parts.payload_hash),
        ("authorization"@, r.headers@[2].value@),
        ("Host"@, parts.host),
    ] + last
}

/// The request carries no signed payload.
pub open spec fn is_unsigned_request(
    r: SignedRequest,
    cfg: S3Config,
    method: Seq<char>,
    url: Seq<char>,
    query: Seq<char>,
    amz_date: Seq<char>,
) -> bool {
    is_request(
        r,
        cfg,
        url,
        bucket_parts(cfg, method, query, "UNSIGNED-PAYLOAD"@, amz_date, seq![]),
        seq![],
    )
}

/// The query of a listing: the continuation token, the kind of listing, the number of keys and
/// the prefix, as far as they are given.
pub open spec fn list_query_of(
    prefix: Seq<char>,
    max_keys: Option<u32>,
    continuation: Option<Seq<char>>,
) -> Seq<char> {
    let encode = |s: Seq<char>| percent_encoded(vstd::utf8::encode_utf8(s));
    (match continuation {
        Some(c) => "continuation-token="@ + encode(c) + "&"@,
        None => seq![],
    }) + "list-type=2"@ + (match max_keys {
        Some(n) => "&max-keys="@ + numbers::decimal_of(n as nat),
        None => seq![],
    }) + (if prefix.len() == 0 {
        seq![]
    } else {
        "&prefix="@ + encode(prefix)
    })
}

/// The query of a listing.
pub fn list_query(prefix: &str, max_keys: Option<u32>, continuation: Option<&str>) -> (r: String)
    ensures
        r@ == list_query_of(
            prefix@,
            max_keys,
            match continuation {
                Some(c) => Some(c@),
                None => None,
            },
        ),
{
    let mut r = String::new();
    assert(r@ =~= Seq::<char>::empty());
    match continuation {
        Some(c) => {
            let token = url_encode(c);
            r = concat3("continuation-token=", token.as_str(), "&");
        },
        None => {},
    }
    r.append("list-type=2");
    match max_keys {
        Some(n) => {
            let shown = decimal(n as u64);
            let part = concat2("&max-keys=", shown.as_str());
            r.append(part.as_str());
        },
        None => {
            assert(r@ + Seq::<char>::empty() =~= r@);
        },
    }
    if prefix.is_empty() {
        assert(r@ + Seq::<char>::empty() =~= r@);
    } else {
        let shown = url_encode(prefix);
        let part = concat2("&prefix=", shown.as_str());
        r.append(part.as_str());
    }
    r
}

impl S3Storage {
    /// The storage of a bucket.
    pub fn new(cfg: &S3Config) -> (r: Result<Self, CloudSyncError>)
        ensures
            r matches Ok(s) && s.cfg == *cfg,
    {
        Ok(S3Storage { cfg: cfg.clone() })
    }

    /// The host that requests for the bucket go to.
    pub fn host(&self) -> (r: String)
        ensures
            r@ == bucket_host(self.cfg),
    {
        match &self.cfg.endpoint {
            Some(ep) => url_host(ep.as_str()),
            None => {
                let path_style = match self.cfg.path_style {
                    Some(p) => p,
                    None => false,
                };
                let mut r = if path_style {
                    "s3.".to_owned()
                } else {
                    concat2(self.cfg.bucket.as_str(), ".s3.")
                };
                r.append(self.cfg.region.as_str());
                r.append(".amazonaws.com");
                r
            },
        }
    }

    /// The address that the service is reached at.
    pub fn endpoint_url(&self) -> (r: String)
        ensures
            r@ == service_url(self.cfg),
    {
        match &self.cfg.endpoint {
            Some(ep) => {
                let cs = chars_of(ep.as_str());
                let end: usize = run_end(&cs, '/');
                let r = string_between(&cs, 0, end);
                assert(r@ =~= cs@.take(end as int));
                r
            },
            None => concat3("https://s3.", self.cfg.region.as_str(), ".amazonaws.com"),
        }
    }

    /// The address of an object.
    pub fn url_of(&self, key: &str) -> (r: String)
        ensures
            r@ == object_url(self.cfg, key@),
    {
        let base = self.endpoint_url();
        let cs = chars_of(key);
        let start: usize = run_start(&cs, '/');
        let name = string_between(&cs, start, cs.len());
        assert(name@ =~= cs@.skip(start as int));
        concat3(base.as_str(), "/", name.as_str())
    }

    fn signed(
        &self,
        method: &str,
        url: String,
        query: &str,
        payload_hash: &str,
        amz_date: &str,
        extra: &Vec<Header>,
    ) -> (r: SignedRequest)
        requires
            signing::starts_with_date(amz_date@),
        ensures
            is_request(
                r,
                self.cfg,
                url@,
                bucket_parts(
                    self.cfg,
                    method@,
                    query@,
                    payload_hash@,
                    amz_date@,
                    signing::header_pairs(extra@),
                ),
                seq![],
            ),
    {
        let host = self.host();
        let ctx = SigV4Ctx {
            access_key: self.cfg.access_key.as_str(),
            secret_key: self.cfg.secret_key.as_str(),
            region: self.cfg.region.as_str(),
            service: "s3",
        };
        let auth = sigv4_sign(
            &ctx,
            method,
            host.as_str(),
            "/",
            query,
            payload_hash,
            amz_date,
            extra,
        );
        assert(signs_for(ctx, self.cfg));
        let mut headers: Vec<Header> = Vec::new();
        headers.push(header("x-amz-date", amz_date));
        headers.push(header("x-amz-content-sha256", payload_hash));
        headers.push(header("authorization", auth.as_str()));
        headers.push(header("Host", host.as_str()));
        assert(signing::header_pairs(headers@) =~= seq![
            ("x-amz-date"@, amz_date@),
            ("x-amz-content-sha256"@, payload_hash@),
            ("authorization"@, auth@),
            ("Host"@, host@),
        ] + seq![]);
        SignedRequest { method: method.to_owned(), url, headers }
    }

    fn unsigned(&self, method: &str, url: String, query: &str, amz_date: &str) -> (r: SignedRequest)
        requires
            signing::starts_with_date(amz_date@),
        ensures
            is_unsigned_request(r, self.cfg, method@, url@, query@, amz_date@),
    {
        let none: Vec<Header> = Vec::new();
        assert(signing::header_pairs(none@) =~= seq![]);
        self.signed(method, url, query, "UNSIGNED-PAYLOAD", amz_date, &none)
    }

    /// The request that asks whether the bucket is there.
    pub fn head_bucket(&self, amz_date: &str) -> (r: SignedRequest)
        requires
            signing::starts_with_date(amz_date@),
        ensures
            is_unsigned_request(
                r,
                self.cfg,
                "HEAD"@,
                service_url(self.cfg) + "/"@ + self.cfg.bucket@,
                ""@,
                amz_date@,
            ),
    {
        let base = self.endpoint_url();
        let url = concat3(base.as_str(), "/", self.cfg.bucket.as_str());
        self.unsigned("HEAD", url, "", amz_date)
    }

    /// The request for one page of a listing.
    pub fn list_page(
        &self,
        prefix: &str,
        max_keys: Option<u32>,
        continuation: Option<&str>,
        amz_date: &str,
    ) -> (r: SignedRequest)
        requires
            signing::starts_with_date(amz_date@),
        ensures
            ({
                let query = list_query_of(
                    prefix@,
                    max_keys,
                    match continuation {
                        Some(c) => Some(c@),
                        None => None,
                    },
                );
                is_unsigned_request(
                    r,
                    self.cfg,
                    "GET"@,
                    service_url(self.cfg) + "/?"@ + query,
                    query,
                    amz_date@,
                )
            }),
    {
        let query = list_query(prefix, max_keys, continuation);
        let base = self.endpoint_url();
        let url = concat3(base.as_str(), "/?", query.as_str());
        self.unsigned("GET", url, query.as_str(), amz_date)
    }

    /// The request that asks for the size of an object.
    pub fn head_object(&self, key: &str, amz_date: &str) -> (r: SignedRequest)
        requires
            signing::starts_with_date(amz_date@),
        ensures
            is_unsigned_request(
                r,
                self.cfg,
                "HEAD"@,
                object_url(self.cfg, key@),
                ""@,
                amz_date@,
            ),
    {
        let url = self.url_of(key);
        self.unsigned("HEAD", url, "", amz_date)
    }

    /// The request that asks for an object.
    pub fn get_object(&self, key: &str, amz_date: &str) -> (r: SignedRequest)
        requires
            signing::starts_with_date(amz_date@),
        ensures
            is_unsigned_request(
                r,
                self.cfg,
                "GET"@,
                object_url(self.cfg, key@),
                ""@,
                amz_date@,
            ),
    {
        let url = self.url_of(key);
        self.unsigned("GET", url, "", amz_date)
    }

    /// The request that deletes an object.
    pub fn delete_object(&self, key: &str, amz_date: &str) -> (r: SignedRequest)
        requires
            signing::starts_with_date(amz_date@),
        ensures
            is_unsigned_request(
                r,
                self.cfg,
                "DELETE"@,
                object_url(self.cfg, key@),
                ""@,
                amz_date@,
            ),
    {
        let url = self.url_of(key);
        self.unsigned("DELETE", url, "", amz_date)
    }

    /// The request that stores an object.
    pub fn put_object(
        &self,
        key: &str,
        body: &[u8],
        content_type: Option<&str>,
        amz_date: &str,
    ) -> (r: SignedRequest)
        requires
            signing::starts_with_date(amz_date@),
        ensures
            ({
                let hash = signing::hex_of(signing::sha256_of(body@));
                let typed = match content_type {
                    Some(ct) => seq![("content-type"@, ct@)],
                    None => seq![],
                };
                is_request(
                    r,
                    self.cfg,
                    object_url(self.cfg, key@),
                    bucket_parts(
                        self.cfg,
                        "PUT"@,
                        ""@,
                        hash,
                        amz_date@,
                        seq![("x-amz-content-sha256"@, hash)] + typed,
                    ),
                    typed,
                )
            }),
    {
        let url = self.url_of(key);
        let hash = sha256_hex(body);
        let mut extra: Vec<Header> = Vec::new();
        extra.push(header("x-amz-content-sha256", hash.as_str()));
        match content_type {
            Some(ct) => {
                extra.push(header("content-type", ct));
                assert(signing::header_pairs(extra@) =~= seq![
                    ("x-amz-content-sha256"@, hash@),
                ] + seq![("content-type"@, ct@)]);
                let mut r = self.signed("PUT", url, "", hash.as_str(), amz_date, &extra);
                let ghost before = r.headers@;
                r.headers.push(header("content-type", ct));
                assert(r.headers@[2] == before[2]);
                assert(signing::header_pairs(r.headers@) =~= signing::header_pairs(before)
                    + seq![("content-type"@, ct@)]);
                assert(signing::header_pairs(before) =~= seq![
                    ("x-amz-date"@, amz_date@),
                    ("x-amz-content-sha256"@, hash@),
                    ("authorization"@, r.headers@[2].value@),
                    ("Host"@, bucket_host(self.cfg)),
                ]);
                r
            },
            None => {
                assert(signing::header_pairs(extra@) =~= seq![
                    ("x-amz-content-sha256"@, hash@),
                ] + seq![]);
                self.signed("PUT", url, "", hash.as_str(), amz_date, &extra)
            },
        }
    }
}

impl Storage for S3Storage {
    open spec fn service(&self) -> StorageKind {
        StorageKind::S3
    }

    fn kind(&self) -> (r: StorageKind) {
        StorageKind::S3
    }
}

/// The pages of a listing that have come so far.
#[derive(Debug)]
pub struct ObjectListing {
    pub objects: Vec<ObjectInfo>,
    pub prefixes: Vec<String>,
}

/// How many keys a page of a listing is asked to hold.
pub const PAGE_KEYS: u32 = 1000;

impl ObjectListing {
    /// No page has come yet.
    pub fn begin() -> (r: Self)
        ensures
            r.objects@ == Seq::<ObjectInfo>::empty(),
            r.prefixes@ == Seq::<String>::empty(),
    {
        ObjectListing { objects: Vec::new(), prefixes: Vec::new() }
    }

    /// Takes in a page, and gives the token of the next one, if there is one to ask for.
    pub fn add_page(&mut self, page: ListPage) -> (r: Option<String>)
        ensures
            final(self).objects@ == old(self).objects@ + page.objects@,
            final(self).prefixes@ == old(self).prefixes@ + page.prefixes@,
            r == if page.truncated {
                page.next_token
            } else {
                None
            },
    {
        let ListPage { mut objects, mut prefixes, truncated, next_token } = page;
        self.objects.append(&mut objects);
        self.prefixes.append(&mut prefixes);
        if truncated {
            next_token
        } else {
            None
        }
    }

    /// The listing, once the last page has come.
    pub fn finish(self) -> (r: ListObjectsResult)
        ensures
            r.objects == self.objects,
            r.prefixes == self.prefixes,
            !r.truncated,
    {
        ListObjectsResult { objects: self.objects, prefixes: self.prefixes, truncated: false }
    }
}

/// How many keys a test of a connection asks for.
pub const TEST_KEYS: u32 = 5;

/// The keys of objects.
pub open spec fn keys_of(objects: Seq<ObjectInfo>) -> Seq<Seq<char>> {
    objects.map_values(|o: ObjectInfo| o.key@)
}

/// What the test of a bucket showed that answered with a page of its listing.
pub fn bucket_tested(latency_ms: u64, page: &ListPage) -> (r: TestConnectionResult)
    ensures
        r.ok,
        r.latency_ms == latency_ms,
        r.error is None,
        text::texts(r.sample_objects@) == keys_of(page.objects@),
{
    let mut keys: Vec<String> = Vec::new();
    let mut i: usize = 0;
    assert(text::texts(keys@) =~= keys_of(page.objects@.take(0)));
    while i < page.objects.len()
        invariant
            i <= page.objects@.len(),
            text::texts(keys@) == keys_of(page.objects@.take(i as int)),
        decreases page.objects@.len() - i,
    {
        let ghost before = text::texts(keys@);
        keys.push(page.objects[i].key.clone());
        i += 1;
        assert(text::texts(keys@) =~= before.push(page.objects@[i - 1].key@));
        assert(text::texts(keys@) =~= keys_of(page.objects@.take(i as int)));
    }
    assert(page.objects@.take(i as int) =~= page.objects@);
    TestConnectionResult { ok: true, latency_ms, error: None, sample_objects: keys }
}

// ---------------------------------------------------------------------------
// OSS
// ---------------------------------------------------------------------------
/// A bucket of OSS, which is spoken to as S3.
#[derive(Debug)]
pub struct OssStorage {
    pub inner: S3Storage,
}

/// The endpoint of a bucket: the one that was given, or the public one of the region.
pub open spec fn oss_endpoint(cfg: OssConfig) -> Seq<char> {
    match cfg.endpoint {
        Some(ep) => ep@,
        None => "https://oss-"@ + cfg.region@ + ".aliyuncs.com"@,
    }
}

/// How the bucket is reached, spoken to as S3.
pub open spec fn as_s3(s3: S3Config, cfg: OssConfig) -> bool {
    &&& s3.name == cfg.name
    &&& s3.region == cfg.region
    &&& s3.bucket == cfg.bucket
    &&& s3.access_key == cfg.access_key
    &&& s3.secret_key == cfg.secret_key
    &&& s3.endpoint matches Some(ep) && ep@ == oss_endpoint(cfg)
    &&& s3.path_style == cfg.path_style
}

impl OssStorage {
    /// The storage of a bucket.
    pub fn new(cfg: &OssConfig) -> (r: Result<Self, CloudSyncError>)
        ensures
            r matches Ok(s) && as_s3(s.inner.cfg, *cfg),
    {
        let endpoint = match &cfg.endpoint {
            Some(ep) => ep.clone(),
            None => concat3("https://oss-", cfg.region.as_str(), ".aliyuncs.com"),
        };
        let s3 = S3Config {
            name: cfg.name.clone(),
            region: cfg.region.clone(),
            bucket: cfg.bucket.clone(),
            access_key: cfg.access_key.clone(),
            secret_key: cfg.secret_key.clone(),
            endpoint: Some(endpoint),
            path_style: cfg.path_style,
        };
        match S3Storage::new(&s3) {
            Ok(inner) => Ok(OssStorage { inner }),
            Err(e) => Err(e),
        }
    }
}

impl Storage for OssStorage {
    open spec fn service(&self) -> StorageKind {
        StorageKind::Oss
    }

    fn kind(&self) -> (r: StorageKind) {
        StorageKind::Oss
    }
}

// ---------------------------------------------------------------------------
// The network disk
// ---------------------------------------------------------------------------
/// An account of the network disk that is logged in.
#[derive(Debug, Clone, Copy, PartialEq, Eq, Structural)]
pub struct NetdiskAccount {
    pub uid: u64,
}

/// The files of an account of the network disk.
#[derive(Debug)]
pub struct BaiduStorage {
    pub client: NetdiskAccount,
}

/// The largest file that is uploaded, in bytes.
pub const MAX_UPLOAD: u64 = 4194304;

/// How many entries of a directory are asked for.
pub const LIST_PAGE: u32 = 200;

/// The directory that a path stands in, as std's `Path::parent` gives it.
pub uninterp spec fn parent_of(path: Seq<char>) -> Option<Seq<char>>;

/// `std::path::Path::parent`: the path without its last component, if it has one.
#[verifier::external_body]
fn parent(path: &str) -> (r: Option<String>)
    ensures
        text::opt_text(r) == parent_of(path@),
{
    std::path::Path::new(path).parent().map(|p| p.to_string_lossy().to_string())
}

/// The directory to look in, where the path has that parent.
pub open spec fn dir_with_parent(parent: Option<Seq<char>>) -> Seq<char> {
    match parent {
        Some(p) => if p.len() > 0 {
            p
        } else {
            "/"@
        },
        None => "/"@,
    }
}

/// The directory to look in, where the path has that parent.
pub fn dir_from_parent(parent: Option<String>) -> (r: String)
    ensures
        r@ == dir_with_parent(text::opt_text(parent)),
{
    match parent {
        Some(p) => if p.as_str().is_empty() {
            "/".to_owned()
        } else {
            p
        },
        None => "/".to_owned(),
    }
}

/// The MD5 digest of some bytes, in hexadecimal.
pub uninterp spec fn md5_of(data: Seq<u8>) -> Seq<char>;

/// `md5::compute`, shown in hexadecimal: two digits for each of 16 bytes.
#[verifier::external_body]
fn md5_hex(data: &[u8]) -> (r: String)
    ensures
        r@ == md5_of(data@),
        r@.len() == 32,
{
    format!("{:x}", md5::compute(data))
}

/// How a file is announced before it is uploaded.
#[derive(Debug)]
pub struct UploadPlan {
    pub size: u64,
    pub block_list: String,
}

/// What the network disk answers to the announcement of a file.
#[derive(Debug)]
pub struct Precreated {
    pub rapid_upload: bool,
    pub upload_id: String,
}

/// What is left to do for a file that was announced.
#[derive(Debug)]
pub enum UploadStep {
    Done,
    Send { upload_id: String },
}

/// An entry of a directory of the network disk.
#[derive(Debug)]
pub struct RemoteItem {
    pub path: String,
    pub server_filename: String,
    pub is_dir: bool,
    pub size: u64,
    pub server_mtime: i64,
    pub md5: Option<String>,
}

/// The object that a file of the network disk is listed as.
pub open spec fn file_object(item: RemoteItem) -> ObjectView {
    ObjectView {
        key: item.path@,
        size: item.size,
        last_modified: ids::moment(item.server_mtime),
        etag: text::opt_text(item.md5),
    }
}

/// The objects among the entries: the files.
pub open spec fn file_objects(items: Seq<RemoteItem>) -> Seq<ObjectView> {
    items.filter(|i: RemoteItem| !i.is_dir).map_values(|i: RemoteItem| file_object(i))
}

/// The prefixes among the entries: the paths of the directories.
pub open spec fn dir_paths(items: Seq<RemoteItem>) -> Seq<Seq<char>> {
    items.filter(|i: RemoteItem| i.is_dir).map_values(|i: RemoteItem| i.path@)
}

/// The size of the first entry with a name.
pub open spec fn size_named(items: Seq<RemoteItem>, name: Seq<char>, i: int) -> Option<u64>
    decreases items.len() - i,
{
    if i < 0 || i >= items.len() {
        None
    } else if items[i].server_filename@ == name {
        Some(items[i].size)
    } else {
        size_named(items, name, i + 1)
    }
}

/// The name that a path is looked up by.
pub open spec fn name_looked_up(path: Seq<char>) -> Seq<char> {
    match target_paths::file_name_of(path) {
        Some(n) => n,
        None => path,
    }
}

/// The error for a call that failed, with what was tried in front.
fn failed(what: &str, message: &str) -> (r: CloudSyncError)
    ensures
        r@ == CloudErrorView::Internal(what@ + message@),
{
    CloudSyncError::Internal(concat2(what, message))
}

impl BaiduStorage {
    /// The storage of an account.
    pub fn new(client: NetdiskAccount) -> (r: Self)
        ensures
            r.client == client,
    {
        BaiduStorage { client }
    }

    /// The directory to look in for a path.
    pub fn normalize_dir(remote_path: &str) -> (r: String)
        ensures
            r@ == dir_with_parent(parent_of(remote_path@)),
    {
        dir_from_parent(parent(remote_path))
    }

    /// What the test of the account showed; `valid` when its login still holds.
    pub fn tested(&self, valid: bool, latency_ms: u64) -> (r: Result<
        TestConnectionResult,
        CloudSyncError,
    >)
        ensures
            match r {
                Ok(t) => {
                    &&& valid
                    &&& t.ok
                    &&& t.latency_ms == latency_ms
                    &&& t.error is None
                    &&& text::texts(t.sample_objects@) == seq![
                        "baidu-user: "@ + numbers::decimal_of(self.client.uid as nat),
                    ]
                },
                Err(e) => !valid && e@ == CloudErrorView::Auth(
                    "百度账号 "@ + numbers::decimal_of(self.client.uid as nat)
                        + " 的 BDUSS 已失效"@,
                ),
            },
    {
        let uid = decimal(self.client.uid);
        if valid {
            let mut sample: Vec<String> = Vec::new();
            sample.push(concat2("baidu-user: ", uid.as_str()));
            assert(text::texts(sample@) =~= seq![
                "baidu-user: "@ + numbers::decimal_of(self.client.uid as nat),
            ]);
            Ok(TestConnectionResult { ok: true, latency_ms, error: None, sample_objects: sample })
        } else {
            Err(CloudSyncError::Auth(concat3("百度账号 ", uid.as_str(), " 的 BDUSS 已失效")))
        }
    }

    /// How a file with these contents is announced. A file over the limit is refused.
    pub fn plan_upload(data: &[u8]) -> (r: Result<UploadPlan, CloudSyncError>)
        ensures
            match r {
                Ok(p) => data@.len() <= MAX_UPLOAD && p.size == data@.len() && p.block_list@
                    == "[\""@ + md5_of(data@) + "\"]"@,
                Err(e) => data@.len() > MAX_UPLOAD && e@ == CloudErrorView::Config(
                    "百度单次上传 ≤ 4MB；文件 "@ + numbers::decimal_of(data@.len())
                        + " 超出限制"@,
                ),
            },
    {
        let size: u64 = data.len() as u64;
        if size > MAX_UPLOAD {
            let shown = decimal(size);
            return Err(
                CloudSyncError::Config(
                    concat3("百度单次上传 ≤ 4MB；文件 ", shown.as_str(), " 超出限制"),
                ),
            );
        }
        let digest = md5_hex(data);
        Ok(UploadPlan { size, block_list: concat3("[\"", digest.as_str(), "\"]") })
    }

    /// What is left to do once a file was announced: nothing, where its contents are known.
    pub fn precreated(reply: Result<Precreated, String>) -> (r: Result<UploadStep, CloudSyncError>)
        ensures
            match (reply, r) {
                (Ok(p), Ok(UploadStep::Done)) => p.rapid_upload,
                (Ok(p), Ok(UploadStep::Send { upload_id })) => !p.rapid_upload && upload_id
                    == p.upload_id,
                (Err(m), Err(e)) => e@ == CloudErrorView::Internal("precreate 失败: "@ + m@),
                _ => false,
            },
    {
        match reply {
            Ok(p) => if p.rapid_upload {
                Ok(UploadStep::Done)
            } else {
                Ok(UploadStep::Send { upload_id: p.upload_id })
            },
            Err(m) => Err(failed("precreate 失败: ", m.as_str())),
        }
    }

    /// Whether the contents were sent.
    pub fn chunk_sent(reply: Result<(), String>) -> (r: Result<(), CloudSyncError>)
        ensures
            match (reply, r) {
                (Ok(_), Ok(_)) => true,
                (Err(m), Err(e)) => e@ == CloudErrorView::Internal("upload_chunk 失败: "@ + m@),
                _ => false,
            },
    {
        match reply {
            Ok(_) => Ok(()),
            Err(m) => Err(failed("upload_chunk 失败: ", m.as_str())),
        }
    }

    /// Whether the file was made from what was sent.
    pub fn file_created(reply: Result<(), String>) -> (r: Result<(), CloudSyncError>)
        ensures
            match (reply, r) {
                (Ok(_), Ok(_)) => true,
                (Err(m), Err(e)) => e@ == CloudErrorView::Internal("create_file 失败: "@ + m@),
                _ => false,
            },
    {
        match reply {
            Ok(_) => Ok(()),
            Err(m) => Err(failed("create_file 失败: ", m.as_str())),
        }
    }

    /// The network disk takes no streams.
    pub fn upload_stream() -> (r: Result<(), CloudSyncError>)
        ensures
            r matches Err(e) && e@ == CloudErrorView::Config(
                "百度不支持流式上传，请先落盘"@,
            ),
    {
        Err(CloudSyncError::config("百度不支持流式上传，请先落盘"))
    }

    /// Whether a download is served.
    pub fn download_reply(status: u16) -> (r: Result<(), CloudSyncError>)
        requires
            100 <= status < 1000,
        ensures
            match r {
                Ok(_) => is_success(status),
                Err(e) => !is_success(status) && e@ == CloudErrorView::Internal(
                    "百度下载 HTTP "@ + status_line(status),
                ),
            },
    {
        if 200 <= status && status < 300 {
            Ok(())
        } else {
            let shown = show_status(status);
            Err(failed("百度下载 HTTP ", shown.as_str()))
        }
    }

    /// The directory that is listed for a prefix.
    pub fn listed_dir(prefix: &str) -> (r: String)
        ensures
            r@ == if prefix@.len() == 0 {
                "/"@
            } else {
                prefix@
            },
    {
        if prefix.is_empty() {
            "/".to_owned()
        } else {
            prefix.to_owned()
        }
    }

    /// The listing that the entries of a directory make.
    pub fn listing(reply: Result<Vec<RemoteItem>, String>) -> (r: Result<
        ListObjectsResult,
        CloudSyncError,
    >)
        ensures
            match (reply, r) {
                (Ok(items), Ok(l)) => {
                    &&& types::object_views(l.objects@) == file_objects(items@)
                    &&& text::texts(l.prefixes@) == dir_paths(items@)
                    &&& !l.truncated
                },
                (Err(m), Err(e)) => e@ == CloudErrorView::Internal("百度列目录失败: "@ + m@),
                _ => false,
            },
    {
        let items = match reply {
            Ok(items) => items,
            Err(m) => return Err(failed("百度列目录失败: ", m.as_str())),
        };
        let mut objects: Vec<ObjectInfo> = Vec::new();
        let mut prefixes: Vec<String> = Vec::new();
        let mut i: usize = 0;
        proof {
            reveal(Seq::filter);
        }
        assert(types::object_views(objects@) =~= file_objects(items@.take(0)));
        assert(text::texts(prefixes@) =~= dir_paths(items@.take(0)));
        while i < items.len()
            invariant
                i <= items@.len(),
                types::object_views(objects@) == file_objects(items@.take(i as int)),
                text::texts(prefixes@) == dir_paths(items@.take(i as int)),
            decreases items@.len() - i,
        {
            let ghost seen = items@.take(i as int);
            let ghost files = types::object_views(objects@);
            let ghost dirs = text::texts(prefixes@);
            proof {
                reveal(Seq::filter);
                assert(items@.take(i + 1).drop_last() =~= seen);
            }
            if items[i].is_dir {
                prefixes.push(items[i].path.clone());
                assert(text::texts(prefixes@) =~= dirs.push(items@[i as int].path@));
                assert(dir_paths(items@.take(i + 1)) =~= dir_paths(seen).push(
                    items@[i as int].path@,
                ));
                assert(file_objects(items@.take(i + 1)) =~= file_objects(seen));
            } else {
                let one = ObjectInfo {
                    key: items[i].path.clone(),
                    size: items[i].size,
                    last_modified: from_seconds(items[i].server_mtime),
                    etag: copy_opt(&items[i].md5),
                };
                objects.push(one);
                assert(types::object_views(objects@) =~= files.push(one@));
                assert(file_objects(items@.take(i + 1)) =~= file_objects(seen).push(
                    file_object(items@[i as int]),
                ));
                assert(dir_paths(items@.take(i + 1)) =~= dir_paths(seen));
            }
            i += 1;
        }
        assert(items@.take(i as int) =~= items@);
        Ok(ListObjectsResult { objects, prefixes, truncated: false })
    }

    /// Whether an object was deleted.
    pub fn deleted(reply: Result<(), String>) -> (r: Result<(), CloudSyncError>)
        ensures
            match (reply, r) {
                (Ok(_), Ok(_)) => true,
                (Err(m), Err(e)) => e@ == CloudErrorView::Internal("百度删除失败: "@ + m@),
                _ => false,
            },
    {
        match reply {
            Ok(_) => Ok(()),
            Err(m) => Err(failed("百度删除失败: ", m.as_str())),
        }
    }

    /// The size of an object, from the entries of its directory.
    pub fn head_size(remote_path: &str, reply: Result<Vec<RemoteItem>, String>) -> (r: Result<
        u64,
        CloudSyncError,
    >)
        ensures
            match (reply, r) {
                (Ok(items), Ok(n)) => size_named(items@, name_looked_up(remote_path@), 0)
                    == Some(n),
                (Ok(items), Err(e)) => size_named(items@, name_looked_up(remote_path@), 0) is None
                    && e@ == CloudErrorView::NotFound("百度未找到: "@ + remote_path@),
                (Err(m), Err(e)) => e@ == CloudErrorView::Internal("百度查询失败: "@ + m@),
                _ => false,
            },
    {
        let items = match reply {
            Ok(items) => items,
            Err(m) => return Err(failed("百度查询失败: ", m.as_str())),
        };
        let name = match local_file_name(remote_path) {
            Some(n) => n,
            None => remote_path.to_owned(),
        };
        let mut i: usize = 0;
        while i < items.len()
            invariant
                i <= items@.len(),
                reply == Ok::<Vec<RemoteItem>, String>(items),
                name@ == name_looked_up(remote_path@),
                size_named(items@, name@, i as int) == size_named(items@, name@, 0),
            decreases items@.len() - i,
        {
            if same(items[i].server_filename.as_str(), name.as_str()) {
                return Ok(items[i].size);
            }
            i += 1;
        }
        Err(CloudSyncError::NotFound(concat2("百度未找到: ", remote_path)))
    }
}

impl Storage for BaiduStorage {
    open spec fn service(&self) -> StorageKind {
        StorageKind::Baidu
    }

    fn kind(&self) -> (r: StorageKind) {
        StorageKind::Baidu
    }
}

// ---------------------------------------------------------------------------
// The storage of a connection
// ---------------------------------------------------------------------------
/// Finds the accounts of the network disk that are logged in.
pub trait BaiduClientResolver {
    /// The account, if it is logged in.
    fn resolve(&self, owner_uid: u64) -> (r: Option<NetdiskAccount>);
}

/// The storage of a connection.
#[derive(Debug)]
pub enum StorageBackend {
    S3(S3Storage),
    Oss(OssStorage),
    Baidu(BaiduStorage),
}

impl Storage for StorageBackend {
    open spec fn service(&self) -> StorageKind {
        match self {
            StorageBackend::S3(_) => StorageKind::S3,
            StorageBackend::Oss(_) => StorageKind::Oss,
            StorageBackend::Baidu(_) => StorageKind::Baidu,
        }
    }

    fn kind(&self) -> (r: StorageKind) {
        match self {
            StorageBackend::S3(s) => s.kind(),
            StorageBackend::Oss(s) => s.kind(),
            StorageBackend::Baidu(s) => s.kind(),
        }
    }
}

/// The storage that a connection has, where `account` is what was found for it.
pub open spec fn is_storage_of(
    r: Result<StorageBackend, CloudSyncError>,
    cfg: ConnectionConfig,
    account: Option<NetdiskAccount>,
) -> bool {
    match (cfg, r) {
        (ConnectionConfig::S3(c), Ok(StorageBackend::S3(s))) => s.cfg == c,
        (ConnectionConfig::Oss(c), Ok(StorageBackend::Oss(s))) => as_s3(s.inner.cfg, c),
        (ConnectionConfig::Baidu(c), Ok(StorageBackend::Baidu(s))) => account == Some(s.client),
        (ConnectionConfig::Baidu(c), Err(e)) => account is None && e@ == CloudErrorView::Auth(
            "百度账号 "@ + numbers::decimal_of(c.owner_uid as nat) + " 未登录或不存在"@,
        ),
        _ => false,
    }
}

/// The storage of a connection; `account` is what was found for the one it names.
pub fn build_storage_with(cfg: &ConnectionConfig, account: Option<NetdiskAccount>) -> (r: Result<
    StorageBackend,
    CloudSyncError,
>)
    ensures
        is_storage_of(r, *cfg, account),
{
    match cfg {
        ConnectionConfig::S3(c) => match S3Storage::new(c) {
            Ok(s) => Ok(StorageBackend::S3(s)),
            Err(e) => Err(e),
        },
        ConnectionConfig::Oss(c) => match OssStorage::new(c) {
            Ok(s) => Ok(StorageBackend::Oss(s)),
            Err(e) => Err(e),
        },
        ConnectionConfig::Baidu(c) => match account {
            Some(a) => Ok(StorageBackend::Baidu(BaiduStorage::new(a))),
            None => {
                let uid = decimal(c.owner_uid);
                Err(
                    CloudSyncError::Auth(
                        concat3("百度账号 ", uid.as_str(), " 未登录或不存在"),
                    ),
                )
            },
        },
    }
}

/// The storage of a connection. Of a connection to the network disk the resolver says which
/// account it has, if it is logged in.
pub fn build_storage<R: BaiduClientResolver>(
    cfg: &ConnectionConfig,
    baidu_client_resolver: &R,
) -> (r: Result<StorageBackend, CloudSyncError>)
    ensures
        exists|account: Option<NetdiskAccount>| #[trigger] is_storage_of(r, *cfg, account) && (
        cfg matches ConnectionConfig::Baidu(c) ==> call_ensures(
            R::resolve,
            (baidu_client_resolver, c.owner_uid),
            account,
        )),
{
    let account = match cfg {
        ConnectionConfig::Baidu(c) => baidu_client_resolver.resolve(c.owner_uid),
        _ => None,
    };
    let r = build_storage_with(cfg, account);
    assert(is_storage_of(r, *cfg, account));
    r
}

/// The storage that a connection gets is of the kind that the connection names.
pub proof fn law_storage_has_the_kind_of_its_connection(
    r: Result<StorageBackend, CloudSyncError>,
    cfg: ConnectionConfig,
    account: Option<NetdiskAccount>,
)
    requires
        is_storage_of(r, cfg, account),
    ensures
        r matches Ok(s) ==> s.service() == cfg.service(),
        !(cfg is Baidu) ==> r is Ok,
        account is Some ==> r is Ok,
{
}

proof fn lemma_up_to(a: Seq<char>, ch: char, b: Seq<char>)
    requires
        !a.contains(ch),
    ensures
        up_to(a.push(ch) + b, ch) == a,
        up_to(a, ch) == a,
{
    let s = a.push(ch) + b;
    text::lemma_first_at(s, ch, 0);
    assert(s[a.len() as int] == ch);
    let k = text::first_at(s, ch, 0)->Some_0;
    if k < a.len() {
        assert(s[k] == a[k]);
        assert(a.contains(a[k]));
    }
    assert(s.take(a.len() as int) =~= a);
    text::lemma_first_at(a, ch, 0);
    if text::first_at(a, ch, 0) is Some {
        assert(a.contains(a[text::first_at(a, ch, 0)->Some_0]));
    }
}

/// The host of an address stands behind the scheme, and before the port and the path.
pub proof fn law_host_stands_between_scheme_and_path(
    host: Seq<char>,
    port: Seq<char>,
    path: Seq<char>,
)
    requires
        !host.contains('/') && !host.contains(':'),
        !port.contains('/'),
    ensures
        host_of("https://"@ + host) == host,
        host_of("https://"@ + host + seq!['/'] + path) == host,
        host_of("https://"@ + host + seq![':'] + port + seq!['/'] + path) == host,
        host_of("http://"@ + host + seq![':'] + port) == host,
{
    reveal_strlit("https://");
    reveal_strlit("http://");
    let a = "https://"@ + host;
    let b = "https://"@ + host + seq!['/'] + path;
    let c = "https://"@ + host + seq![':'] + port + seq!['/'] + path;
    let d = "http://"@ + host + seq![':'] + port;
    assert(a.take(8) =~= "https://"@ && a.skip(8) =~= host);
    assert(b.take(8) =~= "https://"@ && b.skip(8) =~= host.push('/') + path);
    let hp = host.push(':') + port;
    assert(c.take(8) =~= "https://"@ && c.skip(8) =~= hp.push('/') + path);
    assert(d.take(7) =~= "http://"@ && d.skip(7) =~= hp);
    assert(!"https://"@.is_prefix_of(d)) by {
        if "https://"@.is_prefix_of(d) {
            assert(d.take(8) =~= "https://"@);
            assert(d.take(8)[4] == 's');
            assert(d[4] == ':');
        }
    }
    assert(!hp.contains('/')) by {
        if hp.contains('/') {
            let k = choose|k: int| 0 <= k < hp.len() && hp[k] == '/';
            if k < host.len() {
                assert(host.contains(host[k]));
            } else if k > host.len() {
                assert(port.contains(port[k - host.len() - 1]));
            }
        }
    }
    lemma_up_to(host, '/', path);
    lemma_up_to(host, ':', port);
    lemma_up_to(hp, '/', path);
}

/// A text is encoded byte by byte: letters, digits and four signs stand for themselves, every
/// other byte for a percent sign and its two digits.
pub proof fn law_bytes_are_encoded_one_by_one(a: Seq<u8>, b: u8)
    ensures
        percent_encoded(seq![]).len() == 0,
        percent_encoded(seq![b] + a) == percent_encoded(seq![b]) + percent_encoded(a),
        (65 <= b <= 90 || 97 <= b <= 122 || 48 <= b <= 57 || b == 45 || b == 46 || b == 95 || b
            == 126) ==> percent_encoded(seq![b]) == seq![b as char],
        !(65 <= b <= 90 || 97 <= b <= 122 || 48 <= b <= 57 || b == 45 || b == 46 || b == 95 || b
            == 126) ==> {
            let e = percent_encoded(seq![b]);
            let digit = |c: char|
                if '0' <= c <= '9' {
                    c as int - 48
                } else {
                    c as int - 55
                };
            &&& e.len() == 3
            &&& e[0] == '%'
            &&& '0' <= e[1] <= '9' || 'A' <= e[1] <= 'F'
            &&& '0' <= e[2] <= '9' || 'A' <= e[2] <= 'F'
            &&& 16 * digit(e[1]) + digit(e[2]) == b
        },
{
    let one = seq![b];
    assert((one + a).skip(1) =~= a);
    assert(one.skip(1) =~= Seq::<u8>::empty());
    reveal_with_fuel(percent_encoded, 2);
    assert(percent_encoded(one) =~= encoded_byte(b));
}

/// What a listing asks for is put together from its parts: going on from a mark, so many keys at
/// most, and those below a prefix, each only where it is given.
pub proof fn law_listing_query_is_put_together(
    prefix: Seq<char>,
    max_keys: Option<u32>,
    keys: u32,
    continuation: Option<Seq<char>>,
    mark: Seq<char>,
)
    ensures
        list_query_of(seq![], None, None) == "list-type=2"@,
        list_query_of(prefix, max_keys, Some(mark)) == "continuation-token="@ + percent_encoded(
            vstd::utf8::encode_utf8(mark),
        ) + "&"@ + list_query_of(prefix, max_keys, None),
        prefix.len() > 0 ==> list_query_of(prefix, max_keys, continuation) == list_query_of(
            seq![],
            max_keys,
            continuation,
        ) + "&prefix="@ + percent_encoded(vstd::utf8::encode_utf8(prefix)),
        list_query_of(seq![], Some(keys), continuation) == list_query_of(seq![], None, continuation)
            + "&max-keys="@ + numbers::decimal_of(keys as nat),
{
    assert(list_query_of(seq![], None, None) =~= "list-type=2"@);
    assert(list_query_of(prefix, max_keys, Some(mark)) =~= "continuation-token="@ + percent_encoded(
        vstd::utf8::encode_utf8(mark),
    ) + "&"@ + list_query_of(prefix, max_keys, None));
    if prefix.len() > 0 {
        assert(list_query_of(prefix, max_keys, continuation) =~= list_query_of(
            seq![],
            max_keys,
            continuation,
        ) + "&prefix="@ + percent_encoded(vstd::utf8::encode_utf8(prefix)));
    }
    assert(list_query_of(seq![], Some(keys), continuation) =~= list_query_of(
        seq![],
        None,
        continuation,
    ) + "&max-keys="@ + numbers::decimal_of(keys as nat));
}

/// A request carries what was signed: its method, and as headers the time, the digest of its
/// payload and the host, beside the signature by the keys of the connection.
pub proof fn law_request_carries_what_is_signed(
    r: SignedRequest,
    cfg: S3Config,
    url: Seq<char>,
    method: Seq<char>,
    query: Seq<char>,
    payload_hash: Seq<char>,
    amz_date: Seq<char>,
    extra: Seq<(Seq<char>, Seq<char>)>,
    last: Seq<(Seq<char>, Seq<char>)>,
)
    requires
        is_request(
            r,
            cfg,
            url,
            bucket_parts(cfg, method, query, payload_hash, amz_date, extra),
            last,
        ),
    ensures
        r.method@ == method,
        r.url@ == url,
        r.headers@.len() == 4 + last.len(),
        r.headers@[0].name@ == "x-amz-date"@ && r.headers@[0].value@ == amz_date,
        r.headers@[1].name@ == "x-amz-content-sha256"@ && r.headers@[1].value@ == payload_hash,
        r.headers@[2].name@ == "authorization"@,
        r.headers@[3].name@ == "Host"@ && r.headers@[3].value@ == bucket_host(cfg),
        forall|i: int|
            0 <= i < last.len() ==> (#[trigger] r.headers@[4 + i]).name@ == last[i].0
                && r.headers@[4 + i].value@ == last[i].1,
        exists|ctx: SigV4Ctx, parts: SignedParts|
            {
                &&& #[trigger] signing::is_authorization(r.headers@[2].value@, ctx, parts)
                &&& ctx.access_key@ == cfg.access_key@
                &&& ctx.secret_key@ == cfg.secret_key@
                &&& ctx.region@ == cfg.region@
                &&& ctx.service@ == "s3"@
                &&& parts.method == method
                &&& parts.host == bucket_host(cfg)
                &&& parts.query == query
                &&& parts.payload_hash == payload_hash
                &&& parts.amz_date == amz_date
                &&& parts.extra == extra
            },
{
    let parts = bucket_parts(cfg, method, query, payload_hash, amz_date, extra);
    let pairs = signing::header_pairs(r.headers@);
    assert forall|i: int| 0 <= i < r.headers@.len() implies pairs[i] == (
        (#[trigger] r.headers@[i]).name@,
        r.headers@[i].value@,
    ) by {}
    assert(pairs[0] == ("x-amz-date"@, amz_date));
    assert(pairs[1] == ("x-amz-content-sha256"@, payload_hash));
    assert(pairs[2] == ("authorization"@, r.headers@[2].value@));
    assert(pairs[3] == ("Host"@, bucket_host(cfg)));
    assert forall|i: int| 0 <= i < last.len() implies (#[trigger] r.headers@[4 + i]).name@
        == last[i].0 && r.headers@[4 + i].value@ == last[i].1 by {
        assert(pairs[4 + i] == last[i]);
    }
    let ctx = choose|ctx: SigV4Ctx| #[trigger]
        signs_for(ctx, cfg) && signing::is_authorization(r.headers@[2].value@, ctx, parts);
    assert(signing::is_authorization(r.headers@[2].value@, ctx, parts));
}

/// An object stands at its key below the address of the service, a slash between them.
pub proof fn law_object_stands_below_the_service(cfg: S3Config, key: Seq<char>)
    ensures
        object_url(cfg, seq!['/'] + key) == object_url(cfg, key),
        key.len() > 0 && key[0] != '/' ==> object_url(cfg, key) == service_url(cfg) + seq!['/']
            + key,
        cfg.endpoint matches Some(ep) ==> (ep@.len() > 0 && ep@.last() != '/' ==> service_url(cfg)
            == ep@),
        cfg.endpoint is None ==> service_url(cfg) == "https://s3."@ + cfg.region@
            + ".amazonaws.com"@,
        cfg.endpoint is None && cfg.path_style != Some(true) ==> bucket_host(cfg) == cfg.bucket@
            + ".s3."@ + cfg.region@ + ".amazonaws.com"@,
        cfg.endpoint is None && cfg.path_style == Some(true) ==> bucket_host(cfg) == "s3."@
            + cfg.region@ + ".amazonaws.com"@,
        cfg.endpoint matches Some(ep) ==> bucket_host(cfg) == host_of(ep@),
{
    reveal_strlit("/");
    assert("/"@ =~= seq!['/']);
    assert((seq!['/'] + key).skip(1) =~= key);
}

/// An answer succeeds exactly where its status is one of the two hundreds; else it says that the
/// object is not there, that the keys are refused, that it was asked too often, or that something
/// else is wrong.
pub proof fn law_what_a_status_says(status: u16, message: Seq<char>)
    ensures
        is_success(status) <==> 200 <= status <= 299,
        status_error(status, message) is NotFound <==> status == 404,
        status_error(status, message) is Auth <==> (status == 401 || status == 403),
        status_error(status, message) is RateLimited <==> status == 429,
        status_error(status, message) is Internal <==> (status != 404 && status != 401 && status
            != 403 && status != 429),
{
}

/// A listing of the disk falls into files and directories: each file is an object with its path,
/// size and digest, each directory a prefix.
pub proof fn law_listing_falls_into_files_and_dirs(items: Seq<RemoteItem>, x: RemoteItem)
    ensures
        file_objects(items.push(x)) == if x.is_dir {
            file_objects(items)
        } else {
            file_objects(items).push(
                ObjectView {
                    key: x.path@,
                    size: x.size,
                    last_modified: ids::moment(x.server_mtime),
                    etag: text::opt_text(x.md5),
                },
            )
        },
        dir_paths(items.push(x)) == if x.is_dir {
            dir_paths(items).push(x.path@)
        } else {
            dir_paths(items)
        },
        file_objects(seq![]).len() == 0,
        dir_paths(seq![]).len() == 0,
{
    reveal(Seq::filter);
    assert(items.push(x).drop_last() =~= items);
    if x.is_dir {
        assert(dir_paths(items.push(x)) =~= dir_paths(items).push(x.path@));
    } else {
        assert(file_objects(items.push(x)) =~= file_objects(items).push(file_object(x)));
    }
}

/// The size that is looked up is that of the first item with the name.
pub proof fn law_size_is_that_of_the_first_of_its_name(
    items: Seq<RemoteItem>,
    name: Seq<char>,
    i: int,
)
    requires
        0 <= i <= items.len(),
    ensures
        match size_named(items, name, i) {
            Some(n) => exists|k: int|
                {
                    &&& i <= k < items.len()
                    &&& (#[trigger] items[k]).server_filename@ == name
                    &&& items[k].size == n
                    &&& forall|j: int|
                        i <= j < k ==> (#[trigger] items[j]).server_filename@ != name
                },
            None => forall|k: int|
                i <= k < items.len() ==> (#[trigger] items[k]).server_filename@ != name,
        },
    decreases items.len() - i,
{
    if i < items.len() && items[i].server_filename@ != name {
        law_size_is_that_of_the_first_of_its_name(items, name, i + 1);
    }
}

/// A store of one service is used as one of the other: with the same keys and bucket, at its own
/// address or at that of its region.
pub proof fn law_oss_is_used_with_its_own_keys(s3: S3Config, cfg: OssConfig)
    requires
        as_s3(s3, cfg),
    ensures
        s3.access_key == cfg.access_key,
        s3.secret_key == cfg.secret_key,
        s3.bucket == cfg.bucket,
        s3.region == cfg.region,
        s3.path_style == cfg.path_style,
        s3.endpoint matches Some(ep) && (cfg.endpoint matches Some(own) ==> ep@ == own@) && (
        cfg.endpoint is None ==> ep@ == "https://oss-"@ + cfg.region@ + ".aliyuncs.com"@),
{
}

} // verus!
