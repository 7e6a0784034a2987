//! Request signatures: AWS Signature Version 4.
use vstd::prelude::*;

use crate::sorting;
use crate::sorting::{sort_stable, text_before, Keyed};
use crate::text;
use crate::text::{concat2, to_lowercase, trim};

verus! {

// ---------------------------------------------------------------------------
// Digests
// ---------------------------------------------------------------------------
/// The SHA-256 digest of some bytes.
pub uninterp spec fn sha256_of(data: Seq<u8>) -> Seq<u8>;

/// `sha2::Sha256::digest`: the digest of the bytes, which has 32 bytes.
#[verifier::external_body]
fn sha256(data: &[u8]) -> (r: Vec<u8>)
    ensures
        r@ == sha256_of(data@),
        r@.len() == 32,
{
    <sha2::Sha256 as sha2::Digest>::digest(data).to_vec()
}

/// The HMAC-SHA-256 code of a message under a key.
pub uninterp spec fn hmac_of(key: Seq<u8>, message: Seq<u8>) -> Seq<u8>;

/// `hmac::Hmac<Sha256>`, made by `new_from_slice` from a key of any length: the code of the
/// message, which has 32 bytes.
#[verifier::external_body]
fn hmac_sha256(key: &[u8], message: &[u8]) -> (r: Vec<u8>)
    ensures
        r@ == hmac_of(key@, message@),
        r@.len() == 32,
{
    let mut mac = <hmac::Hmac<sha2::Sha256> as hmac::Mac>::new_from_slice(key).expect("hmac key");
    hmac::Mac::update(&mut mac, message);
    hmac::Mac::finalize(mac).into_bytes().to_vec()
}

/// The digit of a number below 16, in lower case.
pub open spec fn hex_digit(n: int) -> char {
    if n < 10 {
        ('0' as u8 + n) as char
    } else {
        ('a' as u8 + (n - 10)) as char
    }
}

/// The bytes in hexadecimal, two digits each.
pub open spec fn hex_of(data: Seq<u8>) -> Seq<char> {
    Seq::new(
        2 * data.len(),
        |i: int|
            if i % 2 == 0 {
                hex_digit(data[i / 2] as int / 16)
            } else {
                hex_digit(data[i / 2] as int % 16)
            },
    )
}

/// `hex::encode`: the bytes in hexadecimal, two lower case digits each.
#[verifier::external_body]
fn hex(data: &[u8]) -> (r: String)
    ensures
        r@ == hex_of(data@),
{
    hex::encode(data)
}

/// The digest of a text, in hexadecimal.
pub open spec fn text_digest(s: Seq<char>) -> Seq<char> {
    hex_of(sha256_of(vstd::utf8::encode_utf8(s)))
}

/// The SHA-256 digest of the bytes, in hexadecimal.
pub fn sha256_hex(data: &[u8]) -> (r: String)
    ensures
        r@ == hex_of(sha256_of(data@)),
        r@.len() == 64,
{
    let digest = sha256(data);
    hex(digest.as_slice())
}

// ---------------------------------------------------------------------------
// Time
// ---------------------------------------------------------------------------
/// `chrono::Utc::now` and `DateTime::format`, for the pattern of year, month, day, hour, minute
/// and second: a text of at least 16 ASCII characters, since the year has at least four. Which
/// moment it is, is left open.
#[verifier::external_body]
fn now_formatted(pattern: &str) -> (r: String)
    requires
        pattern@ == "%Y%m%dT%H%M%SZ"@,
    ensures
        r@.len() >= 16,
        vstd::utf8::is_ascii_chars(r@),
{
    chrono::Utc::now().format(pattern).to_string()
}

/// The text starts with a date: a character ends at its eighth byte.
pub open spec fn starts_with_date(s: Seq<char>) -> bool {
    vstd::utf8::is_char_boundary(vstd::utf8::encode_utf8(s), 8)
}

/// The date that a text starts with: its first eight bytes.
pub open spec fn date_of(s: Seq<char>) -> Seq<char> {
    vstd::utf8::decode_utf8(vstd::utf8::encode_utf8(s).subrange(0, 8))
}

proof fn lemma_encoded_parts(a: Seq<char>, b: Seq<char>)
    ensures
        vstd::utf8::encode_utf8(a + b) == vstd::utf8::encode_utf8(a) + vstd::utf8::encode_utf8(b),
        vstd::utf8::is_char_boundary(
            vstd::utf8::encode_utf8(a + b),
            vstd::utf8::encode_utf8(a).len() as int,
        ),
    decreases a.len(),
{
    broadcast use vstd::utf8::encode_utf8_valid_utf8;

    let bytes = vstd::utf8::encode_utf8(a + b);
    if a.len() == 0 {
        assert(a + b =~= b);
        assert(vstd::utf8::encode_utf8(a) + vstd::utf8::encode_utf8(b) =~= bytes);
    } else {
        lemma_encoded_parts(a.drop_first(), b);
        assert((a + b).drop_first() =~= a.drop_first() + b);
        assert(bytes =~= vstd::utf8::encode_utf8(a) + vstd::utf8::encode_utf8(b));
        vstd::utf8::encode_utf8_first_scalar(a + b);
        assert(vstd::utf8::pop_first_scalar(bytes) =~= vstd::utf8::encode_utf8(
            (a + b).drop_first(),
        ));
    }
}

/// Where the first eight characters are ASCII, they are the date.
pub proof fn law_ascii_date(s: Seq<char>)
    requires
        s.len() >= 8,
        vstd::utf8::is_ascii_chars(s.take(8)),
    ensures
        starts_with_date(s),
        date_of(s) == s.take(8),
{
    let head = s.take(8);
    lemma_encoded_parts(head, s.skip(8));
    assert(head + s.skip(8) =~= s);
    vstd::utf8::is_ascii_chars_encode_utf8(head);
    assert(vstd::utf8::encode_utf8(s).subrange(0, 8) =~= vstd::utf8::encode_utf8(head));
    vstd::utf8::encode_utf8_decode_utf8(head);
}

/// The current time, as a request carries it.
pub fn amz_date_now() -> (r: String)
    ensures
        starts_with_date(r@),
        r@.len() >= 16,
{
    let r = now_formatted("%Y%m%dT%H%M%SZ");
    proof {
        law_ascii_date(r@);
    }
    r
}

// ---------------------------------------------------------------------------
// Signatures
// ---------------------------------------------------------------------------
/// A header of a request.
#[derive(Debug)]
pub struct Header {
    pub name: String,
    pub value: String,
}

/// Headers are sorted by name.
impl Keyed for Header {
    open spec fn key(&self) -> Seq<int> {
        sorting::text_key(self.name@)
    }

    fn before(&self, other: &Self) -> (r: bool) {
        text_before(self.name.as_str(), other.name.as_str())
    }

    fn dup(&self) -> (r: Self) {
        Header { name: self.name.clone(), value: self.value.clone() }
    }
}

/// The names and values of headers.
pub open spec fn header_pairs(h: Seq<Header>) -> Seq<(Seq<char>, Seq<char>)> {
    h.map_values(|x: Header| (x.name@, x.value@))
}

/// A header from its name and value.
pub fn header(name: &str, value: &str) -> (r: Header)
    ensures
        r.name@ == name@,
        r.value@ == value@,
{
    Header { name: name.to_owned(), value: value.to_owned() }
}

/// Who signs, and for which service.
pub struct SigV4Ctx<'a> {
    pub access_key: &'a str,
    pub secret_key: &'a str,
    pub region: &'a str,
    pub service: &'a str,
}

/// What is signed of a request.
pub struct SignedParts {
    pub method: Seq<char>,
    pub host: Seq<char>,
    pub uri: Seq<char>,
    pub query: Seq<char>,
    pub payload_hash: Seq<char>,
    pub amz_date: Seq<char>,
    pub extra: Seq<(Seq<char>, Seq<char>)>,
}

/// The headers that are signed, before they are sorted: the host, the time and the extra ones,
/// with names in lower case and values trimmed.
pub open spec fn headers_to_sign(parts: SignedParts) -> Seq<(Seq<char>, Seq<char>)> {
    seq![("host"@, parts.host), ("x-amz-date"@, parts.amz_date)] + parts.extra.map_values(
        |p: (Seq<char>, Seq<char>)| (text::lowercase_of(p.0), text::trimmed(p.1)),
    )
}

/// One line for each header.
pub open spec fn header_lines(h: Seq<(Seq<char>, Seq<char>)>) -> Seq<char>
    decreases h.len(),
{
    if h.len() == 0 {
        seq![]
    } else {
        header_lines(h.drop_last()) + (h.last().0 + ":"@ + h.last().1 + "\n"@)
    }
}

/// The names of the headers, with a semicolon between two.
pub open spec fn header_names(h: Seq<(Seq<char>, Seq<char>)>) -> Seq<char>
    decreases h.len(),
{
    if h.len() == 0 {
        seq![]
    } else if h.len() == 1 {
        h.last().0
    } else {
        header_names(h.drop_last()) + ";"@ + h.last().0
    }
}

/// The request in the form whose digest is signed; `h` are its headers, sorted.
pub open spec fn canonical_request(parts: SignedParts, h: Seq<(Seq<char>, Seq<char>)>) -> Seq<
    char,
> {
    parts.method + "\n"@ + parts.uri + "\n"@ + parts.query + "\n"@ + header_lines(h) + "\n"@
        + header_names(h) + "\n"@ + parts.payload_hash
}

/// What the signature is good for: a day, a region and a service.
pub open spec fn credential_scope(ctx: SigV4Ctx, date: Seq<char>) -> Seq<char> {
    date + "/"@ + ctx.region@ + "/"@ + ctx.service@ + "/aws4_request"@
}

/// The text that is signed.
pub open spec fn string_to_sign(
    ctx: SigV4Ctx,
    parts: SignedParts,
    h: Seq<(Seq<char>, Seq<char>)>,
) -> Seq<char> {
    "AWS4-HMAC-SHA256\n"@ + parts.amz_date + "\n"@ + credential_scope(
        ctx,
        date_of(parts.amz_date),
    ) + "\n"@ + text_digest(canonical_request(parts, h))
}

/// The key that signs on a day.
pub open spec fn signing_key(ctx: SigV4Ctx, date: Seq<char>) -> Seq<u8> {
    let utf8 = |s: Seq<char>| vstd::utf8::encode_utf8(s);
    hmac_of(
        hmac_of(
            hmac_of(hmac_of(utf8("AWS4"@ + ctx.secret_key@), utf8(date)), utf8(ctx.region@)),
            utf8(ctx.service@),
        ),
        utf8("aws4_request"@),
    )
}

/// The value of the authorization header; `h` are the signed headers, sorted.
pub open spec fn authorization(
    ctx: SigV4Ctx,
    parts: SignedParts,
    h: Seq<(Seq<char>, Seq<char>)>,
) -> Seq<char> {
    let date = date_of(parts.amz_date);
    let signature = hex_of(
        hmac_of(
            signing_key(ctx, date),
            vstd::utf8::encode_utf8(string_to_sign(ctx, parts, h)),
        ),
    );
    "AWS4-HMAC-SHA256 Credential="@ + ctx.access_key@ + "/"@ + credential_scope(ctx, date)
        + ", SignedHeaders="@ + header_names(h) + ", Signature="@ + signature
}

/// `sorted` are the headers to sign, sorted by name.
pub open spec fn signs_headers(
    given: Seq<Header>,
    sorted: Seq<Header>,
    parts: SignedParts,
) -> bool {
    &&& header_pairs(given) == headers_to_sign(parts)
    &&& sorting::is_stable_sort(sorted, given)
}

/// `r` is the authorization of the request.
pub open spec fn is_authorization(r: Seq<char>, ctx: SigV4Ctx, parts: SignedParts) -> bool {
    exists|given: Seq<Header>, sorted: Seq<Header>| #[trigger]
        signs_headers(given, sorted, parts) && r == authorization(ctx, parts, header_pairs(sorted))
}

/// The canonical request says, line by line, what is asked for: its first line is the method, the
/// second the path, the third the query; its last line is the digest of the payload.
pub proof fn law_canonical_request_has_its_lines(
    parts: SignedParts,
    h: Seq<(Seq<char>, Seq<char>)>,
)
    ensures
        (parts.method.push('\n') + parts.uri.push('\n') + parts.query.push('\n')).is_prefix_of(
            canonical_request(parts, h),
        ),
        (seq!['\n'] + parts.payload_hash).is_suffix_of(canonical_request(parts, h)),
{
    reveal_strlit("\n");
    assert("\n"@ =~= seq!['\n']);
    let c = canonical_request(parts, h);
    let head = parts.method.push('\n') + parts.uri.push('\n') + parts.query.push('\n');
    let mid = header_lines(h) + "\n"@ + header_names(h);
    let tail = seq!['\n'] + parts.payload_hash;
    assert(c =~= head + mid + tail);
    assert(c.take(head.len() as int) =~= head);
    assert(c.skip(c.len() - tail.len()) =~= tail);
}

/// Two texts that hold no line feed, and what follows a line feed behind each, are the same where
/// the whole is.
proof fn lemma_same_line(a: Seq<char>, x: Seq<char>, b: Seq<char>, y: Seq<char>)
    requires
        !a.contains('\n'),
        !b.contains('\n'),
        a.push('\n') + x == b.push('\n') + y,
    ensures
        a == b,
        x == y,
{
    let s = a.push('\n') + x;
    let t = b.push('\n') + y;
    assert(s[a.len() as int] == '\n');
    assert(t[b.len() as int] == '\n');
    if a.len() < b.len() {
        assert(t[a.len() as int] == b[a.len() as int]);
        assert(b.contains('\n'));
    }
    if b.len() < a.len() {
        assert(s[b.len() as int] == a[b.len() as int]);
        assert(a.contains('\n'));
    }
    assert(s.take(a.len() as int) =~= a);
    assert(t.take(b.len() as int) =~= b);
    assert(s.skip(a.len() as int + 1) =~= x);
    assert(t.skip(b.len() as int + 1) =~= y);
}

/// The last line of a text, where no line feed is in it, is one.
proof fn lemma_same_last_line(x: Seq<char>, a: Seq<char>, y: Seq<char>, b: Seq<char>)
    requires
        !a.contains('\n'),
        !b.contains('\n'),
        x.push('\n') + a == y.push('\n') + b,
    ensures
        a == b,
{
    let s = x.push('\n') + a;
    let t = y.push('\n') + b;
    assert(s[x.len() as int] == '\n');
    assert(t[y.len() as int] == '\n');
    assert(s.len() == x.len() + 1 + a.len());
    assert(t.len() == y.len() + 1 + b.len());
    if x.len() < y.len() {
        assert(s[y.len() as int] == a[y.len() - x.len() - 1]);
        assert(a.contains('\n'));
    }
    if y.len() < x.len() {
        assert(t[x.len() as int] == b[x.len() - y.len() - 1]);
        assert(b.contains('\n'));
    }
    assert(s.skip(x.len() as int + 1) =~= a);
    assert(t.skip(y.len() as int + 1) =~= b);
}

/// The canonical request determines the request: two requests that differ in method, path, query
/// or digest of the payload, none of which holds a line feed, have different ones, whatever their
/// headers are.
pub proof fn law_canonical_request_determines_the_request(
    a: SignedParts,
    ha: Seq<(Seq<char>, Seq<char>)>,
    b: SignedParts,
    hb: Seq<(Seq<char>, Seq<char>)>,
)
    requires
        !a.method.contains('\n') && !b.method.contains('\n'),
        !a.uri.contains('\n') && !b.uri.contains('\n'),
        !a.query.contains('\n') && !b.query.contains('\n'),
        !a.payload_hash.contains('\n') && !b.payload_hash.contains('\n'),
        canonical_request(a, ha) == canonical_request(b, hb),
    ensures
        a.method == b.method,
        a.uri == b.uri,
        a.query == b.query,
        a.payload_hash == b.payload_hash,
{
    let (ma, mb) = (
        header_lines(ha) + seq!['\n'] + header_names(ha),
        header_lines(hb) + seq!['\n'] + header_names(hb),
    );
    let (qa, qb) = (ma.push('\n') + a.payload_hash, mb.push('\n') + b.payload_hash);
    let (ua, ub) = (a.query.push('\n') + qa, b.query.push('\n') + qb);
    let (xa, xb) = (a.uri.push('\n') + ua, b.uri.push('\n') + ub);
    lemma_canonical_nested(a, ha);
    lemma_canonical_nested(b, hb);
    lemma_same_line(a.method, xa, b.method, xb);
    lemma_same_line(a.uri, ua, b.uri, ub);
    lemma_same_line(a.query, qa, b.query, qb);
    lemma_same_last_line(ma, a.payload_hash, mb, b.payload_hash);
}

proof fn lemma_canonical_nested(p: SignedParts, h: Seq<(Seq<char>, Seq<char>)>)
    ensures
        canonical_request(p, h) == p.method.push('\n') + (p.uri.push('\n') + (p.query.push('\n') + ((
        header_lines(h) + seq!['\n'] + header_names(h)).push('\n') + p.payload_hash))),
{
    reveal_strlit("\n");
    assert("\n"@ =~= seq!['\n']);
    let m = header_lines(h) + seq!['\n'] + header_names(h);
    let q = m.push('\n') + p.payload_hash;
    let u = p.query.push('\n') + q;
    assert(canonical_request(p, h) =~= p.method.push('\n') + (p.uri.push('\n') + u));
}

/// Each header that is signed has a line of its own, its name, a colon and its value, and each
/// name is listed once, with a semicolon between two.
pub proof fn law_signed_headers_have_lines(
    a: Seq<(Seq<char>, Seq<char>)>,
    name: Seq<char>,
    value: Seq<char>,
    b: Seq<(Seq<char>, Seq<char>)>,
)
    ensures
        header_lines(a.push((name, value)) + b) == header_lines(a) + name + seq![':'] + value + seq![
            '\n',
        ] + header_lines(b),
        header_lines(seq![]).len() == 0,
        header_names(a.push((name, value))) == if a.len() == 0 {
            name
        } else {
            header_names(a) + seq![';'] + name
        },
    decreases b.len(),
{
    reveal_strlit("\n");
    reveal_strlit(":");
    reveal_strlit(";");
    assert("\n"@ =~= seq!['\n']);
    assert(":"@ =~= seq![':']);
    assert(";"@ =~= seq![';']);
    let all = a.push((name, value)) + b;
    if b.len() == 0 {
        assert(all =~= a.push((name, value)));
        assert(all.drop_last() =~= a);
        assert(header_lines(all) =~= header_lines(a) + name + seq![':'] + value + seq!['\n']
            + header_lines(b));
    } else {
        law_signed_headers_have_lines(a, name, value, b.drop_last());
        assert(all.drop_last() =~= a.push((name, value)) + b.drop_last());
        assert(all.last() == b.last());
        assert(header_lines(all) =~= header_lines(a) + name + seq![':'] + value + seq!['\n']
            + header_lines(b));
    }
    assert(a.push((name, value)).drop_last() =~= a);
}

/// What a request is signed with: the host, the time and every extra header are among the signed
/// headers, sorted by name; the signature is the code, under the key of the day, the region and
/// the service, of a text that ends in the digest of method, path, query, these headers and the
/// digest of the payload.
pub proof fn law_signature_covers_the_request(r: Seq<char>, ctx: SigV4Ctx, parts: SignedParts)
    requires
        is_authorization(r, ctx, parts),
    ensures
        exists|h: Seq<(Seq<char>, Seq<char>)>|
            {
                let canon = parts.method + seq!['\n'] + parts.uri + seq!['\n'] + parts.query + seq![
                    '\n',
                ] + header_lines(h) + seq!['\n'] + header_names(h) + seq!['\n']
                    + parts.payload_hash;
                let utf8 = |s: Seq<char>| vstd::utf8::encode_utf8(s);
                let date = vstd::utf8::decode_utf8(
                    vstd::utf8::encode_utf8(parts.amz_date).subrange(0, 8),
                );
                let scope = date + seq!['/'] + ctx.region@ + seq!['/'] + ctx.service@
                    + "/aws4_request"@;
                let key = hmac_of(
                    hmac_of(
                        hmac_of(
                            hmac_of(utf8("AWS4"@ + ctx.secret_key@), utf8(date)),
                            utf8(ctx.region@),
                        ),
                        utf8(ctx.service@),
                    ),
                    utf8("aws4_request"@),
                );
                let text = "AWS4-HMAC-SHA256\n"@ + parts.amz_date + seq!['\n'] + scope + seq!['\n']
                    + hex_of(sha256_of(utf8(canon)));
                &&& #[trigger] h.to_multiset() == (seq![
                    ("host"@, parts.host),
                    ("x-amz-date"@, parts.amz_date),
                ] + parts.extra.map_values(
                    |p: (Seq<char>, Seq<char>)| (text::lowercase_of(p.0), text::trimmed(p.1)),
                )).to_multiset()
                &&& forall|i: int, j: int|
                    0 <= i < j < h.len() ==> !sorting::comes_before(
                        (#[trigger] h[j]).0,
                        (#[trigger] h[i]).0,
                    )
                &&& r == "AWS4-HMAC-SHA256 Credential="@ + ctx.access_key@ + seq!['/'] + scope
                    + ", SignedHeaders="@ + header_names(h) + ", Signature="@ + hex_of(
                    hmac_of(key, utf8(text)),
                )
            },
{
    reveal_strlit("\n");
    reveal_strlit("/");
    assert("\n"@ =~= seq!['\n']);
    assert("/"@ =~= seq!['/']);
    let (given, sorted) = choose|given: Seq<Header>, sorted: Seq<Header>| #[trigger]
        signs_headers(given, sorted, parts) && r == authorization(ctx, parts, header_pairs(sorted));
    let h = header_pairs(sorted);
    let order = choose|order: Seq<int>| #[trigger]
        sorting::is_order(order, given, 0, given.len() as int) && sorted == sorting::reordered(
            given,
            order,
        );
    sorting::lemma_order_is_permutation(order, given);
    sorting::lemma_reordered_elements(header_pairs(given), order);
    assert(h =~= sorting::reordered(header_pairs(given), order));
    assert forall|i: int, j: int| 0 <= i < j < h.len() implies !sorting::comes_before(
        (#[trigger] h[j]).0,
        (#[trigger] h[i]).0,
    ) by {
        sorting::lemma_stable_sort_sorted(sorted, given, i, j);
        sorting::law_text_order(h[j].0, h[i].0);
    }
    assert(h.to_multiset() == headers_to_sign(parts).to_multiset());
}

fn lines_of(h: &Vec<Header>) -> (r: String)
    ensures
        r@ == header_lines(header_pairs(h@)),
{
    let mut r = String::new();
    let mut i: usize = 0;
    let ghost pairs = header_pairs(h@);
    assert(r@ =~= header_lines(pairs.take(0)));
    while i < h.len()
        invariant
            i <= h@.len(),
            pairs == header_pairs(h@),
            r@ == header_lines(pairs.take(i as int)),
        decreases h@.len() - i,
    {
        let mut line = h[i].name.clone();
        line.append(":");
        line.append(h[i].value.as_str());
        line.append("\n");
        r.append(line.as_str());
        i += 1;
        assert(pairs.take(i as int).drop_last() =~= pairs.take(i - 1));
    }
    assert(pairs.take(i as int) =~= pairs);
    r
}

fn names_of(h: &Vec<Header>) -> (r: String)
    ensures
        r@ == header_names(header_pairs(h@)),
{
    let mut r = String::new();
    let mut i: usize = 0;
    let ghost pairs = header_pairs(h@);
    assert(r@ =~= header_names(pairs.take(0)));
    while i < h.len()
        invariant
            i <= h@.len(),
            pairs == header_pairs(h@),
            r@ == header_names(pairs.take(i as int)),
        decreases h@.len() - i,
    {
        if i == 0 {
            r = h[i].name.clone();
        } else {
            r.append(";");
            r.append(h[i].name.as_str());
        }
        i += 1;
        assert(pairs.take(i as int).drop_last() =~= pairs.take(i - 1));
    }
    assert(pairs.take(i as int) =~= pairs);
    r
}

fn all_headers(host: &str, amz_date: &str, extra: &Vec<Header>) -> (r: Vec<Header>)
    ensures
        header_pairs(r@) == seq![("host"@, host@), ("x-amz-date"@, amz_date@)] + header_pairs(
            extra@,
        ).map_values(|p: (Seq<char>, Seq<char>)| (text::lowercase_of(p.0), text::trimmed(p.1))),
{
    let mut r: Vec<Header> = Vec::new();
    r.push(header("host", host));
    r.push(header("x-amz-date", amz_date));
    let ghost f = |p: (Seq<char>, Seq<char>)| (text::lowercase_of(p.0), text::trimmed(p.1));
    let ghost base = seq![("host"@, host@), ("x-amz-date"@, amz_date@)];
    let ghost pairs = header_pairs(extra@);
    let mut i: usize = 0;
    assert(header_pairs(r@) =~= base + pairs.take(0).map_values(f));
    while i < extra.len()
        invariant
            i <= extra@.len(),
            pairs == header_pairs(extra@),
            f == |p: (Seq<char>, Seq<char>)| (text::lowercase_of(p.0), text::trimmed(p.1)),
            header_pairs(r@) == base + pairs.take(i as int).map_values(f),
        decreases extra@.len() - i,
    {
        let ghost before = r@;
        let one = Header {
            name: to_lowercase(extra[i].name.as_str()),
            value: trim(extra[i].value.as_str()),
        };
        r.push(one);
        i += 1;
        assert(header_pairs(r@) =~= header_pairs(before).push((one.name@, one.value@)));
        assert(pairs.take(i as int).map_values(f) =~= pairs.take(i - 1).map_values(f).push(
            f(pairs[i - 1]),
        ));
        assert(header_pairs(r@) =~= base + pairs.take(i as int).map_values(f));
    }
    assert(pairs.take(i as int) =~= pairs);
    r
}

fn signing_key_of(ctx: &SigV4Ctx, date: &str) -> (r: Vec<u8>)
    ensures
        r@ == signing_key(*ctx, date@),
{
    let first = concat2("AWS4", ctx.secret_key);
    let k_date = hmac_sha256(first.as_str().as_bytes(), date.as_bytes());
    let k_region = hmac_sha256(k_date.as_slice(), ctx.region.as_bytes());
    let k_service = hmac_sha256(k_region.as_slice(), ctx.service.as_bytes());
    hmac_sha256(k_service.as_slice(), "aws4_request".as_bytes())
}

fn scope_of(ctx: &SigV4Ctx, date: &str) -> (r: String)
    ensures
        r@ == credential_scope(*ctx, date@),
{
    let mut r = date.to_owned();
    r.append("/");
    r.append(ctx.region);
    r.append("/");
    r.append(ctx.service);
    r.append("/aws4_request");
    r
}

/// The value of the authorization header for a request.
pub fn sigv4_sign(
    ctx: &SigV4Ctx,
    method: &str,
    host: &str,
    canonical_uri: &str,
    canonical_querystring: &str,
    payload_hash: &str,
    amz_date: &str,
    extra_headers: &Vec<Header>,
) -> (r: String)
    requires
        starts_with_date(amz_date@),
    ensures
        is_authorization(
            r@,
            *ctx,
            (SignedParts {
                method: method@,
                host: host@,
                uri: canonical_uri@,
                query: canonical_querystring@,
                payload_hash: payload_hash@,
                amz_date: amz_date@,
                extra: header_pairs(extra_headers@),
            }),
        ),
{
    let ghost parts = SignedParts {
        method: method@,
        host: host@,
        uri: canonical_uri@,
        query: canonical_querystring@,
        payload_hash: payload_hash@,
        amz_date: amz_date@,
        extra: header_pairs(extra_headers@),
    };
    let given = all_headers(host, amz_date, extra_headers);
    let sorted = sort_stable(&given);
    let lines = lines_of(&sorted);
    let names = names_of(&sorted);
    let mut request = method.to_owned();
    request.append("\n");
    request.append(canonical_uri);
    request.append("\n");
    request.append(canonical_querystring);
    request.append("\n");
    request.append(lines.as_str());
    request.append("\n");
    request.append(names.as_str());
    request.append("\n");
    request.append(payload_hash);
    assert(request@ == canonical_request(parts, header_pairs(sorted@)));
    let date = amz_date.split_at(8).0;
    proof {
        vstd::utf8::encode_utf8_decode_utf8(date@);
        assert(date@ == date_of(amz_date@));
    }
    let scope = scope_of(ctx, date);
    let digest = sha256_hex(request.as_str().as_bytes());
    let mut to_sign = "AWS4-HMAC-SHA256\n".to_owned();
    to_sign.append(amz_date);
    to_sign.append("\n");
    to_sign.append(scope.as_str());
    to_sign.append("\n");
    to_sign.append(digest.as_str());
    assert(to_sign@ == string_to_sign(*ctx, parts, header_pairs(sorted@)));
    let key = signing_key_of(ctx, date);
    let code = hmac_sha256(key.as_slice(), to_sign.as_str().as_bytes());
    let signature = hex(code.as_slice());
    let mut r = "AWS4-HMAC-SHA256 Credential=".to_owned();
    r.append(ctx.access_key);
    r.append("/");
    r.append(scope.as_str());
    r.append(", SignedHeaders=");
    r.append(names.as_str());
    r.append(", Signature=");
    r.append(signature.as_str());
    assert(r@ == authorization(*ctx, parts, header_pairs(sorted@)));
    assert(signs_headers(given@, sorted@, parts));
    r
}

/// Each byte is shown by two digits, the higher one first; ten to fifteen are shown by letters.
pub proof fn law_bytes_are_shown_by_two_digits(data: Seq<u8>, b: u8, n: int)
    ensures
        hex_of(seq![]).len() == 0,
        hex_of(data.push(b)) == hex_of(data) + seq![
            hex_digit(b as int / 16),
            hex_digit(b as int % 16),
        ],
        0 <= n < 16 ==> hex_digit(n) == seq![
            '0',
            '1',
            '2',
            '3',
            '4',
            '5',
            '6',
            '7',
            '8',
            '9',
            'a',
            'b',
            'c',
            'd',
            'e',
            'f',
        ][n],
{
    assert(hex_of(data.push(b)) =~= hex_of(data) + seq![
        hex_digit(b as int / 16),
        hex_digit(b as int % 16),
    ]);
}

} // verus!
