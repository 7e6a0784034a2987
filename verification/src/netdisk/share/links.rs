//! Reading the links of shares.
use vstd::prelude::*;

use crate::text;
use crate::text::{concat2, contains, trim};
use crate::transfer::{ShareKind, ShareLink};

verus! {

/// Where the key of a share stands in a link.
#[derive(Debug, Clone, Copy, PartialEq, Eq, Structural)]
pub enum LinkPart {
    /// The key after `/s/`.
    Path,
    /// The key in the query parameter `surl`.
    Surl,
    /// The password in the query parameter `pwd`.
    Password,
}

/// An ASCII letter or digit.
pub open spec fn is_alnum(c: char) -> bool {
    ||| 'a' <= c <= 'z'
    ||| 'A' <= c <= 'Z'
    ||| '0' <= c <= '9'
}

/// A character that keys are made of.
pub open spec fn is_key_char(c: char) -> bool {
    is_alnum(c) || c == '_' || c == '-'
}

/// Whether a text is not empty and made of such characters.
pub open spec fn is_key(s: Seq<char>) -> bool {
    s.len() > 0 && forall|i: int| 0 <= i < s.len() ==> is_key_char(#[trigger] s[i])
}

/// Whether a text is four ASCII letters and digits.
pub open spec fn is_password(s: Seq<char>) -> bool {
    s.len() == 4 && forall|i: int| 0 <= i < s.len() ==> is_alnum(#[trigger] s[i])
}

/// Whether a query parameter of that name begins at a position.
pub open spec fn parameter_at(s: Seq<char>, name: Seq<char>, i: int) -> bool {
    0 <= i < s.len() && (s[i] == '?' || s[i] == '&') && text::stands_at(s, name, i + 1)
}

/// The length of what stands before the part, from where it is recognised.
pub open spec fn lead(part: LinkPart) -> int {
    match part {
        LinkPart::Path => 3,
        LinkPart::Surl => 6,
        LinkPart::Password => 5,
    }
}

/// Whether the part is recognised at a position: what stands before it, and then at least
/// one character of a key, or the four of a password.
pub open spec fn part_at(s: Seq<char>, part: LinkPart, i: int) -> bool {
    match part {
        LinkPart::Path => text::stands_at(s, "/s/"@, i) && i + 3 < s.len() && is_key_char(s[i + 3]),
        LinkPart::Surl => parameter_at(s, "surl="@, i) && i + 6 < s.len() && is_key_char(s[i + 6]),
        LinkPart::Password => parameter_at(s, "pwd="@, i) && i + 9 <= s.len() && is_password(
            s.subrange(i + 5, i + 9),
        ),
    }
}

/// The first position from `i` on at which the part is recognised.
pub open spec fn first_part(s: Seq<char>, part: LinkPart, i: int) -> Option<int>
    decreases s.len() - i,
{
    if i >= s.len() {
        None
    } else if part_at(s, part, i) {
        Some(i)
    } else {
        first_part(s, part, i + 1)
    }
}

/// The end of the characters of a key that stand from `i` on.
pub open spec fn key_end(s: Seq<char>, i: int) -> int
    decreases s.len() - i,
{
    if 0 <= i < s.len() && is_key_char(s[i]) {
        key_end(s, i + 1)
    } else {
        i
    }
}

/// The part of a link: from where it is first recognised, all characters of the key, or
/// the four of the password.
pub open spec fn link_part(s: Seq<char>, part: LinkPart) -> Option<Seq<char>> {
    match first_part(s, part, 0) {
        None => None,
        Some(i) => {
            let from = i + lead(part);
            let to = if part == LinkPart::Password {
                from + 4
            } else {
                key_end(s, from)
            };
            Some(s.subrange(from, to))
        },
    }
}

/// The part that is the first group of a regular expression.
pub open spec fn part_named(pattern: Seq<char>) -> Option<LinkPart> {
    if pattern == "/s/([a-zA-Z0-9_-]+)"@ {
        Some(LinkPart::Path)
    } else if pattern == "[?&]surl=([a-zA-Z0-9_-]+)"@ {
        Some(LinkPart::Surl)
    } else if pattern == "[?&]pwd=([a-zA-Z0-9]{4})"@ {
        Some(LinkPart::Password)
    } else {
        None
    }
}

/// `regex::Regex::new` and `regex::Regex::captures`: the text of the first group of the
/// first match of one of three expressions, `None` where there is no match. A match begins
/// as early as it can, and its repetitions take all that they can. The three expressions
/// are valid.
#[verifier::external_body]
fn first_group(pattern: &str, s: &str) -> (r: Option<String>)
    requires
        part_named(pattern@) is Some,
    ensures
        text::opt_text(r) == link_part(s@, part_named(pattern@)->0),
{
    regex::Regex::new(pattern).ok()?.captures(s)?.get(1).map(|m| m.as_str().to_string())
}

fn find_part(s: &str, part: LinkPart) -> (r: Option<String>)
    ensures
        text::opt_text(r) == link_part(s@, part),
{
    proof {
        reveal_strlit("/s/([a-zA-Z0-9_-]+)");
        reveal_strlit("[?&]surl=([a-zA-Z0-9_-]+)");
        reveal_strlit("[?&]pwd=([a-zA-Z0-9]{4})");
        assert("/s/([a-zA-Z0-9_-]+)"@[0] == '/');
        assert("[?&]surl=([a-zA-Z0-9_-]+)"@[4] == 's');
        assert("[?&]pwd=([a-zA-Z0-9]{4})"@[4] == 'p');
        assert("[?&]surl=([a-zA-Z0-9_-]+)"@[0] == '[');
        assert("[?&]pwd=([a-zA-Z0-9]{4})"@[0] == '[');
    }
    match part {
        LinkPart::Path => first_group("/s/([a-zA-Z0-9_-]+)", s),
        LinkPart::Surl => first_group("[?&]surl=([a-zA-Z0-9_-]+)", s),
        LinkPart::Password => first_group("[?&]pwd=([a-zA-Z0-9]{4})", s),
    }
}

/// What a link says.
#[verifier::ext_equal]
pub struct LinkView {
    pub short_key: Seq<char>,
    pub raw_url: Seq<char>,
    pub password: Option<Seq<char>>,
    pub kind: ShareKind,
}

impl View for ShareLink {
    type V = LinkView;

    open spec fn view(&self) -> LinkView {
        LinkView {
            short_key: self.short_key@,
            raw_url: self.raw_url@,
            password: text::opt_text(self.password),
            kind: self.kind,
        }
    }
}

/// Whether a link leads to the enterprise system, which has two entrances.
pub open spec fn leads_to_apaas(url: Seq<char>) -> bool {
    text::occurs(url, "/apaas/share"@) || text::occurs(url, "/netdisk/share"@)
}

fn is_apaas_route(url: &str) -> (r: bool)
    ensures
        r == leads_to_apaas(url@),
{
    contains(url, "/apaas/share") || contains(url, "/netdisk/share")
}

/// The link to a share of the enterprise system. Its key stands as it is.
pub open spec fn apaas_link(url: Seq<char>) -> Option<LinkView> {
    if !leads_to_apaas(url) {
        None
    } else {
        match link_part(url, LinkPart::Surl) {
            Some(key) => Some(
                LinkView {
                    short_key: key,
                    raw_url: url,
                    password: link_part(url, LinkPart::Password),
                    kind: ShareKind::Apaas,
                },
            ),
            None => None,
        }
    }
}

/// The link to a personal share. A key in the query lacks the `1` that it begins with.
pub open spec fn personal_link(url: Seq<char>) -> Option<LinkView> {
    if leads_to_apaas(url) {
        None
    } else {
        let key = match link_part(url, LinkPart::Path) {
            Some(k) => Some(k),
            None => match link_part(url, LinkPart::Surl) {
                Some(k) => Some("1"@ + k),
                None => None,
            },
        };
        match key {
            Some(k) => Some(
                LinkView {
                    short_key: k,
                    raw_url: url,
                    password: link_part(url, LinkPart::Password),
                    kind: ShareKind::Personal,
                },
            ),
            None => None,
        }
    }
}

/// The link of a system.
pub open spec fn link_of_kind(kind: ShareKind, url: Seq<char>) -> Option<LinkView> {
    match kind {
        ShareKind::Apaas => apaas_link(url),
        ShareKind::Personal => personal_link(url),
    }
}

/// `r` is the link that `v` describes.
pub open spec fn same_link(r: Option<ShareLink>, v: Option<LinkView>) -> bool {
    match (r, v) {
        (Some(l), Some(x)) => l@ == x,
        (None, None) => true,
        _ => false,
    }
}

/// The link to a share of the enterprise system.
pub fn parse_apaas_link(url: &str) -> (r: Option<ShareLink>)
    ensures
        same_link(r, apaas_link(url@)),
{
    if !is_apaas_route(url) {
        return None;
    }
    match find_part(url, LinkPart::Surl) {
        Some(short_key) => Some(
            ShareLink {
                short_key,
                raw_url: url.to_owned(),
                password: find_part(url, LinkPart::Password),
                kind: ShareKind::Apaas,
            },
        ),
        None => None,
    }
}

/// The link to a personal share.
pub fn parse_personal_link(url: &str) -> (r: Option<ShareLink>)
    ensures
        same_link(r, personal_link(url@)),
{
    if is_apaas_route(url) {
        return None;
    }
    let short_key = match find_part(url, LinkPart::Path) {
        Some(k) => k,
        None => match find_part(url, LinkPart::Surl) {
            Some(k) => concat2("1", k.as_str()),
            None => {
                return None;
            },
        },
    };
    Some(
        ShareLink {
            short_key,
            raw_url: url.to_owned(),
            password: find_part(url, LinkPart::Password),
            kind: ShareKind::Personal,
        },
    )
}

/// Whether a text looks like a link of the service.
pub open spec fn is_service_link(url: Seq<char>) -> bool {
    text::occurs(url, "pan.baidu.com"@) || text::occurs(url, "baidu.com/s/"@)
}

/// The share that a text links to, or why it links to none. The enterprise system comes
/// first: to the personal one its links would look like links of its own.
pub open spec fn share_link(given: Seq<char>) -> Result<LinkView, Seq<char>> {
    let url = text::trimmed(given);
    if !is_service_link(url) {
        Err("无效的分享链接：不是百度网盘链接"@)
    } else {
        match apaas_link(url) {
            Some(l) => Ok(l),
            None => match personal_link(url) {
                Some(l) => Ok(l),
                None => Err("无法从链接中提取分享 ID"@),
            },
        }
    }
}

/// The share that a text links to.
pub fn parse_share_link(url: &str) -> (r: Result<ShareLink, String>)
    ensures
        match r {
            Ok(l) => share_link(url@) == Ok::<LinkView, Seq<char>>(l@),
            Err(e) => share_link(url@) == Err::<LinkView, Seq<char>>(e@),
        },
{
    let url = trim(url);
    if !contains(url.as_str(), "pan.baidu.com") && !contains(url.as_str(), "baidu.com/s/") {
        return Err("无效的分享链接：不是百度网盘链接".to_owned());
    }
    match parse_apaas_link(url.as_str()) {
        Some(link) => {
            return Ok(link);
        },
        None => {},
    }
    match parse_personal_link(url.as_str()) {
        Some(link) => Ok(link),
        None => Err("无法从链接中提取分享 ID".to_owned()),
    }
}

// ---------------------------------------------------------------------------
// Links that are read back
// ---------------------------------------------------------------------------
proof fn lemma_first_part(s: Seq<char>, part: LinkPart, i: int, k: int)
    requires
        0 <= i <= k < s.len(),
        forall|j: int| i <= j < k ==> !part_at(s, part, j),
        part_at(s, part, k),
    ensures
        first_part(s, part, i) == Some(k),
    decreases k - i,
{
    if i < k {
        assert(!part_at(s, part, i));
        lemma_first_part(s, part, i + 1, k);
    }
}

proof fn lemma_no_part(s: Seq<char>, part: LinkPart, i: int)
    requires
        0 <= i,
        forall|j: int| i <= j < s.len() ==> !part_at(s, part, j),
    ensures
        first_part(s, part, i) is None,
    decreases s.len() - i,
{
    if i < s.len() {
        assert(!part_at(s, part, i));
        lemma_no_part(s, part, i + 1);
    }
}

proof fn lemma_key_end(s: Seq<char>, i: int, k: int)
    requires
        0 <= i <= k <= s.len(),
        forall|j: int| i <= j < k ==> is_key_char(s[j]),
        k < s.len() ==> !is_key_char(s[k]),
    ensures
        key_end(s, i) == k,
    decreases k - i,
{
    if i < k {
        assert(is_key_char(s[i]));
        lemma_key_end(s, i + 1, k);
    }
}

/// The query of a link: its password, where it has one.
pub open spec fn password_query(sep: char, password: Option<Seq<char>>) -> Seq<char> {
    match password {
        Some(p) => seq![sep] + "pwd="@ + p,
        None => Seq::empty(),
    }
}

/// What is read of a password that ends a link: the password. `head` is what stands before
/// it, and no password is recognised in that.
proof fn lemma_password(head: Seq<char>, sep: char, password: Option<Seq<char>>)
    requires
        sep == '?' || sep == '&',
        password matches Some(p) ==> is_password(p),
        forall|j: int|
            0 <= j < head.len() && (head[j] == '?' || head[j] == '&') ==> j + 1 < head.len()
                && #[trigger] head[j + 1] != 'p',
    ensures
        link_part(head + password_query(sep, password), LinkPart::Password) == password,
{
    let s = head + password_query(sep, password);
    let n = head.len() as int;
    reveal_strlit("pwd=");
    let w = "pwd="@;
    assert(w.len() == 4 && w[0] == 'p');
    assert forall|j: int| 0 <= j < n implies !part_at(s, LinkPart::Password, j) by {
        assert(s[j] == head[j]);
        if s[j] == '?' || s[j] == '&' {
            assert(head[j + 1] != 'p');
            assert(s[j + 1] == head[j + 1]);
            if text::stands_at(s, w, j + 1) {
                assert(s.subrange(j + 1, j + 5)[0] == w[0]);
            }
        }
    }
    match password {
        Some(p) => {
            assert(s.len() == n + 9);
            assert(s[n] == sep);
            assert(s.subrange(n + 1, n + 5) =~= w);
            assert(s.subrange(n + 5, n + 9) =~= p);
            assert(part_at(s, LinkPart::Password, n));
            lemma_first_part(s, LinkPart::Password, 0, n);
        },
        None => {
            assert(s =~= head);
            lemma_no_part(s, LinkPart::Password, 0);
        },
    }
}

proof fn lemma_not_space(c: char)
    requires
        is_key_char(c) || c == 'h',
    ensures
        !text::is_space(c),
{
}

proof fn lemma_trimmed(s: Seq<char>)
    requires
        s.len() > 0,
        !text::is_space(s[0]),
        !text::is_space(s.last()),
    ensures
        text::trimmed(s) == s,
{
}

/// A link to a share of the enterprise system is read back as that share: its key as it
/// is, and its password.
pub proof fn law_apaas_link_reads_back(key: Seq<char>, password: Option<Seq<char>>)
    requires
        is_key(key),
        password matches Some(p) ==> is_password(p),
    ensures
        ({
            let url = "https://pan.baidu.com/apaas/share?surl="@ + key + password_query(
                '&',
                password,
            );
            share_link(url) == Ok::<LinkView, Seq<char>>(
                LinkView { short_key: key, raw_url: url, password, kind: ShareKind::Apaas },
            )
        }),
{
    let lit = "https://pan.baidu.com/apaas/share?surl="@;
    let head = lit + key;
    let url = head + password_query('&', password);
    reveal_strlit("https://pan.baidu.com/apaas/share?surl=");
    reveal_strlit("surl=");
    reveal_strlit("pan.baidu.com");
    reveal_strlit("/apaas/share");
    reveal_strlit("pwd=");
    assert(lit.len() == 39);
    assert(lit[0] == 'h' && lit[1] == 't' && lit[2] == 't' && lit[3] == 'p');
    assert(lit[4] == 's' && lit[5] == ':' && lit[6] == '/' && lit[7] == '/');
    assert(lit[8] == 'p' && lit[9] == 'a' && lit[10] == 'n' && lit[11] == '.');
    assert(lit[12] == 'b' && lit[13] == 'a' && lit[14] == 'i' && lit[15] == 'd');
    assert(lit[16] == 'u' && lit[17] == '.' && lit[18] == 'c' && lit[19] == 'o');
    assert(lit[20] == 'm' && lit[21] == '/' && lit[22] == 'a' && lit[23] == 'p');
    assert(lit[24] == 'a' && lit[25] == 'a' && lit[26] == 's' && lit[27] == '/');
    assert(lit[28] == 's' && lit[29] == 'h' && lit[30] == 'a' && lit[31] == 'r');
    assert(lit[32] == 'e' && lit[33] == '?' && lit[34] == 's' && lit[35] == 'u');
    assert(lit[36] == 'r' && lit[37] == 'l' && lit[38] == '=');
    assert forall|j: int| 0 <= j < 33 implies lit[j] != '?' && lit[j] != '&' by {
        assert(j == 0 || j == 1 || j == 2 || j == 3 || j == 4 || j == 5 || j == 6 || j == 7 || j == 8 || j == 9
            || j == 10 || j == 11 || j == 12 || j == 13 || j == 14 || j == 15 || j == 16 || j == 17 || j == 18 || j == 19
            || j == 20 || j == 21 || j == 22 || j == 23 || j == 24 || j == 25 || j == 26 || j == 27 || j == 28 || j == 29
            || j == 30 || j == 31 || j == 32);
    }
    let k = (lit.len() + key.len()) as int;
    assert forall|j: int| 0 <= j < k implies url[j] == head[j] by {}
    assert forall|j: int| 39 <= j < k implies is_key_char(url[j]) by {
        assert(url[j] == key[j - 39]);
    }
    assert(url.subrange(8, 21) =~= "pan.baidu.com"@);
    assert(text::stands_at(url, "pan.baidu.com"@, 8));
    assert(url.subrange(21, 33) =~= "/apaas/share"@);
    assert(text::stands_at(url, "/apaas/share"@, 21));
    let q = 33int;
    assert(url.subrange(q + 1, q + 6) =~= "surl="@);
    assert(part_at(url, LinkPart::Surl, q));
    assert forall|j: int| 0 <= j < q implies !part_at(url, LinkPart::Surl, j) by {
        assert(url[j] == lit[j]);
    }
    lemma_first_part(url, LinkPart::Surl, 0, q);
    lemma_key_end(url, 39, k);
    assert(url.subrange(39, k) =~= key);
    assert forall|j: int|
        0 <= j < head.len() && (head[j] == '?' || head[j] == '&') implies j + 1 < head.len()
        && #[trigger] head[j + 1] != 'p' by {
        if j >= 39 {
            assert(head[j] == key[j - 39]);
        } else if j < q {
            assert(head[j] == lit[j]);
        } else {
            assert(head[j] == lit[j] && head[j + 1] == (head)[j + 1]);
            assert(j == q || j == q + 1 || j == q + 2 || j == q + 3 || j == q + 4 || j == q + 5);
            assert(head[q + 1] == 's');
        }
    }
    lemma_password(head, '&', password);
    lemma_not_space(url[0]);
    assert(is_key_char(url.last())) by {
        match password {
            Some(p) => {
                assert(url.last() == p[3]);
            },
            None => {
                assert(url.last() == key[key.len() - 1]);
            },
        }
    }
    lemma_not_space(url.last());
    lemma_trimmed(url);
    assert(url == lit + key + password_query('&', password));
}

/// A link to a personal share is read back as that share: its key and its password.
pub proof fn law_personal_link_reads_back(key: Seq<char>, password: Option<Seq<char>>)
    requires
        is_key(key),
        password matches Some(p) ==> is_password(p),
    ensures
        ({
            let url = "https://pan.baidu.com/s/"@ + key + password_query('?', password);
            share_link(url) == Ok::<LinkView, Seq<char>>(
                LinkView { short_key: key, raw_url: url, password, kind: ShareKind::Personal },
            )
        }),
{
    let lit = "https://pan.baidu.com/s/"@;
    let head = lit + key;
    let url = head + password_query('?', password);
    reveal_strlit("https://pan.baidu.com/s/");
    reveal_strlit("/s/");
    reveal_strlit("pan.baidu.com");
    reveal_strlit("/apaas/share");
    reveal_strlit("/netdisk/share");
    reveal_strlit("pwd=");
    assert(lit.len() == 24);
    assert(lit[0] == 'h' && lit[1] == 't' && lit[2] == 't' && lit[3] == 'p');
    assert(lit[4] == 's' && lit[5] == ':' && lit[6] == '/' && lit[7] == '/');
    assert(lit[8] == 'p' && lit[9] == 'a' && lit[10] == 'n' && lit[11] == '.');
    assert(lit[12] == 'b' && lit[13] == 'a' && lit[14] == 'i' && lit[15] == 'd');
    assert(lit[16] == 'u' && lit[17] == '.' && lit[18] == 'c' && lit[19] == 'o');
    assert(lit[20] == 'm' && lit[21] == '/' && lit[22] == 's' && lit[23] == '/');
    let k = (lit.len() + key.len()) as int;
    assert forall|j: int| 0 <= j < k implies url[j] == head[j] by {}
    assert forall|j: int| 24 <= j < k implies is_key_char(url[j]) by {
        assert(url[j] == key[j - 24]);
    }
    assert forall|j: int| 24 <= j < url.len() implies url[j] != '/' by {
        if j >= k {
            let p = password->0;
            if j > k + 4 {
                assert(url[j] == p[j - k - 5]);
                assert(is_alnum(p[j - k - 5]));
            } else if j > k {
                assert(url[j] == "pwd="@[j - k - 1]);
                assert("pwd="@[0] == 'p' && "pwd="@[1] == 'w' && "pwd="@[2] == 'd' && "pwd="@[3]
                    == '=');
                assert(j == k + 1 || j == k + 2 || j == k + 3 || j == k + 4);
            }
        }
    }
    assert(url.subrange(8, 21) =~= "pan.baidu.com"@);
    assert(text::stands_at(url, "pan.baidu.com"@, 8));
    assert("/apaas/share"@[0] == '/' && "/apaas/share"@[1] == 'a' && "/apaas/share"@[6] == '/');
    assert("/netdisk/share"@[0] == '/' && "/netdisk/share"@[1] == 'n' && "/netdisk/share"@[8]
        == '/');
    assert forall|i: int| !text::stands_at(url, "/apaas/share"@, i) by {
        if text::stands_at(url, "/apaas/share"@, i) {
            let t = url.subrange(i, i + 12);
            assert(t[0] == url[i] && t[1] == url[i + 1] && t[6] == url[i + 6]);
            assert(i < 24);
            assert(i == 0 || i == 1 || i == 2 || i == 3 || i == 4 || i == 5 || i == 6 || i == 7 || i == 8 || i == 9
            || i == 10 || i == 11 || i == 12 || i == 13 || i == 14 || i == 15 || i == 16 || i == 17 || i == 18 || i == 19
            || i == 20 || i == 21 || i == 22 || i == 23);
        }
    }
    assert forall|i: int| !text::stands_at(url, "/netdisk/share"@, i) by {
        if text::stands_at(url, "/netdisk/share"@, i) {
            let t = url.subrange(i, i + 14);
            assert(t[0] == url[i] && t[1] == url[i + 1] && t[8] == url[i + 8]);
            assert(i < 24);
            assert(i == 0 || i == 1 || i == 2 || i == 3 || i == 4 || i == 5 || i == 6 || i == 7 || i == 8 || i == 9
            || i == 10 || i == 11 || i == 12 || i == 13 || i == 14 || i == 15 || i == 16 || i == 17 || i == 18 || i == 19
            || i == 20 || i == 21 || i == 22 || i == 23);
        }
    }
    assert(!leads_to_apaas(url));
    let q = 21int;
    assert(url.subrange(q, q + 3) =~= "/s/"@);
    assert(part_at(url, LinkPart::Path, q));
    assert forall|j: int| 0 <= j < q implies !part_at(url, LinkPart::Path, j) by {
        if text::stands_at(url, "/s/"@, j) {
            let t = url.subrange(j, j + 3);
            assert(t[0] == url[j] && t[1] == url[j + 1]);
            assert("/s/"@[0] == '/' && "/s/"@[1] == 's');
            assert(j == 0 || j == 1 || j == 2 || j == 3 || j == 4 || j == 5 || j == 6 || j == 7 || j == 8 || j == 9
            || j == 10 || j == 11 || j == 12 || j == 13 || j == 14 || j == 15 || j == 16 || j == 17 || j == 18 || j == 19
            || j == 20);
        }
    }
    lemma_first_part(url, LinkPart::Path, 0, q);
    lemma_key_end(url, 24, k);
    assert(url.subrange(24, k) =~= key);
    assert forall|j: int|
        0 <= j < head.len() && (head[j] == '?' || head[j] == '&') implies j + 1 < head.len()
        && #[trigger] head[j + 1] != 'p' by {
        if j >= 24 {
            assert(head[j] == key[j - 24]);
        } else {
            assert(head[j] == lit[j]);
            assert(j == 0 || j == 1 || j == 2 || j == 3 || j == 4 || j == 5 || j == 6 || j == 7 || j == 8 || j == 9
            || j == 10 || j == 11 || j == 12 || j == 13 || j == 14 || j == 15 || j == 16 || j == 17 || j == 18 || j == 19
            || j == 20 || j == 21 || j == 22 || j == 23);
        }
    }
    lemma_password(head, '?', password);
    lemma_not_space(url[0]);
    assert(is_key_char(url.last())) by {
        match password {
            Some(p) => {
                assert(url.last() == p[3]);
            },
            None => {
                assert(url.last() == key[key.len() - 1]);
            },
        }
    }
    lemma_not_space(url.last());
    lemma_trimmed(url);
    assert(url == lit + key + password_query('?', password));
}

/// Where a key or a password is read of a link, it stands behind its sign, holds what such a thing
/// may hold, is read whole, and is the first of the link. Where none is read, none stands there.
pub proof fn law_what_is_read_of_a_link(s: Seq<char>, part: LinkPart, j: int) -> (i: int)
    ensures
        match link_part(s, part) {
            Some(t) => {
                &&& 0 <= i && i + lead(part) + t.len() <= s.len()
                &&& t == s.subrange(i + lead(part), i + lead(part) + t.len())
                &&& sign_at(s, part, i)
                &&& reads_whole(s, part, t, i + lead(part))
                &&& 0 <= j < i ==> !(sign_at(s, part, j) && may_begin(s, part, j + lead(part)))
            },
            None => 0 <= j < s.len() ==> !(sign_at(s, part, j) && may_begin(
                s,
                part,
                j + lead(part),
            )),
        },
{
    reveal_strlit("/s/");
    reveal_strlit("surl=");
    reveal_strlit("pwd=");
    assert("/s/"@ =~= seq!['/', 's', '/']);
    assert("surl="@ =~= seq!['s', 'u', 'r', 'l', '=']);
    assert("pwd="@ =~= seq!['p', 'w', 'd', '=']);
    lemma_first_is_first(s, part, 0, j);
    if 0 <= j < s.len() && sign_at(s, part, j) && may_begin(s, part, j + lead(part)) {
        if part == LinkPart::Password {
            let t = s.subrange(j + 5, j + 9);
            assert forall|k: int| 0 <= k < t.len() implies is_alnum(#[trigger] t[k]) by {
                assert(t[k] == s[j + 5 + k]);
                assert(k == 0 || k == 1 || k == 2 || k == 3);
            }
            assert(is_password(t));
        }
        assert(part_at(s, part, j));
    }
    match first_part(s, part, 0) {
        Some(i) => {
            let from = i + lead(part);
            if part == LinkPart::Password {
                let t = s.subrange(from, from + 4);
                assert(t[0] == s[from] && t[1] == s[from + 1] && t[2] == s[from + 2] && t[3]
                    == s[from + 3]);
                assert(is_alnum(t[0]) && is_alnum(t[1]) && is_alnum(t[2]) && is_alnum(t[3]));
            } else {
                lemma_key_is_whole(s, from);
            }
            i
        },
        None => 0,
    }
}

/// The sign behind which a part of a link is read stands at a place.
pub open spec fn sign_at(s: Seq<char>, part: LinkPart, i: int) -> bool {
    match part {
        LinkPart::Path => i + 3 <= s.len() && s.subrange(i, i + 3) == seq!['/', 's', '/'],
        LinkPart::Surl => i + 6 <= s.len() && (s[i] == '?' || s[i] == '&') && s.subrange(
            i + 1,
            i + 6,
        ) == seq!['s', 'u', 'r', 'l', '='],
        LinkPart::Password => i + 5 <= s.len() && (s[i] == '?' || s[i] == '&') && s.subrange(
            i + 1,
            i + 5,
        ) == seq!['p', 'w', 'd', '='],
    }
}

/// What stands at a place may be read as the part: a character of a key, or the four letters and
/// digits of a password.
pub open spec fn may_begin(s: Seq<char>, part: LinkPart, i: int) -> bool {
    let letter = |c: char| 'a' <= c <= 'z' || 'A' <= c <= 'Z' || '0' <= c <= '9';
    match part {
        LinkPart::Password => i + 4 <= s.len() && letter(s[i]) && letter(s[i + 1]) && letter(
            s[i + 2],
        ) && letter(s[i + 3]),
        _ => i < s.len() && (letter(s[i]) || s[i] == '_' || s[i] == '-'),
    }
}

/// The text is all that may be read at a place: four letters and digits, or all characters of a
/// key that follow one another.
pub open spec fn reads_whole(s: Seq<char>, part: LinkPart, t: Seq<char>, from: int) -> bool {
    match part {
        LinkPart::Password => t.len() == 4 && may_begin(s, part, from),
        _ => t.len() > 0 && (forall|k: int| #![trigger s[k]]
            from <= k < from + t.len() ==> may_begin(s, part, k)) && !may_begin(
            s,
            part,
            from + t.len() as int,
        ),
    }
}

proof fn lemma_first_is_first(s: Seq<char>, part: LinkPart, i: int, j: int)
    requires
        0 <= i,
    ensures
        match first_part(s, part, i) {
            Some(k) => i <= k < s.len() && part_at(s, part, k) && (i <= j < k ==> !part_at(
                s,
                part,
                j,
            )),
            None => i <= j < s.len() ==> !part_at(s, part, j),
        },
    decreases s.len() - i,
{
    if i < s.len() && !part_at(s, part, i) {
        lemma_first_is_first(s, part, i + 1, j);
    }
}

proof fn lemma_key_is_whole(s: Seq<char>, i: int)
    requires
        0 <= i <= s.len(),
    ensures
        i <= key_end(s, i) <= s.len(),
        forall|k: int| i <= k < key_end(s, i) ==> is_key_char(#[trigger] s[k]),
        key_end(s, i) < s.len() ==> !is_key_char(s[key_end(s, i)]),
        i < s.len() && is_key_char(s[i]) ==> key_end(s, i) > i,
    decreases s.len() - i,
{
    if i < s.len() && is_key_char(s[i]) {
        lemma_key_is_whole(s, i + 1);
    }
}

/// Which share a link leads to: one with the path of the enterprise service to a share of that,
/// under the key in its query; any other to a personal share, under the key in its path, or under
/// the key in its query with the mark that such a key lacks. The link itself and its password are
/// kept.
pub proof fn law_which_share_a_link_leads_to(a: Seq<char>, b: Seq<char>, url: Seq<char>)
    ensures
        personal_link(a + "/apaas/share"@ + b) is None,
        personal_link(a + "/netdisk/share"@ + b) is None,
        !(apaas_link(url) is Some && personal_link(url) is Some),
        apaas_link(url) matches Some(l) ==> l.kind == ShareKind::Apaas && l.raw_url == url
            && Some(l.short_key) == link_part(url, LinkPart::Surl) && l.password == link_part(
            url,
            LinkPart::Password,
        ),
        personal_link(url) matches Some(l) ==> l.kind == ShareKind::Personal && l.raw_url == url
            && l.password == link_part(url, LinkPart::Password) && (link_part(url, LinkPart::Path)
            == Some(l.short_key) || (link_part(url, LinkPart::Path) is None && link_part(
            url,
            LinkPart::Surl,
        ) is Some && l.short_key == seq!['1'] + link_part(url, LinkPart::Surl)->Some_0)),
        link_part(url, LinkPart::Path) is Some ==> apaas_link(url) is Some || personal_link(url)
            is Some || (text::occurs(url, "/apaas/share"@) || text::occurs(url, "/netdisk/share"@)),
        link_part(url, LinkPart::Surl) is Some ==> apaas_link(url) is Some || personal_link(url)
            is Some,
{
    reveal_strlit("1");
    assert("1"@ =~= seq!['1']);
    text::law_occurs_in_the_middle(a, "/apaas/share"@, b);
    text::law_occurs_in_the_middle(a, "/netdisk/share"@, b);
}

} // verus!
