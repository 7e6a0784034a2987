//! The answer of a service to a request for a listing.
use vstd::prelude::*;

use crate::cloud_sync::types;
use crate::cloud_sync::types::{ObjectInfo, ObjectView};
use crate::ids;
use crate::ids::parse_rfc3339;
use crate::numbers;
use crate::numbers::parse_u64;
use crate::text;
use crate::text::{chars_of, concat3, contains, find, string_between};

verus! {

/// The text that some bytes encode; what is not UTF-8 is replaced.
pub uninterp spec fn lossy_text(data: Seq<u8>) -> Seq<char>;

/// `String::from_utf8_lossy`: the text that the bytes encode.
#[verifier::external_body]
pub(crate) fn from_utf8_lossy(data: &[u8]) -> (r: String)
    ensures
        r@ == lossy_text(data@),
{
    String::from_utf8_lossy(data).to_string()
}

// ---------------------------------------------------------------------------
// Tags
// ---------------------------------------------------------------------------
/// What stands between the first `open` and the first `close` after it.
pub open spec fn between(s: Seq<char>, open: Seq<char>, close: Seq<char>) -> Option<Seq<char>> {
    match text::find_text(s, open, 0) {
        None => None,
        Some(p) => match text::find_text(s, close, p + open.len()) {
            None => None,
            Some(e) => Some(s.subrange(p + open.len(), e)),
        },
    }
}

/// What stands inside the first element with a tag.
pub open spec fn tagged(s: Seq<char>, tag: Seq<char>) -> Option<Seq<char>> {
    between(s, "<"@ + tag + ">"@, "</"@ + tag + ">"@)
}

/// What stands inside the first element with a tag.
pub fn extract_tag(xml: &str, tag: &str) -> (r: Option<String>)
    ensures
        text::opt_text(r) == tagged(xml@, tag@),
{
    let open = concat3("<", tag, ">");
    let close = concat3("</", tag, ">");
    let cs = chars_of(xml);
    let os = chars_of(open.as_str());
    let es = chars_of(close.as_str());
    match find(&cs, &os, 0) {
        None => None,
        Some(p) => {
            assert(p + os@.len() <= cs.len());
            let from: usize = p + os.len();
            match find(&cs, &es, from) {
                None => None,
                Some(e) => Some(string_between(&cs, from, e)),
            }
        },
    }
}

/// A value that an element begins a text with reads back, where it holds no tag of its own.
pub proof fn law_tag_reads_back(tag: Seq<char>, value: Seq<char>, rest: Seq<char>)
    requires
        !value.contains('<'),
    ensures
        tagged("<"@ + tag + ">"@ + value + ("</"@ + tag + ">"@) + rest, tag) == Some(value),
{
    let open = "<"@ + tag + ">"@;
    let close = "</"@ + tag + ">"@;
    let s = open + value + close + rest;
    reveal_strlit("</");
    assert(s.subrange(0, open.len() as int) =~= open);
    assert(text::stands_at(s, open, 0));
    let from = open.len() as int;
    let end = (open.len() + value.len()) as int;
    assert(s.subrange(end, end + close.len()) =~= close);
    assert(text::stands_at(s, close, end));
    text::lemma_find_text(s, close, from);
    assert forall|j: int| from <= j < end implies !text::stands_at(s, close, j) by {
        if text::stands_at(s, close, j) {
            assert(close[0] == '<');
            assert(s.subrange(j, j + close.len())[0] == s[j]);
            assert(s[j] == value[j - from]);
            assert(value.contains(value[j - from]));
        }
    }
    assert(text::find_text(s, close, from) == Some(end));
    assert(s.subrange(from, end) =~= value);
}

/// What stands between each `open` and the `close` after it, from position `i` on.
pub open spec fn blocks_from(s: Seq<char>, open: Seq<char>, close: Seq<char>, i: int) -> Seq<
    Seq<char>,
>
    decreases s.len() - i,
{
    if i < 0 || i > s.len() || open.len() == 0 {
        seq![]
    } else {
        proof {
            text::lemma_find_text(s, open, i);
        }
        match text::find_text(s, open, i) {
            None => seq![],
            Some(p) => {
                proof {
                    text::lemma_find_text(s, close, p + open.len());
                }
                match text::find_text(s, close, p + open.len()) {
                    None => seq![],
                    Some(e) => seq![s.subrange(p + open.len(), e)] + blocks_from(
                        s,
                        open,
                        close,
                        e + close.len(),
                    ),
                }
            },
        }
    }
}

fn blocks(s: &str, open: &str, close: &str) -> (r: Vec<String>)
    requires
        open@.len() > 0,
    ensures
        text::texts(r@) == blocks_from(s@, open@, close@, 0),
{
    let cs = chars_of(s);
    let os = chars_of(open);
    let es = chars_of(close);
    let mut r: Vec<String> = Vec::new();
    let mut i: usize = 0;
    assert(text::texts(r@) =~= Seq::<Seq<char>>::empty());
    assert(Seq::<Seq<char>>::empty() + blocks_from(s@, open@, close@, 0) =~= blocks_from(
        s@,
        open@,
        close@,
        0,
    ));
    loop
        invariant
            cs@ == s@,
            os@ == open@,
            es@ == close@,
            open@.len() > 0,
            i <= cs@.len(),
            text::texts(r@) + blocks_from(s@, open@, close@, i as int) == blocks_from(
                s@,
                open@,
                close@,
                0,
            ),
        decreases cs@.len() - i,
    {
        match find(&cs, &os, i) {
            None => {
                assert(text::texts(r@) + seq![] =~= text::texts(r@));
                return r;
            },
            Some(p) => {
                assert(p + os@.len() <= cs.len());
                let from: usize = p + os.len();
                match find(&cs, &es, from) {
                    None => {
                        assert(text::texts(r@) + seq![] =~= text::texts(r@));
                        return r;
                    },
                    Some(e) => {
                        assert(e + es@.len() <= cs.len());
                        let ghost before = text::texts(r@);
                        let block = string_between(&cs, from, e);
                        r.push(block);
                        assert(text::texts(r@) =~= before.push(block@));
                        let ghost rest = blocks_from(s@, open@, close@, e + close@.len());
                        assert(before + (seq![block@] + rest) =~= before.push(block@) + rest);
                        i = e + es.len();
                    },
                }
            },
        }
    }
}

// ---------------------------------------------------------------------------
// Listings
// ---------------------------------------------------------------------------
/// One page of a listing.
#[derive(Debug)]
pub struct ListPage {
    pub objects: Vec<ObjectInfo>,
    pub prefixes: Vec<String>,
    pub truncated: bool,
    pub next_token: Option<String>,
}

/// The text, or the empty one.
pub open spec fn text_or_empty(o: Option<Seq<char>>) -> Seq<char> {
    match o {
        Some(s) => s,
        None => seq![],
    }
}

/// The number that a text stands for, or zero.
pub open spec fn size_of_text(o: Option<Seq<char>>) -> u64 {
    match o {
        Some(s) => match numbers::unsigned_of(s, u64::MAX as nat) {
            Some(n) => n as u64,
            None => 0,
        },
        None => 0,
    }
}

/// The object that a block of a listing describes.
pub open spec fn object_in(block: Seq<char>) -> ObjectView {
    ObjectView {
        key: text_or_empty(tagged(block, "Key"@)),
        size: size_of_text(tagged(block, "Size"@)),
        last_modified: match tagged(block, "LastModified"@) {
            Some(s) => ids::rfc3339_of(s),
            None => None,
        },
        etag: tagged(block, "ETag"@),
    }
}

/// The prefixes that the first `n` blocks name.
pub open spec fn prefixes_in(blocks: Seq<Seq<char>>) -> Seq<Seq<char>>
    decreases blocks.len(),
{
    if blocks.len() == 0 {
        seq![]
    } else {
        match tagged(blocks.last(), "Prefix"@) {
            Some(p) => prefixes_in(blocks.drop_last()).push(p),
            None => prefixes_in(blocks.drop_last()),
        }
    }
}

/// The page is what the text of a listing says.
pub open spec fn page_says(page: ListPage, s: Seq<char>) -> bool {
    &&& types::object_views(page.objects@) == blocks_from(
        s,
        "<Contents>"@,
        "</Contents>"@,
        0,
    ).map_values(|b: Seq<char>| object_in(b))
    &&& text::texts(page.prefixes@) == prefixes_in(
        blocks_from(s, "<CommonPrefixes>"@, "</CommonPrefixes>"@, 0),
    )
    &&& page.truncated == text::occurs(s, "<IsTruncated>true</IsTruncated>"@)
    &&& text::opt_text(page.next_token) == tagged(s, "NextContinuationToken"@)
}

fn size_from(v: Option<String>) -> (r: u64)
    ensures
        r == size_of_text(text::opt_text(v)),
{
    match v {
        Some(s) => match parse_u64(s.as_str()) {
            Some(n) => n,
            None => 0,
        },
        None => 0,
    }
}

fn object_from(block: &str) -> (r: ObjectInfo)
    ensures
        r@ == object_in(block@),
{
    let key = match extract_tag(block, "Key") {
        Some(k) => k,
        None => String::new(),
    };
    let size: u64 = size_from(extract_tag(block, "Size"));
    let last_modified = match extract_tag(block, "LastModified") {
        Some(v) => parse_rfc3339(v.as_str()),
        None => None,
    };
    let etag = extract_tag(block, "ETag");
    assert(key@ =~= text_or_empty(tagged(block@, "Key"@)));
    ObjectInfo { key, size, last_modified, etag }
}

/// The page of a listing that a text says.
pub fn page_from_text(s: &str) -> (r: ListPage)
    ensures
        page_says(r, s@),
{
    proof {
        reveal_strlit("<Contents>");
        reveal_strlit("<CommonPrefixes>");
    }
    let found = blocks(s, "<Contents>", "</Contents>");
    let ghost fs = blocks_from(s@, "<Contents>"@, "</Contents>"@, 0);
    let ghost f = |b: Seq<char>| object_in(b);
    let mut objects: Vec<ObjectInfo> = Vec::new();
    let mut i: usize = 0;
    assert(types::object_views(objects@) =~= fs.take(0).map_values(f));
    while i < found.len()
        invariant
            i <= found@.len(),
            text::texts(found@) == fs,
            f == |b: Seq<char>| object_in(b),
            types::object_views(objects@) == fs.take(i as int).map_values(f),
        decreases found@.len() - i,
    {
        let ghost before = types::object_views(objects@);
        let one = object_from(found[i].as_str());
        assert(fs[i as int] == found@[i as int]@);
        objects.push(one);
        i += 1;
        assert(types::object_views(objects@) =~= before.push(one@));
        assert(fs.take(i as int).map_values(f) =~= fs.take(i - 1).map_values(f).push(
            f(fs[i - 1]),
        ));
    }
    assert(fs.take(i as int) =~= fs);
    let groups = blocks(s, "<CommonPrefixes>", "</CommonPrefixes>");
    let ghost gs = blocks_from(s@, "<CommonPrefixes>"@, "</CommonPrefixes>"@, 0);
    let mut prefixes: Vec<String> = Vec::new();
    let mut k: usize = 0;
    assert(text::texts(prefixes@) =~= prefixes_in(gs.take(0)));
    while k < groups.len()
        invariant
            k <= groups@.len(),
            text::texts(groups@) == gs,
            text::texts(prefixes@) == prefixes_in(gs.take(k as int)),
        decreases groups@.len() - k,
    {
        let ghost before = text::texts(prefixes@);
        assert(gs[k as int] == groups@[k as int]@);
        assert(gs.take(k + 1).drop_last() =~= gs.take(k as int));
        match extract_tag(groups[k].as_str(), "Prefix") {
            Some(p) => {
                prefixes.push(p);
                assert(text::texts(prefixes@) =~= before.push(p@));
            },
            None => {},
        }
        k += 1;
    }
    assert(gs.take(k as int) =~= gs);
    let truncated = contains(s, "<IsTruncated>true</IsTruncated>");
    let next_token = extract_tag(s, "NextContinuationToken");
    ListPage { objects, prefixes, truncated, next_token }
}

/// The page of a listing that an answer holds.
pub fn parse_list_response(body: &[u8]) -> (r: ListPage)
    ensures
        page_says(r, lossy_text(body@)),
{
    let s = from_utf8_lossy(body);
    page_from_text(s.as_str())
}

/// The blocks of a text are read one after the other: what stands between the first opening and
/// the closing behind it is the first block, and the rest follows behind that.
pub proof fn law_blocks_are_read_in_turn(
    head: Seq<char>,
    open: Seq<char>,
    body: Seq<char>,
    close: Seq<char>,
    rest: Seq<char>,
)
    requires
        open.len() > 0 && open[0] == '<',
        close.len() > 0 && close[0] == '<',
        !head.contains('<'),
        forall|k: int|
            head.len() + open.len() <= k < head.len() + open.len() + body.len()
                ==> !#[trigger] text::stands_at(head + open + body + close + rest, close, k),
    ensures
        blocks_from(head + open + body + close + rest, open, close, 0) == seq![body] + blocks_from(
            head + open + body + close + rest,
            open,
            close,
            (head + open + body + close).len() as int,
        ),
        blocks_from(head, open, close, 0).len() == 0,
{
    let s = head + open + body + close + rest;
    let p = head.len() as int;
    let from = p + open.len();
    let e = from + body.len();
    assert(text::stands_at(s, open, p)) by {
        assert(s.subrange(p, from) =~= open);
    }
    assert forall|j: int| 0 <= j < p implies !#[trigger] text::stands_at(s, open, j) by {
        if text::stands_at(s, open, j) {
            assert(s.subrange(j, j + open.len())[0] == s[j]);
            assert(s[j] == head[j]);
            assert(head.contains(head[j]));
        }
    }
    lemma_found_at(s, open, 0, p);
    assert(text::stands_at(s, close, e)) by {
        assert(s.subrange(e, e + close.len()) =~= close);
    }
    lemma_found_at(s, close, from, e);
    assert(s.subrange(from, e) =~= body);
    assert((head + open + body + close).len() == e + close.len());
    lemma_no_blocks(head, open, close);
}

proof fn lemma_found_at(s: Seq<char>, pat: Seq<char>, i: int, p: int)
    requires
        0 <= i <= p <= s.len(),
        text::stands_at(s, pat, p),
        forall|j: int| i <= j < p ==> !#[trigger] text::stands_at(s, pat, j),
    ensures
        text::find_text(s, pat, i) == Some(p),
{
    text::lemma_find_text(s, pat, i);
}

proof fn lemma_no_blocks(s: Seq<char>, open: Seq<char>, close: Seq<char>)
    requires
        open.len() > 0 && open[0] == '<',
        !s.contains('<'),
    ensures
        blocks_from(s, open, close, 0).len() == 0,
{
    text::lemma_find_text(s, open, 0);
    if text::find_text(s, open, 0) is Some {
        let k = text::find_text(s, open, 0)->Some_0;
        assert(s.subrange(k, k + open.len())[0] == s[k]);
        assert(s.contains(s[k]));
    }
}

/// An object is read from its block: key, size and mark are what stands in their tags; a size
/// that is missing or no number is none.
pub proof fn law_object_is_read_from_its_tags(block: Seq<char>, size: nat)
    requires
        size <= u64::MAX,
    ensures
        tagged(block, "Key"@) matches Some(k) ==> object_in(block).key == k,
        tagged(block, "Size"@) == Some(numbers::decimal_of(size)) ==> object_in(block).size == size,
        tagged(block, "Size"@) is None ==> object_in(block).size == 0,
        object_in(block).etag == tagged(block, "ETag"@),
        tagged(block, "LastModified"@) matches Some(t) ==> object_in(block).last_modified
            == ids::rfc3339_of(t),
{
    numbers::law_decimal_round_trip(size, u64::MAX as nat);
}

/// A page of a listing is read whole: one object for each block of contents, one prefix for each
/// block that names one, whether there is more, and where it goes on.
pub proof fn law_page_is_read_whole(
    page: ListPage,
    s: Seq<char>,
    blocks: Seq<Seq<char>>,
    block: Seq<char>,
)
    ensures
        page_says(page, s) ==> {
            let contents = blocks_from(s, "<Contents>"@, "</Contents>"@, 0);
            &&& page.objects@.len() == contents.len()
            &&& forall|i: int|
                0 <= i < contents.len() ==> (#[trigger] page.objects@[i])@ == object_in(contents[i])
            &&& page.truncated == exists|i: int|
                text::stands_at(s, "<IsTruncated>true</IsTruncated>"@, i)
            &&& text::opt_text(page.next_token) == tagged(s, "NextContinuationToken"@)
        },
        prefixes_in(blocks.push(block)) == match tagged(block, "Prefix"@) {
            Some(p) => prefixes_in(blocks).push(p),
            None => prefixes_in(blocks),
        },
        prefixes_in(seq![]).len() == 0,
{
    assert(blocks.push(block).drop_last() =~= blocks);
    if page_says(page, s) {
        let contents = blocks_from(s, "<Contents>"@, "</Contents>"@, 0);
        let views = types::object_views(page.objects@);
        assert(views.len() == contents.len());
        assert forall|i: int| 0 <= i < contents.len() implies (#[trigger] page.objects@[i])@
            == object_in(contents[i]) by {
            assert(views[i] == page.objects@[i]@);
        }
        let pat = "<IsTruncated>true</IsTruncated>"@;
        text::lemma_find_text(s, pat, 0);
        if exists|i: int| text::stands_at(s, pat, i) {
            let i = choose|i: int| text::stands_at(s, pat, i);
            assert(0 <= i <= s.len());
        }
    }
}

} // verus!
