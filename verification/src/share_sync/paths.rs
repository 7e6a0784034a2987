//! Paths inside a share.
//!
//! A path is modelled by its parts: the non-empty pieces between slashes. The
//! normal form of a path is a slash before each part, or a single slash when
//! there is none.
use vstd::prelude::*;
use vstd::string::*;

use crate::netdisk::share::common;
use crate::netdisk::share::common::share_mark_between;
use crate::numbers;
use crate::text;
use crate::text::{chars_of, concat2, find_char, rfind_char, run_end, run_start, same};
use crate::text::{string_between, string_of, trim, trim_range};
use crate::transfer::SharedFileInfo;

verus! {

// ---------------------------------------------------------------------------
// Parts of a path
// ---------------------------------------------------------------------------
/// `s` with each backslash read as a slash.
pub open spec fn unified(s: Seq<char>) -> Seq<char> {
    s.map_values(|c: char| if c == '\\' { '/' } else { c })
}

/// The non-empty pieces of `s` between slashes.
pub open spec fn components(s: Seq<char>) -> Seq<Seq<char>>
    decreases s.len(),
{
    if s.len() == 0 {
        Seq::empty()
    } else {
        let head = components(s.drop_last());
        if s.last() == '/' {
            head
        } else if s.len() == 1 || s[s.len() - 2] == '/' {
            head.push(seq![s.last()])
        } else {
            head.drop_last().push(head.last().push(s.last()))
        }
    }
}

/// A slash before each part.
pub open spec fn joined(parts: Seq<Seq<char>>) -> Seq<char>
    decreases parts.len(),
{
    if parts.len() == 0 {
        Seq::empty()
    } else {
        joined(parts.drop_last()).push('/') + parts.last()
    }
}

/// The path of the given parts; `/` where there is none.
pub open spec fn canonical(parts: Seq<Seq<char>>) -> Seq<char> {
    if parts.len() == 0 {
        seq!['/']
    } else {
        joined(parts)
    }
}

/// The parts of a path as users write it: white space around it does not count, and
/// a backslash separates as a slash does.
pub open spec fn parts_of(p: Seq<char>) -> Seq<Seq<char>> {
    components(unified(text::trimmed(p)))
}

/// The normal form of a path; none where there is nothing but white space.
pub open spec fn normal_path(p: Seq<char>) -> Option<Seq<char>> {
    if text::trimmed(p).len() == 0 {
        None
    } else {
        Some(canonical(parts_of(p)))
    }
}

/// All parts but the last.
pub open spec fn parent_parts(parts: Seq<Seq<char>>) -> Seq<Seq<char>> {
    if parts.len() == 0 {
        parts
    } else {
        parts.drop_last()
    }
}

/// A part is not empty and holds no slash.
pub open spec fn is_part(c: Seq<char>) -> bool {
    c.len() > 0 && !c.contains('/')
}

/// Every piece is a part.
pub open spec fn are_parts(parts: Seq<Seq<char>>) -> bool {
    forall|i: int| 0 <= i < parts.len() ==> is_part(#[trigger] parts[i])
}

/// `components` yields parts, and there is one where the text does not end in a slash.
pub proof fn lemma_components_are_parts(s: Seq<char>)
    ensures
        are_parts(components(s)),
        s.len() > 0 && s.last() != '/' ==> components(s).len() > 0,
    decreases s.len(),
{
    if s.len() > 0 {
        let t = s.drop_last();
        lemma_components_are_parts(t);
        let head = components(t);
        let c = s.last();
        if c != '/' {
            if s.len() == 1 || s[s.len() - 2] == '/' {
                assert(is_part(seq![c])) by {
                    assert(seq![c][0] == c);
                }
            } else {
                assert(t.last() == s[s.len() - 2]);
                let old_last = head.last();
                assert(is_part(head[head.len() - 1]));
                let now = old_last.push(c);
                assert(is_part(now)) by {
                    if now.contains('/') {
                        let k = choose|k: int| 0 <= k < now.len() && now[k] == '/';
                        assert(k < old_last.len());
                        assert(old_last[k] == '/');
                    }
                }
                let parts = head.drop_last().push(now);
                assert forall|i: int| 0 <= i < parts.len() implies is_part(#[trigger] parts[i]) by {
                    if i < head.len() - 1 {
                        assert(is_part(head[i]));
                    }
                }
            }
        }
    }
}

/// Adding a whole part after a slash adds that part.
proof fn lemma_components_append(s: Seq<char>, c: Seq<char>)
    requires
        c.len() > 0 ==> !c.contains('/'),
    ensures
        components(s.push('/') + c) == if c.len() == 0 {
            components(s)
        } else {
            components(s).push(c)
        },
    decreases c.len(),
{
    let t = s.push('/') + c;
    if c.len() == 0 {
        assert(t =~= s.push('/'));
        assert(t.drop_last() =~= s);
    } else {
        let d = c.drop_last();
        assert(!d.contains('/')) by {
            if d.contains('/') {
                let k = choose|k: int| 0 <= k < d.len() && d[k] == '/';
                assert(c[k] == '/');
            }
        }
        lemma_components_append(s, d);
        assert(t.drop_last() =~= s.push('/') + d);
        assert(t.last() == c.last());
        assert(c[c.len() - 1] == c.last());
        assert(t.last() != '/');
        if d.len() == 0 {
            assert(t[t.len() - 2] == '/');
            assert(c =~= seq![c.last()]);
        } else {
            assert(t[t.len() - 2] == d.last());
            assert(c[c.len() - 2] == d.last());
            assert(d.push(c.last()) =~= c);
            assert(components(s).push(d).drop_last() =~= components(s));
        }
    }
}

/// The parts of a joined path are the parts it was joined from.
pub proof fn lemma_components_joined(parts: Seq<Seq<char>>)
    requires
        are_parts(parts),
    ensures
        components(joined(parts)) == parts,
    decreases parts.len(),
{
    if parts.len() > 0 {
        let front = parts.drop_last();
        assert forall|i: int| 0 <= i < front.len() implies is_part(#[trigger] front[i]) by {
            assert(is_part(parts[i]));
        }
        lemma_components_joined(front);
        assert(is_part(parts[parts.len() - 1]));
        lemma_components_append(joined(front), parts.last());
        assert(front.push(parts.last()) =~= parts);
    }
}

/// The parts of a path in normal form are the parts it was made of.
pub proof fn lemma_components_canonical(parts: Seq<Seq<char>>)
    requires
        are_parts(parts),
    ensures
        components(canonical(parts)) == parts,
{
    if parts.len() == 0 {
        let s = seq!['/'];
        reveal_with_fuel(components, 2);
        assert(components(s) =~= parts);
    } else {
        lemma_components_joined(parts);
    }
}

/// A joined path begins with a slash, and does not end in one.
pub proof fn lemma_joined_shape(parts: Seq<Seq<char>>)
    requires
        are_parts(parts),
        parts.len() > 0,
    ensures
        joined(parts).len() > 1,
        joined(parts)[0] == '/',
        joined(parts).last() != '/',
    decreases parts.len(),
{
    let front = parts.drop_last();
    let last = parts.last();
    assert(is_part(parts[parts.len() - 1]));
    assert(last[last.len() - 1] == last.last());
    if front.len() > 0 {
        assert forall|i: int| 0 <= i < front.len() implies is_part(#[trigger] front[i]) by {
            assert(is_part(parts[i]));
        }
        lemma_joined_shape(front);
        assert(joined(parts)[0] == joined(front)[0]);
    } else {
        assert(joined(front) =~= Seq::<char>::empty());
        assert(joined(parts)[0] == '/');
    }
    assert(joined(parts).last() == last.last());
}

/// A path in normal form begins with a slash.
pub proof fn lemma_canonical_absolute(parts: Seq<Seq<char>>)
    requires
        are_parts(parts),
    ensures
        canonical(parts).len() > 0,
        canonical(parts)[0] == '/',
{
    if parts.len() > 0 {
        lemma_joined_shape(parts);
    }
}

/// The characters of the parts of `s` are characters of `s`.
proof fn lemma_components_chars(s: Seq<char>, c: char)
    requires
        !s.contains(c),
    ensures
        forall|i: int| 0 <= i < components(s).len() ==> !(#[trigger] components(s)[i]).contains(c),
    decreases s.len(),
{
    if s.len() > 0 {
        let t = s.drop_last();
        assert(!t.contains(c)) by {
            if t.contains(c) {
                let k = choose|k: int| 0 <= k < t.len() && t[k] == c;
                assert(s[k] == c);
            }
        }
        lemma_components_chars(t, c);
        lemma_components_are_parts(t);
        assert(s[s.len() - 1] == s.last());
        assert(s.last() != c);
        let head = components(t);
        if s.last() != '/' {
            if s.len() == 1 || s[s.len() - 2] == '/' {
                assert forall|i: int| 0 <= i < components(s).len() implies !(
                #[trigger] components(s)[i]).contains(c) by {
                    if i < head.len() {
                        assert(components(s)[i] == head[i]);
                    } else {
                        assert(components(s)[i] == seq![s.last()]);
                    }
                }
            } else {
                assert(t.last() == s[s.len() - 2]);
                let now = head.last().push(s.last());
                assert(!head[head.len() - 1].contains(c));
                assert(!now.contains(c)) by {
                    if now.contains(c) {
                        let k = choose|k: int| 0 <= k < now.len() && now[k] == c;
                        assert(k < head.last().len());
                        assert(head.last()[k] == c);
                    }
                }
                assert forall|i: int| 0 <= i < components(s).len() implies !(
                #[trigger] components(s)[i]).contains(c) by {
                    if i < head.len() - 1 {
                        assert(components(s)[i] == head[i]);
                    } else {
                        assert(components(s)[i] == now);
                    }
                }
            }
        }
    }
}

/// The characters of a joined path are slashes and characters of its parts.
proof fn lemma_joined_chars(parts: Seq<Seq<char>>, c: char)
    requires
        c != '/',
        forall|i: int| 0 <= i < parts.len() ==> !(#[trigger] parts[i]).contains(c),
    ensures
        !joined(parts).contains(c),
    decreases parts.len(),
{
    if parts.len() > 0 {
        let front = parts.drop_last();
        assert forall|i: int| 0 <= i < front.len() implies !(#[trigger] front[i]).contains(c) by {
            assert(!parts[i].contains(c));
        }
        lemma_joined_chars(front, c);
        assert(!parts[parts.len() - 1].contains(c));
        let j = joined(parts);
        if j.contains(c) {
            let k = choose|k: int| 0 <= k < j.len() && j[k] == c;
            let n = joined(front).len();
            if k < n {
                assert(joined(front)[k] == c);
            } else if k > n {
                assert(parts.last()[k - n - 1] == c);
            }
        }
    }
}

/// A path that is written plainly: it begins with a slash and does not end in one, no two slashes
/// stand together, there is no backslash, and no part ends in white space.
pub open spec fn is_plain(p: Seq<char>) -> bool {
    &&& p.len() > 1
    &&& p[0] == '/'
    &&& p.last() != '/'
    &&& !text::is_space(p.last())
    &&& forall|i: int| 0 <= i < p.len() ==> #[trigger] p[i] != '\\'
    &&& forall|i: int|
        0 < i < p.len() && #[trigger] p[i] == '/' ==> p[i - 1] != '/' && !text::is_space(p[i - 1])
}

/// What stands before a slash of a plain path is a plain path, unless it is nothing.
pub proof fn lemma_plain_beginning(p: Seq<char>, i: int)
    requires
        is_plain(p),
        0 < i < p.len(),
        p[i] == '/',
    ensures
        is_plain(p.take(i)),
{
    let h = p.take(i);
    assert(h.last() == p[i - 1]);
    assert(h[0] == p[0]);
    if i == 1 {
        assert(p[0] == '/');
    }
    assert forall|k: int| 0 <= k < h.len() implies #[trigger] h[k] != '\\' by {
        assert(h[k] == p[k]);
    }
    assert forall|k: int| 0 < k < h.len() && #[trigger] h[k] == '/' implies h[k - 1] != '/'
        && !text::is_space(h[k - 1]) by {
        assert(p[k] == '/');
    }
}

/// The parts of a plain path, joined, are the path.
proof fn lemma_plain_is_joined(p: Seq<char>)
    requires
        is_plain(p),
    ensures
        joined(components(p)) == p,
        components(p).len() > 0,
    decreases p.len(),
{
    text::lemma_last_before(p, '/', p.len() as int);
    assert(p[0] == '/');
    let i = text::last_before(p, '/', p.len() as int)->Some_0;
    let c = p.skip(i + 1);
    assert(!c.contains('/')) by {
        if c.contains('/') {
            let k = choose|k: int| 0 <= k < c.len() && c[k] == '/';
            assert(p[i + 1 + k] == '/');
        }
    }
    assert(c.len() > 0) by {
        assert(p[p.len() - 1] == p.last());
    }
    let h = p.take(i);
    assert(h.push('/') + c =~= p);
    lemma_components_append(h, c);
    let parts = components(h);
    assert(parts.push(c).drop_last() =~= parts);
    if i > 0 {
        lemma_plain_beginning(p, i);
        lemma_plain_is_joined(h);
    } else {
        assert(h =~= Seq::<char>::empty());
        assert(parts =~= Seq::<Seq<char>>::empty());
        assert(joined(parts) =~= h);
    }
    assert(joined(parts) == h);
}

proof fn lemma_plain_is_trimmed(p: Seq<char>)
    requires
        is_plain(p),
    ensures
        parts_of(p) == components(p),
        text::trimmed(p) == p,
{
    assert(!text::is_space(p[0]));
    assert(text::trim_start(p) == p);
    assert(text::trim_end(p) == p);
    assert(unified(p) =~= p);
}

/// The parts of a plain path, joined, are the path.
pub proof fn lemma_plain_parts(p: Seq<char>)
    requires
        is_plain(p),
    ensures
        parts_of(p) == components(p),
        joined(components(p)) == p,
        components(p).len() > 0,
{
    lemma_plain_is_trimmed(p);
    lemma_plain_is_joined(p);
}

/// A plain path is its own normal form. A path's normal form begins with a slash, holds no
/// backslash, no two slashes together, and, unless it is the root, no slash at its end.
pub proof fn law_normal_path_is_plainly_written(p: Seq<char>)
    ensures
        is_plain(p) ==> normal_path(p) == Some(p),
        normal_path(p) matches Some(n) ==> {
            &&& n.len() > 0 && n[0] == '/'
            &&& !n.contains('\\')
            &&& n == seq!['/'] || n.last() != '/'
            &&& forall|i: int| 0 <= i < n.len() - 1 && #[trigger] n[i] == '/' ==> n[i + 1] != '/'
        },
{
    if is_plain(p) {
        lemma_plain_is_trimmed(p);
        lemma_plain_is_joined(p);
    }
    if normal_path(p) is Some {
        let s = unified(text::trimmed(p));
        let parts = components(s);
        let n = canonical(parts);
        lemma_components_are_parts(s);
        lemma_canonical_absolute(parts);
        assert(!s.contains('\\')) by {
            if s.contains('\\') {
                let k = choose|k: int| 0 <= k < s.len() && s[k] == '\\';
                assert(s[k] == (if text::trimmed(p)[k] == '\\' {
                    '/'
                } else {
                    text::trimmed(p)[k]
                }));
            }
        }
        lemma_components_chars(s, '\\');
        if parts.len() > 0 {
            lemma_joined_chars(parts, '\\');
            lemma_joined_shape(parts);
            lemma_joined_has_single_slashes(parts);
        } else {
            assert(n =~= seq!['/']);
            assert(!n.contains('\\'));
        }
    }
}

proof fn lemma_joined_has_single_slashes(parts: Seq<Seq<char>>)
    requires
        are_parts(parts),
    ensures
        forall|i: int|
            0 <= i < joined(parts).len() - 1 && #[trigger] joined(parts)[i] == '/' ==> joined(
                parts,
            )[i + 1] != '/',
    decreases parts.len(),
{
    if parts.len() > 0 {
        let front = parts.drop_last();
        let last = parts.last();
        assert forall|i: int| 0 <= i < front.len() implies is_part(#[trigger] front[i]) by {
            assert(is_part(parts[i]));
        }
        lemma_joined_has_single_slashes(front);
        assert(is_part(parts[parts.len() - 1]));
        let j = joined(parts);
        let h = joined(front);
        assert forall|i: int| 0 <= i < j.len() - 1 && #[trigger] j[i] == '/' implies j[i + 1]
            != '/' by {
            if i + 1 < h.len() {
                assert(h[i] == '/');
                assert(j[i + 1] == h[i + 1]);
            } else if i + 1 == h.len() {
                lemma_joined_shape(front);
                assert(h[i] == h.last());
            } else {
                assert(j[i + 1] == last[i - h.len()]);
                assert(!last.contains('/'));
            }
        }
    }
}

/// The directory that holds a plain path is what stands before its last slash.
pub proof fn lemma_plain_parent(dir: Seq<char>, name: Seq<char>)
    requires
        is_plain(dir.push('/') + name),
        !name.contains('/'),
    ensures
        canonical(parent_parts(parts_of(dir.push('/') + name))) == if dir.len() == 0 {
            seq!['/']
        } else {
            dir
        },
        parts_of(dir.push('/') + name).len() > 0,
        parts_of(dir.push('/') + name).last() == name,
{
    let p = dir.push('/') + name;
    assert(name.len() > 0) by {
        if name.len() == 0 {
            assert(p =~= dir.push('/'));
        }
    }
    lemma_plain_is_trimmed(p);
    lemma_components_append(dir, name);
    assert(components(dir).push(name).drop_last() =~= components(dir));
    if dir.len() == 0 {
        assert(components(dir) =~= Seq::<Seq<char>>::empty());
    } else {
        assert(p[dir.len() as int] == '/');
        assert(p.take(dir.len() as int) =~= dir);
        lemma_plain_beginning(p, dir.len() as int);
        lemma_plain_is_joined(dir);
    }
}

/// Normalising is idempotent on every path whose normal form has no white space at
/// its end.
pub proof fn law_normal_path_idempotent(p: Seq<char>)
    requires
        normal_path(p) matches Some(n) && !text::is_space(n.last()),
    ensures
        normal_path(normal_path(p)->Some_0) == normal_path(p),
{
    let t = unified(text::trimmed(p));
    let parts = components(t);
    let n = canonical(parts);
    lemma_components_are_parts(t);
    lemma_canonical_absolute(parts);
    assert(text::trim_start(n) == n);
    assert(text::trim_end(n) == n);
    assert(!t.contains('\\')) by {
        if t.contains('\\') {
            let k = choose|k: int| 0 <= k < t.len() && t[k] == '\\';
            let c = text::trimmed(p)[k];
            assert(t[k] == if c == '\\' { '/' } else { c });
        }
    }
    lemma_components_chars(t, '\\');
    lemma_joined_chars(parts, '\\');
    assert(!n.contains('\\')) by {
        if parts.len() == 0 {
            assert(n =~= seq!['/']);
        }
    }
    assert(unified(n) =~= n) by {
        assert forall|k: int| 0 <= k < n.len() implies unified(n)[k] == n[k] by {
            assert(n[k] != '\\');
        }
    }
    lemma_components_canonical(parts);
}

// ---------------------------------------------------------------------------
// Normal form
// ---------------------------------------------------------------------------
/// The normal form of a path: white space around it is cut off, backslashes become
/// slashes, a leading slash is added, repeated slashes become one, and a trailing
/// slash goes. Nothing is returned for a path of white space alone.
pub fn normalize_snapshot_path(path: String) -> (r: Option<String>)
    ensures
        text::opt_text(r) == normal_path(path@),
{
    let cs = chars_of(path.as_str());
    let (a, b) = trim_range(&cs);
    if a == b {
        return None;
    }
    let ghost t = unified(text::trimmed(path@));
    let mut out: Vec<char> = Vec::new();
    let mut i: usize = a;
    let mut after_slash = true;
    proof {
        assert(t.take(0) =~= Seq::<char>::empty());
        assert(joined(components(t.take(0))) =~= Seq::<char>::empty());
    }
    while i < b
        invariant
            a <= i <= b <= cs@.len(),
            cs@ == path@,
            cs@.subrange(a as int, b as int) == text::trimmed(path@),
            t == unified(text::trimmed(path@)),
            t.len() == b - a,
            out@ == joined(components(t.take(i - a))),
            after_slash == (i == a || t[i - a - 1] == '/'),
        decreases b - i,
    {
        let ghost k = i - a;
        let ghost now = t.take(k + 1);
        let ghost head = components(t.take(k));
        proof {
            assert(now.drop_last() =~= t.take(k));
            assert(now.last() == t[k]);
            assert(text::trimmed(path@)[k] == cs@[i as int]);
            assert(t[k] == if cs@[i as int] == '\\' { '/' } else { cs@[i as int] });
            lemma_components_are_parts(t.take(k));
            if k > 0 {
                assert(now[k - 1] == t[k - 1]);
                assert(t.take(k).last() == t[k - 1]);
            }
        }
        let c = if cs[i] == '\\' {
            '/'
        } else {
            cs[i]
        };
        if c == '/' {
            after_slash = true;
        } else {
            if after_slash {
                out.push('/');
                proof {
                    assert(components(now) == head.push(seq![c]));
                    assert(head.push(seq![c]).drop_last() =~= head);
                    assert(joined(head).push('/') + seq![c] =~= joined(head).push('/').push(c));
                }
            } else {
                proof {
                    let grown = head.drop_last().push(head.last().push(c));
                    assert(components(now) == grown);
                    assert(grown.drop_last() =~= head.drop_last());
                    assert(joined(head.drop_last()).push('/') + head.last().push(c) =~= joined(
                        head,
                    ).push(c));
                }
            }
            out.push(c);
            after_slash = false;
        }
        i += 1;
    }
    assert(t.take(b - a) =~= t);
    if out.len() == 0 {
        proof {
            lemma_components_are_parts(t);
            if components(t).len() > 0 {
                lemma_joined_shape(components(t));
            }
        }
        out.push('/');
        assert(out@ =~= seq!['/']);
    } else {
        assert(components(t).len() > 0);
    }
    Some(string_of(&out))
}

/// The normal form of the directory that holds `path`; `/` for the root and for a
/// path of white space alone.
pub fn parent_dir(path: &str) -> (r: String)
    ensures
        r@ == canonical(parent_parts(parts_of(path@))),
{
    proof {
        reveal_strlit("/");
        lemma_components_are_parts(unified(text::trimmed(path@)));
    }
    let ghost parts = parts_of(path@);
    match normalize_snapshot_path(path.to_owned()) {
        None => {
            proof {
                assert(unified(text::trimmed(path@)) =~= Seq::<char>::empty());
                assert("/"@ =~= seq!['/']);
            }
            "/".to_owned()
        },
        Some(n) => {
            let cs = chars_of(n.as_str());
            let cut = rfind_char(&cs, '/', cs.len());
            proof {
                assert("/"@ =~= seq!['/']);
                if parts.len() > 0 {
                    let front = parts.drop_last();
                    let last = parts.last();
                    assert(is_part(parts[parts.len() - 1]));
                    assert(cs@ == joined(front).push('/') + last);
                    let at = joined(front).len();
                    assert(cs@[at as int] == '/');
                    assert forall|k: int| at < k < cs@.len() implies cs@[k] != '/' by {
                        assert(cs@[k] == last[k - at - 1]);
                        assert(!last.contains('/'));
                    }
                    assert(cut == Some(at as usize));
                    assert(cs@.subrange(0, at as int) =~= joined(front));
                    if front.len() > 0 {
                        assert forall|i: int| 0 <= i < front.len() implies is_part(
                            #[trigger] front[i],
                        ) by {
                            assert(is_part(parts[i]));
                        }
                        lemma_joined_shape(front);
                    }
                } else {
                    assert(cs@ =~= seq!['/']);
                    assert(cs@[0] == '/');
                }
            }
            match cut {
                Some(i) => {
                    if i == 0 {
                        "/".to_owned()
                    } else {
                        string_between(&cs, 0, i)
                    }
                },
                None => "/".to_owned(),
            }
        },
    }
}

/// The non-empty pieces of `path` between slashes.
pub fn path_components(path: &str) -> (r: Vec<String>)
    ensures
        text::texts(r@) == components(path@),
{
    let cs = chars_of(path);
    let mut r: Vec<String> = Vec::new();
    let mut i: usize = 0;
    let mut start: usize = 0;
    proof {
        assert(cs@.take(0) =~= Seq::<char>::empty());
        assert(text::texts(r@) =~= components(cs@.take(0)));
    }
    // `start` is where the piece that is being read begins.
    while i < cs.len()
        invariant
            cs@ == path@,
            start <= i <= cs@.len(),
            forall|k: int| start <= k < i ==> cs@[k] != '/',
            start > 0 ==> cs@[start - 1] == '/',
            text::texts(r@) == components(cs@.take(start as int)),
        decreases cs@.len() - i,
    {
        if cs[i] == '/' {
            if start < i {
                r.push(string_between(&cs, start, i));
                proof {
                    lemma_piece(cs@, start as int, i as int);
                    assert(text::texts(r@) =~= components(cs@.take(start as int)).push(
                        cs@.subrange(start as int, i as int),
                    ));
                }
            }
            proof {
                let now = cs@.take(i + 1);
                assert(now.drop_last() =~= cs@.take(i as int));
                assert(now.last() == '/');
                assert(text::texts(r@) == components(cs@.take(i as int)));
            }
            start = i + 1;
        }
        i += 1;
    }
    if start < i {
        r.push(string_between(&cs, start, i));
        proof {
            lemma_piece(cs@, start as int, i as int);
            assert(text::texts(r@) =~= components(cs@.take(start as int)).push(
                cs@.subrange(start as int, i as int),
            ));
        }
    }
    assert(cs@.take(i as int) =~= cs@);
    r
}

/// A piece that begins after a slash is the next part.
proof fn lemma_piece(s: Seq<char>, from: int, to: int)
    requires
        0 <= from < to <= s.len(),
        forall|k: int| from <= k < to ==> s[k] != '/',
        from > 0 ==> s[from - 1] == '/',
    ensures
        components(s.take(to)) == components(s.take(from)).push(s.subrange(from, to)),
    decreases to - from,
{
    let now = s.take(to);
    assert(now.drop_last() =~= s.take(to - 1));
    assert(now.last() == s[to - 1]);
    if to == from + 1 {
        assert(s.subrange(from, to) =~= seq![s[from]]);
        if from > 0 {
            assert(now[to - 2] == s[from - 1]);
        }
    } else {
        lemma_piece(s, from, to - 1);
        assert(now[to - 2] == s[to - 2]);
        let head = components(s.take(from));
        assert(head.push(s.subrange(from, to - 1)).drop_last() =~= head);
        assert(s.subrange(from, to - 1).push(s[to - 1]) =~= s.subrange(from, to));
    }
}

// ---------------------------------------------------------------------------
// Ancestors
// ---------------------------------------------------------------------------
/// `a` is `p` cut before one of its slashes, the leading one excepted.
pub open spec fn is_ancestor_dir(a: Seq<char>, p: Seq<char>) -> bool {
    0 < a.len() < p.len() && p[a.len() as int] == '/' && p.take(a.len() as int) == a
}

/// `p` cut before each of its slashes below position `to`, the longest first.
pub open spec fn cuts_before(p: Seq<char>, to: int) -> Seq<Seq<char>>
    decreases to,
{
    if to <= 1 || to > p.len() {
        Seq::empty()
    } else if p[to - 1] == '/' {
        seq![p.take(to - 1)] + cuts_before(p, to - 1)
    } else {
        cuts_before(p, to - 1)
    }
}

/// The cuts of a path are its ancestor directories.
pub proof fn lemma_cuts_before(p: Seq<char>, to: int, a: Seq<char>)
    requires
        0 <= to <= p.len(),
    ensures
        cuts_before(p, to).contains(a) <==> is_ancestor_dir(a, p) && a.len() < to,
    decreases to,
{
    if to > 1 {
        lemma_cuts_before(p, to - 1, a);
        let rest = cuts_before(p, to - 1);
        let all = cuts_before(p, to);
        if p[to - 1] == '/' {
            let cut = p.take(to - 1);
            assert(all[0] == cut);
            assert(cut.len() == to - 1);
            if all.contains(a) {
                let k = choose|k: int| 0 <= k < all.len() && all[k] == a;
                if k > 0 {
                    assert(rest[k - 1] == a);
                }
            }
            if rest.contains(a) {
                let k = choose|k: int| 0 <= k < rest.len() && rest[k] == a;
                assert(all[k + 1] == a);
            }
            if is_ancestor_dir(a, p) && a.len() < to && a.len() >= to - 1 {
                assert(a == cut);
            }
        }
    }
}

/// The first `n` characters cut before each of their slashes but a leading one, the
/// longest first.
pub fn path_cuts(cs: &Vec<char>, n: usize) -> (r: Vec<String>)
    requires
        n <= cs@.len(),
    ensures
        text::texts(r@) == cuts_before(cs@.take(n as int), n as int),
        forall|a: Seq<char>|
            text::texts(r@).contains(a) <==> is_ancestor_dir(a, cs@.take(n as int)),
{
    let ghost p = cs@.take(n as int);
    let mut r: Vec<String> = Vec::new();
    let mut i: usize = n;
    proof {
        assert(text::texts(r@) =~= Seq::<Seq<char>>::empty());
        assert(Seq::<Seq<char>>::empty() + cuts_before(p, n as int) =~= cuts_before(p, n as int));
    }
    while i > 1
        invariant
            i <= n <= cs@.len(),
            p == cs@.take(n as int),
            text::texts(r@) + cuts_before(p, i as int) == cuts_before(p, n as int),
        decreases i,
    {
        if cs[i - 1] == '/' {
            let ghost before = text::texts(r@);
            r.push(string_between(cs, 0, i - 1));
            proof {
                assert(cs@.subrange(0, i - 1) =~= p.take(i - 1));
                assert(text::texts(r@) =~= before.push(p.take(i - 1)));
                assert(before.push(p.take(i - 1)) + cuts_before(p, i - 1) =~= before + (seq![
                    p.take(i - 1),
                ] + cuts_before(p, i - 1)));
            }
        }
        i -= 1;
    }
    proof {
        assert(cuts_before(p, i as int) =~= Seq::<Seq<char>>::empty());
        assert(text::texts(r@) + Seq::<Seq<char>>::empty() =~= text::texts(r@));
        assert forall|a: Seq<char>|
            text::texts(r@).contains(a) <==> is_ancestor_dir(a, p) by {
            lemma_cuts_before(p, n as int, a);
        }
    }
    r
}

/// The directories above `path`, the nearest first, the root not among them. Slashes
/// at the end of `path` do not count.
pub fn ancestor_dirs(path: &str) -> (r: Vec<String>)
    ensures
        text::texts(r@) == cuts_before(
            text::strip_end(path@, '/'),
            text::strip_end(path@, '/').len() as int,
        ),
        forall|a: Seq<char>|
            text::texts(r@).contains(a) <==> is_ancestor_dir(a, text::strip_end(path@, '/')),
{
    let cs = chars_of(path);
    let n: usize = run_end(&cs, '/');
    path_cuts(&cs, n)
}

/// Whether `ancestor` is `path` itself or a directory above it; the root is above
/// every path.
pub open spec fn within(path: Seq<char>, ancestor: Seq<char>) -> bool {
    ||| ancestor == seq!['/']
    ||| path == ancestor
    ||| (ancestor.is_prefix_of(path) && ancestor.len() < path.len() && path[ancestor.len() as int]
        == '/')
}

/// Whether `ancestor` is `path` itself or a directory above it; the root is above
/// every path.
pub fn is_path_ancestor_or_self(path: &str, ancestor: &str) -> (r: bool)
    ensures
        r == within(path@, ancestor@),
{
    proof {
        reveal_strlit("/");
        assert("/"@ =~= seq!['/']);
    }
    if same(ancestor, "/") || same(path, ancestor) {
        return true;
    }
    let p = chars_of(path);
    let a = chars_of(ancestor);
    let under = text::at(&p, &a, 0);
    proof {
        if a@.len() <= p@.len() {
            assert(p@.subrange(0, a@.len() as int) =~= p@.take(a@.len() as int));
        }
    }
    under && a.len() < p.len() && p[a.len()] == '/'
}

/// A path is within a directory exactly when it is the directory, or when it goes on, behind the
/// directory and a slash, however deep; the root holds every path. The beginning of a name is no
/// directory.
pub proof fn law_within_is_a_whole_beginning(p: Seq<char>, a: Seq<char>, rest: Seq<char>)
    ensures
        within(a.push('/') + rest, a),
        within(p, a) <==> (a == seq!['/'] || p == a || a.push('/').is_prefix_of(p)),
        rest.len() > 0 && rest[0] != '/' && a != seq!['/'] ==> !within(a + rest, a),
{
    assert(a.is_prefix_of(a.push('/') + rest)) by {
        assert((a.push('/') + rest).take(a.len() as int) =~= a);
    }
    if a.push('/').is_prefix_of(p) {
        assert(p.take(a.len() as int + 1) =~= a.push('/'));
        assert(p.take(a.len() as int + 1)[a.len() as int] == '/');
        assert(p.take(a.len() as int) =~= a) by {
            assert(p.take(a.len() as int + 1).take(a.len() as int) =~= a);
        }
    }
    if a.is_prefix_of(p) && a.len() < p.len() && p[a.len() as int] == '/' {
        assert(p.take(a.len() as int + 1) =~= a.push('/'));
    }
}

/// Every path is within itself and within the root.
pub proof fn law_within_reflexive(p: Seq<char>)
    ensures
        within(p, p),
        within(p, seq!['/']),
{
}

/// A path within a directory that is within another is within the other: no step of
/// a descent leaves the tree it began in.
pub proof fn law_within_transitive(p: Seq<char>, d: Seq<char>, a: Seq<char>)
    requires
        p.len() > 0 && p[0] == '/',
        within(p, d),
        within(d, a),
    ensures
        within(p, a),
{
    if a != seq!['/'] && p != a && d != a && p != d {
        if d == seq!['/'] {
            assert(a.len() == 0) by {
                assert(a.is_prefix_of(d));
            }
            assert(a =~= Seq::<char>::empty());
            assert(a.is_prefix_of(p));
        } else {
            assert(d.is_prefix_of(p) && a.is_prefix_of(d));
            assert(p.take(a.len() as int) =~= a);
            assert(d[a.len() as int] == p[a.len() as int]);
        }
    }
}

/// Two paths that are within each other are the same path, or one is the root and
/// the other is within nothing else.
pub proof fn law_within_antisymmetric(p: Seq<char>, q: Seq<char>)
    requires
        p != seq!['/'],
        q != seq!['/'],
        within(p, q),
        within(q, p),
    ensures
        p == q,
{
}

// ---------------------------------------------------------------------------
// Paths relative to the root of a share
// ---------------------------------------------------------------------------
/// The longest common beginning of two lists of parts.
pub open spec fn common_parts(a: Seq<Seq<char>>, b: Seq<Seq<char>>) -> Seq<Seq<char>>
    decreases a.len(),
{
    if a.len() == 0 || b.len() == 0 || a[0] != b[0] {
        Seq::empty()
    } else {
        seq![a[0]] + common_parts(a.skip(1), b.skip(1))
    }
}

/// The parts of the directory that holds the file; none where the file has no path.
pub open spec fn holder_parts(path: Seq<char>) -> Option<Seq<Seq<char>>> {
    match normal_path(path) {
        Some(n) => Some(parent_parts(parts_of(n))),
        None => None,
    }
}

/// The parts that the holders of all files with a path have in common; none where no
/// file has a path.
pub open spec fn shared_holder(paths: Seq<Seq<char>>) -> Option<Seq<Seq<char>>>
    decreases paths.len(),
{
    if paths.len() == 0 {
        None
    } else {
        match (shared_holder(paths.drop_last()), holder_parts(paths.last())) {
            (Some(a), Some(b)) => Some(common_parts(a, b)),
            (Some(a), None) => Some(a),
            (None, b) => b,
        }
    }
}

/// The raw paths of the files.
pub open spec fn raw_paths(files: Seq<SharedFileInfo>) -> Seq<Seq<char>> {
    files.map_values(|f: SharedFileInfo| f.path@)
}

/// The root of a share: the directory that all its top entries have in common; empty
/// where no entry has a path.
pub open spec fn share_root_of(paths: Seq<Seq<char>>) -> Seq<char> {
    match shared_holder(paths) {
        Some(parts) => canonical(parts),
        None => Seq::empty(),
    }
}

/// How many of the first parts two lists have in common.
fn common_len(a: &Vec<String>, b: &Vec<String>) -> (r: usize)
    ensures
        r <= a@.len(),
        text::texts(a@).take(r as int) == common_parts(text::texts(a@), text::texts(b@)),
{
    let mut i: usize = 0;
    let ghost ta = text::texts(a@);
    let ghost tb = text::texts(b@);
    proof {
        assert(ta.skip(0) =~= ta);
        assert(tb.skip(0) =~= tb);
        assert(ta.take(0) + common_parts(ta, tb) =~= common_parts(ta, tb));
    }
    while i < a.len() && i < b.len() && same(a[i].as_str(), b[i].as_str())
        invariant
            ta == text::texts(a@),
            tb == text::texts(b@),
            i <= a@.len(),
            i <= b@.len(),
            ta.take(i as int) + common_parts(ta.skip(i as int), tb.skip(i as int)) == common_parts(
                ta,
                tb,
            ),
        decreases a@.len() - i,
    {
        proof {
            let x = ta.skip(i as int);
            let y = tb.skip(i as int);
            assert(x[0] == y[0]);
            assert(x.skip(1) =~= ta.skip(i + 1));
            assert(y.skip(1) =~= tb.skip(i + 1));
            assert(ta.take(i as int) + (seq![x[0]] + common_parts(x.skip(1), y.skip(1))) =~= ta.take(
                i + 1,
            ) + common_parts(x.skip(1), y.skip(1)));
        }
        i += 1;
    }
    proof {
        let x = ta.skip(i as int);
        let y = tb.skip(i as int);
        if i < a@.len() && i < b@.len() {
            assert(x[0] == a@[i as int]@);
            assert(y[0] == b@[i as int]@);
        }
        assert(common_parts(x, y) =~= Seq::<Seq<char>>::empty());
        assert(ta.take(i as int) + Seq::<Seq<char>>::empty() =~= ta.take(i as int));
    }
    i
}

/// The path of the given parts; `/` where there is none.
fn path_of(parts: &Vec<String>) -> (r: String)
    ensures
        r@ == canonical(text::texts(parts@)),
{
    proof {
        reveal_strlit("/");
        assert("/"@ =~= seq!['/']);
    }
    if parts.len() == 0 {
        return "/".to_owned();
    }
    let mut r = String::new();
    let mut i: usize = 0;
    let ghost tp = text::texts(parts@);
    proof {
        assert(joined(tp.take(0)) =~= Seq::<char>::empty());
    }
    while i < parts.len()
        invariant
            tp == text::texts(parts@),
            i <= parts@.len(),
            r@ == joined(tp.take(i as int)),
        decreases parts@.len() - i,
    {
        r.push('/');
        r.append(parts[i].as_str());
        i += 1;
        proof {
            assert(tp.take(i as int).drop_last() =~= tp.take(i - 1));
            assert(tp.take(i as int).last() == tp[i - 1]);
        }
    }
    assert(tp.take(i as int) =~= tp);
    r
}

/// The root of a share, found from the entries of its top directory.
pub fn infer_share_root(files: &[SharedFileInfo]) -> (r: String)
    ensures
        r@ == share_root_of(raw_paths(files@)),
{
    let mut common: Option<Vec<String>> = None;
    let mut i: usize = 0;
    let ghost paths = raw_paths(files@);
    proof {
        assert(paths.take(0) =~= Seq::<Seq<char>>::empty());
    }
    while i < files.len()
        invariant
            paths == raw_paths(files@),
            i <= files@.len(),
            match common {
                Some(parts) => shared_holder(paths.take(i as int)) == Some(text::texts(parts@)),
                None => shared_holder(paths.take(i as int)) is None,
            },
        decreases files@.len() - i,
    {
        proof {
            assert(paths.take(i + 1).drop_last() =~= paths.take(i as int));
            assert(paths.take(i + 1).last() == files@[i as int].path@);
        }
        match normalize_snapshot_path(files[i].path.clone()) {
            None => {},
            Some(n) => {
                let parent = parent_dir(n.as_str());
                let parts = path_components(parent.as_str());
                proof {
                    let all = parts_of(n@);
                    lemma_components_are_parts(unified(text::trimmed(n@)));
                    let up = parent_parts(all);
                    assert forall|k: int| 0 <= k < up.len() implies is_part(#[trigger] up[k]) by {
                        assert(is_part(all[k]));
                    }
                    lemma_components_canonical(up);
                    assert(text::texts(parts@) == up);
                }
                match common {
                    None => {
                        common = Some(parts);
                    },
                    Some(mut so_far) => {
                        let keep: usize = common_len(&so_far, &parts);
                        let ghost was = text::texts(so_far@);
                        so_far.truncate(keep);
                        assert(text::texts(so_far@) =~= was.take(keep as int));
                        common = Some(so_far);
                    },
                }
            },
        }
        i += 1;
    }
    assert(paths.take(i as int) =~= paths);
    match common {
        None => String::new(),
        Some(parts) => path_of(&parts),
    }
}

/// What stands after the last slash; the whole text where there is none.
pub open spec fn after_last_slash(s: Seq<char>) -> Seq<char> {
    match text::last_before(s, '/', s.len() as int) {
        Some(i) => s.skip(i + 1),
        None => s,
    }
}

/// What stands after the last slash; the whole text where there is none.
pub fn last_segment(s: &str) -> (r: String)
    ensures
        r@ == after_last_slash(s@),
{
    let cs = chars_of(s);
    let n: usize = cs.len();
    match rfind_char(&cs, '/', n) {
        Some(i) => {
            assert(cs@.subrange(i + 1, n as int) =~= cs@.skip(i + 1));
            string_between(&cs, i + 1, n)
        },
        None => s.to_owned(),
    }
}

/// The part of the normalised path `raw` below the normalised root `root`.
pub open spec fn below_root(raw: Seq<char>, root: Seq<char>) -> Seq<char> {
    if root.len() == 0 || root == seq!['/'] {
        text::strip_start(raw, '/')
    } else if raw == root {
        Seq::empty()
    } else if root.is_prefix_of(raw) && root.len() < raw.len() && raw[root.len() as int] == '/' {
        raw.skip((root.len() + 1) as int)
    } else {
        text::strip_start(raw, '/')
    }
}

/// The normal form of a path, empty where it has none.
pub open spec fn normal_or_empty(p: Seq<char>) -> Seq<char> {
    match normal_path(p) {
        Some(n) => n,
        None => Seq::empty(),
    }
}

/// The path of an entry relative to the root of its share: what stands below the
/// root, else the entry's own name, else the last segment of its path.
pub open spec fn share_path(raw_path: Seq<char>, name: Seq<char>, share_root: Seq<char>) -> Seq<
    char,
> {
    let raw = normal_or_empty(raw_path);
    let relative = if raw.len() == 0 {
        Seq::empty()
    } else {
        below_root(raw, normal_or_empty(share_root))
    };
    let candidate = if text::trimmed(relative).len() > 0 {
        relative
    } else if text::trimmed(name).len() > 0 {
        text::trimmed(name)
    } else {
        after_last_slash(raw)
    };
    match normal_path(candidate) {
        Some(n) => n,
        None => seq!['/'],
    }
}

/// The path of an entry relative to the root of its share.
pub fn normalize_share_path(raw_path: &str, name: &str, share_root: &str) -> (r: String)
    ensures
        r@ == share_path(raw_path@, name@, share_root@),
{
    proof {
        reveal_strlit("/");
        assert("/"@ =~= seq!['/']);
    }
    let raw = match normalize_snapshot_path(raw_path.to_owned()) {
        Some(n) => n,
        None => String::new(),
    };
    let root = match normalize_snapshot_path(share_root.to_owned()) {
        Some(n) => n,
        None => String::new(),
    };
    let rs = chars_of(raw.as_str());
    let n: usize = rs.len();
    let relative = if n == 0 {
        String::new()
    } else {
        let lead: usize = run_start(&rs, '/');
        proof {
            assert(rs@.subrange(lead as int, n as int) =~= rs@.skip(lead as int));
        }
        if root.as_str().is_empty() || same(root.as_str(), "/") {
            string_between(&rs, lead, n)
        } else if same(raw.as_str(), root.as_str()) {
            String::new()
        } else {
            let os = chars_of(root.as_str());
            let under = text::at(&rs, &os, 0);
            proof {
                if os@.len() <= rs@.len() {
                    assert(rs@.subrange(0, os@.len() as int) =~= rs@.take(os@.len() as int));
                }
            }
            if under && os.len() < n && rs[os.len()] == '/' {
                assert(rs@.subrange((os@.len() + 1) as int, n as int) =~= rs@.skip((os@.len() + 1) as int));
                string_between(&rs, os.len() + 1, n)
            } else {
                string_between(&rs, lead, n)
            }
        }
    };
    let own_name = trim(name);
    let bare = trim(relative.as_str());
    let candidate = if !bare.as_str().is_empty() {
        relative
    } else if !own_name.as_str().is_empty() {
        own_name
    } else {
        last_segment(raw.as_str())
    };
    match normalize_snapshot_path(candidate) {
        Some(p) => p,
        None => "/".to_owned(),
    }
}

/// What a path of the form `/sharelink<uk>-<shareid>/rest` stands for: `/rest`. Other
/// paths stand for themselves.
pub open spec fn without_sharelink(path: Seq<char>) -> Seq<char> {
    let t = text::strip_start(path, '/');
    if !"sharelink"@.is_prefix_of(t) {
        path
    } else {
        let rest = t.skip("sharelink"@.len() as int);
        match text::first_at(rest, '/', 0) {
            Some(i) => if common::is_share_mark(rest.take(i)) {
                seq!['/'] + rest.skip(i + 1)
            } else {
                path
            },
            None => if common::is_share_mark(rest) {
                seq!['/']
            } else {
                path
            },
        }
    }
}

/// Takes the head `/sharelink<uk>-<shareid>` off a path.
pub fn strip_sharelink_prefix(path: &str) -> (r: String)
    ensures
        r@ == without_sharelink(path@),
{
    proof {
        reveal_strlit("/");
        assert("/"@ =~= seq!['/']);
    }
    let cs = chars_of(path);
    let n: usize = cs.len();
    let lead: usize = run_start(&cs, '/');
    let head = chars_of("sharelink");
    let ghost t = text::strip_start(path@, '/');
    assert(t == cs@.skip(lead as int));
    let found = text::at(&cs, &head, lead);
    proof {
        if lead + head@.len() <= n {
            assert(cs@.subrange(lead as int, lead + head@.len()) =~= t.take(head@.len() as int));
        }
    }
    if !found {
        return path.to_owned();
    }
    let from: usize = lead + head.len();
    let ghost rest = t.skip(head@.len() as int);
    assert(rest =~= cs@.skip(from as int));
    match find_char(&cs, '/', from) {
        Some(i) => {
            proof {
                text::lemma_first_at(rest, '/', 0);
                assert(rest[i - from] == '/');
                assert(text::first_at(rest, '/', 0) == Some(i - from)) by {
                    let k = text::first_at(rest, '/', 0)->Some_0;
                    assert(rest[k] == cs@[k + from]);
                }
                assert(rest.skip(i - from + 1) =~= cs@.subrange(i + 1, n as int));
                assert(cs@.subrange(from as int, i as int) =~= rest.take(i - from));
            }
            if share_mark_between(&cs, from, i) {
                concat2("/", string_between(&cs, i + 1, n).as_str())
            } else {
                path.to_owned()
            }
        },
        None => {
            proof {
                text::lemma_first_at(rest, '/', 0);
                if text::first_at(rest, '/', 0) is Some {
                    let k = text::first_at(rest, '/', 0)->Some_0;
                    assert(rest[k] == cs@[k + from]);
                }
                assert(cs@.subrange(from as int, n as int) =~= rest);
            }
            if share_mark_between(&cs, from, n) {
                "/".to_owned()
            } else {
                path.to_owned()
            }
        },
    }
}

/// An include path as it stands in a subscription, relative to the root of the share.
pub open spec fn include_path(inc: Seq<char>, share_root: Seq<char>) -> Seq<char> {
    let stripped = without_sharelink(inc);
    share_path(stripped, after_last_slash(stripped), share_root)
}

/// Brings an include path to the names that the entries of a snapshot have: relative
/// to the root of the share.
pub fn remap_include_to_share_root(inc: &str, share_root: &str) -> (r: String)
    ensures
        r@ == include_path(inc@, share_root@),
{
    let stripped = strip_sharelink_prefix(inc);
    let name = last_segment(stripped.as_str());
    normalize_share_path(stripped.as_str(), name.as_str(), share_root)
}

/// A path below the mark of a share stands for the path without the mark.
pub proof fn law_share_mark_is_taken_off(mark: Seq<char>, rest: Seq<char>)
    requires
        common::is_share_mark(mark),
    ensures
        without_sharelink("/sharelink"@ + mark + seq!['/'] + rest) == seq!['/'] + rest,
{
    reveal_strlit("/sharelink");
    reveal_strlit("sharelink");
    let path = "/sharelink"@ + mark + seq!['/'] + rest;
    let t = text::strip_start(path, '/');
    let n = text::lemma_strip_start(path, '/');
    assert(path[0] == '/' && path[1] == 's');
    assert(n == 1);
    let tail = mark + seq!['/'] + rest;
    assert(t =~= "sharelink"@ + tail);
    assert("sharelink"@ =~= t.subrange(0, "sharelink"@.len() as int));
    assert(t.skip("sharelink"@.len() as int) =~= tail);
    let k = choose|k: int|
        0 <= k < mark.len() && #[trigger] mark[k] == '-' && numbers::all_digits(mark.take(k))
            && numbers::all_digits(mark.skip(k + 1));
    assert forall|j: int| 0 <= j < mark.len() implies tail[j] != '/' by {
        assert(tail[j] == mark[j]);
        if j < k {
            assert(mark.take(k)[j] == mark[j]);
        } else if j > k {
            assert(mark.skip(k + 1)[j - k - 1] == mark[j]);
        }
    }
    assert(tail[mark.len() as int] == '/');
    text::lemma_first_at(tail, '/', 0);
    assert(text::first_at(tail, '/', 0) == Some(mark.len() as int));
    assert(tail.take(mark.len() as int) =~= mark);
    assert(tail.skip(mark.len() as int + 1) =~= rest);
}

/// Only a path below the mark of a share, or the mark itself, is changed: where the first part of
/// a path is no mark, as that of a directory whose name merely begins with `sharelink`, the path
/// stands for itself.
pub proof fn law_other_paths_stand_for_themselves(name: Seq<char>, rest: Seq<char>)
    requires
        !common::is_share_mark(name),
        forall|i: int| 0 <= i < name.len() ==> #[trigger] name[i] != '/',
    ensures
        without_sharelink("/sharelink"@ + name + seq!['/'] + rest) == "/sharelink"@ + name
            + seq!['/'] + rest,
{
    reveal_strlit("/sharelink");
    reveal_strlit("sharelink");
    let path = "/sharelink"@ + name + seq!['/'] + rest;
    let t = text::strip_start(path, '/');
    let n = text::lemma_strip_start(path, '/');
    assert(path[0] == '/' && path[1] == 's');
    assert(n == 1);
    let tail = name + seq!['/'] + rest;
    assert(t =~= "sharelink"@ + tail);
    assert(t.skip("sharelink"@.len() as int) =~= tail);
    assert forall|j: int| 0 <= j < name.len() implies tail[j] != '/' by {
        assert(tail[j] == name[j]);
    }
    assert(tail[name.len() as int] == '/');
    text::lemma_first_at(tail, '/', 0);
    assert(text::first_at(tail, '/', 0) == Some(name.len() as int));
    assert(tail.take(name.len() as int) =~= name);
}

/// A path is taken apart at its slashes: the parts before a slash, then those behind it. A piece
/// without a slash is one part, and nothing has no part.
pub proof fn law_parts_stand_between_slashes(a: Seq<char>, b: Seq<char>, c: Seq<char>)
    ensures
        components(a.push('/') + b) == components(a) + components(b),
        components(seq![]).len() == 0,
        c.len() > 0 && !c.contains('/') ==> components(c) == seq![c],
    decreases b.len(),
{
    let t = a.push('/') + b;
    if b.len() == 0 {
        assert(t =~= a.push('/'));
        assert(t.drop_last() =~= a);
        assert(components(a) + components(b) =~= components(a));
    } else {
        let d = b.drop_last();
        law_parts_stand_between_slashes(a, d, seq![]);
        lemma_components_are_parts(d);
        assert(t.drop_last() =~= a.push('/') + d);
        assert(t.last() == b.last());
        let (ca, cd) = (components(a), components(d));
        if b.last() != '/' {
            if b.len() == 1 {
                assert(t[t.len() - 2] == '/');
                assert(d =~= seq![]);
                assert(cd =~= Seq::<Seq<char>>::empty());
                assert((ca + cd).push(seq![b.last()]) =~= ca + cd.push(seq![b.last()]));
            } else {
                assert(t[t.len() - 2] == b[b.len() - 2]);
                assert(d.last() == b[b.len() - 2]);
                if d.last() == '/' {
                    assert((ca + cd).push(seq![b.last()]) =~= ca + cd.push(seq![b.last()]));
                } else {
                    let grown = cd.last().push(b.last());
                    assert((ca + cd).last() == cd.last());
                    assert((ca + cd).drop_last().push(grown) =~= ca + cd.drop_last().push(grown));
                }
            }
        }
    }
    if c.len() > 0 && !c.contains('/') {
        lemma_one_piece(c);
    }
}

proof fn lemma_one_piece(c: Seq<char>)
    requires
        c.len() > 0,
        !c.contains('/'),
    ensures
        components(c) == seq![c],
    decreases c.len(),
{
    assert(c[c.len() - 1] == c.last());
    assert(c.last() != '/') by {
        assert(c.contains(c[c.len() - 1]));
    }
    let d = c.drop_last();
    if d.len() == 0 {
        assert(components(d) =~= Seq::<Seq<char>>::empty());
        assert(c =~= seq![c.last()]);
        assert(components(c) =~= seq![c]);
    } else {
        assert(!d.contains('/')) by {
            if d.contains('/') {
                let k = choose|k: int| 0 <= k < d.len() && d[k] == '/';
                assert(c[k] == '/');
            }
        }
        lemma_one_piece(d);
        assert(c[c.len() - 2] == d.last());
        assert(d[d.len() - 1] == d.last());
        assert(d.contains(d[d.len() - 1]));
        assert(seq![d].drop_last() =~= Seq::<Seq<char>>::empty());
        assert(seq![d].last() == d);
        assert(d.push(c.last()) =~= c);
        assert(components(c) =~= seq![c]);
    }
}

/// A directory above a path is a beginning of it that a slash follows.
pub proof fn law_ancestor_is_a_whole_beginning(a: Seq<char>, p: Seq<char>)
    ensures
        is_ancestor_dir(a, p) <==> a.len() > 0 && a.push('/').is_prefix_of(p),
{
    let n = a.len() as int;
    if a.push('/').is_prefix_of(p) {
        assert(p.take(n + 1) =~= a.push('/'));
        assert(p.take(n + 1)[n] == '/');
        assert(p.take(n) =~= a) by {
            assert(p.take(n + 1).take(n) =~= p.take(n));
            assert(a.push('/').take(n) =~= a);
        }
    }
    if is_ancestor_dir(a, p) {
        assert(p.take(n + 1) =~= a.push('/'));
    }
}

/// The name of an entry is what stands behind its last slash.
pub proof fn law_name_stands_behind_the_last_slash(dir: Seq<char>, name: Seq<char>)
    requires
        !name.contains('/'),
    ensures
        after_last_slash(dir.push('/') + name) == name,
        after_last_slash(name) == name,
{
    let s = dir.push('/') + name;
    text::lemma_last_before(s, '/', s.len() as int);
    assert(s[dir.len() as int] == '/');
    let k = text::last_before(s, '/', s.len() as int)->Some_0;
    if k > dir.len() {
        assert(s[k] == name[k - dir.len() - 1]);
        assert(name.contains('/'));
    }
    assert(s.skip(dir.len() as int + 1) =~= name);
    text::lemma_last_before(name, '/', name.len() as int);
    if text::last_before(name, '/', name.len() as int) is Some {
        let m = text::last_before(name, '/', name.len() as int)->Some_0;
        assert(name.contains(name[m]));
    }
}

/// An entry below the root of its share is named by what stands behind the root; an entry of a
/// share without a root of its own by its whole path.
pub proof fn law_entry_is_named_below_the_root(root: Seq<char>, rest: Seq<char>, name: Seq<char>)
    requires
        rest.len() > 0,
        !text::is_space(rest[0]),
        is_plain(seq!['/'] + rest),
        is_plain(root.push('/') + rest),
        root.len() > 0,
    ensures
        share_path(root.push('/') + rest, name, root) == seq!['/'] + rest,
        share_path(seq!['/'] + rest, name, seq!['/']) == seq!['/'] + rest,
        share_path(seq!['/'] + rest, name, seq![]) == seq!['/'] + rest,
{
    let raw = root.push('/') + rest;
    let top = seq!['/'] + rest;
    law_normal_path_is_plainly_written(raw);
    law_normal_path_is_plainly_written(top);
    assert(raw[root.len() as int] == '/');
    lemma_plain_beginning(raw, root.len() as int);
    assert(raw.take(root.len() as int) =~= root);
    law_normal_path_is_plainly_written(root);
    assert(raw.skip(root.len() as int + 1) =~= rest);
    assert(raw != root);
    // The root of all is normal, and nothing has no normal form.
    let slash = seq!['/'];
    assert(text::trim_start(slash) == slash);
    assert(text::trim_end(slash) == slash);
    assert(unified(slash) =~= slash);
    reveal_with_fuel(components, 2);
    assert(components(slash) =~= Seq::<Seq<char>>::empty());
    assert(normal_or_empty(slash) == slash);
    assert(text::trimmed(Seq::<char>::empty()).len() == 0);
    assert(normal_or_empty(seq![]) =~= seq![]);
    // Behind the first slash of a plain path stands no other.
    let n = text::lemma_strip_start(top, '/');
    assert(top[0] == '/');
    assert(top[1] == rest[0]);
    assert(rest[0] != '/') by {
        assert(top[1] != '/' || top[0] != '/');
    }
    assert(n == 1);
    assert(top.skip(1) =~= rest);
    // The rest alone has the path with a slash before it as its normal form.
    assert(rest.last() == top.last());
    assert(text::trim_start(rest) == rest);
    assert(text::trim_end(rest) == rest);
    assert(unified(rest) =~= rest) by {
        assert forall|i: int| 0 <= i < rest.len() implies unified(rest)[i] == rest[i] by {
            assert(top[i + 1] != '\\');
        }
    }
    assert(top =~= Seq::<char>::empty().push('/') + rest);
    law_parts_stand_between_slashes(seq![], rest, seq![]);
    assert(components(seq![]) + components(rest) =~= components(rest));
    lemma_plain_is_joined(top);
}

/// The root of a share is above each of its top entries, and nothing below it is: whatever
/// directory is above them all is the root or above it.
pub proof fn law_share_root_is_the_deepest_common_dir(paths: Seq<Seq<char>>, d: Seq<char>)
    requires
        paths.len() > 0,
        forall|i: int| 0 <= i < paths.len() ==> is_plain(#[trigger] paths[i]),
    ensures
        share_root_of(paths) == seq!['/'] || forall|i: int|
            0 <= i < paths.len() ==> share_root_of(paths).push('/').is_prefix_of(
                #[trigger] paths[i],
            ),
        d.len() > 0 && (forall|i: int|
            0 <= i < paths.len() ==> d.push('/').is_prefix_of(#[trigger] paths[i])) ==> (
        share_root_of(paths) == d || d.push('/').is_prefix_of(share_root_of(paths))),
{
    lemma_shared_holder(paths);
    let parts = shared_holder(paths)->Some_0;
    let root = share_root_of(paths);
    assert forall|i: int| 0 <= i < paths.len() && parts.len() > 0 implies joined(parts).push(
        '/',
    ).is_prefix_of(#[trigger] paths[i]) by {
        let c = components(paths[i]);
        lemma_plain_is_joined(paths[i]);
        assert(c.take(parts.len() as int) =~= parts);
        lemma_joined_beginning(c, parts.len() as int);
    }
    if d.len() > 0 && (forall|i: int|
        0 <= i < paths.len() ==> d.push('/').is_prefix_of(#[trigger] paths[i])) {
        let p = paths[0];
        assert(d.push('/').is_prefix_of(p));
        let n = d.len() as int;
        assert(p.take(n + 1) =~= d.push('/'));
        assert(p.take(n + 1)[n] == '/');
        lemma_plain_beginning(p, n);
        assert(p.take(n) =~= d) by {
            assert(p.take(n + 1).take(n) =~= p.take(n));
            assert(d.push('/').take(n) =~= d);
        }
        lemma_plain_is_joined(d);
        let cd = components(d);
        assert forall|i: int| 0 <= i < paths.len() implies cd.len() < components(
            #[trigger] paths[i],
        ).len() && components(paths[i]).take(cd.len() as int) == cd by {
            lemma_beginning_parts(d, paths[i]);
        }
        lemma_shared_holder_is_deepest(paths, cd);
        assert(parts.take(cd.len() as int) =~= cd);
        if parts.len() > cd.len() {
            lemma_joined_beginning(parts, cd.len() as int);
        } else {
            assert(parts =~= cd);
        }
    }
}

proof fn lemma_beginning_parts(d: Seq<char>, p: Seq<char>)
    requires
        is_plain(p),
        d.push('/').is_prefix_of(p),
    ensures
        components(d).len() < components(p).len(),
        components(p).take(components(d).len() as int) == components(d),
{
    let n = d.len() as int;
    assert(p.take(n + 1) =~= d.push('/'));
    let t = p.skip(n + 1);
    assert(d.push('/') + t =~= p);
    law_parts_stand_between_slashes(d, t, seq![]);
    assert(p[p.len() - 1] == p.last());
    assert(t.len() > 0) by {
        if t.len() == 0 {
            assert(p =~= d.push('/'));
        }
    }
    assert(t.last() == p.last());
    lemma_components_are_parts(t);
    assert(components(p).take(components(d).len() as int) =~= components(d));
}

proof fn lemma_joined_beginning(parts: Seq<Seq<char>>, k: int)
    requires
        0 <= k < parts.len(),
    ensures
        joined(parts.take(k)).push('/').is_prefix_of(joined(parts)),
    decreases parts.len(),
{
    let front = parts.drop_last();
    let whole = joined(parts);
    if k == front.len() {
        assert(parts.take(k) =~= front);
        assert(whole.take(joined(front).len() as int + 1) =~= joined(front).push('/'));
    } else {
        lemma_joined_beginning(front, k);
        assert(front.take(k) =~= parts.take(k));
        let b = joined(parts.take(k)).push('/');
        assert(joined(front).take(b.len() as int) =~= b);
        assert(whole.take(b.len() as int) =~= b) by {
            assert(whole.take(joined(front).len() as int) =~= joined(front));
            assert(whole.take(joined(front).len() as int).take(b.len() as int) =~= whole.take(
                b.len() as int,
            ));
        }
    }
}

proof fn lemma_common_parts(a: Seq<Seq<char>>, b: Seq<Seq<char>>)
    ensures
        common_parts(a, b).len() <= a.len(),
        common_parts(a, b).len() <= b.len(),
        a.take(common_parts(a, b).len() as int) == common_parts(a, b),
        b.take(common_parts(a, b).len() as int) == common_parts(a, b),
    decreases a.len(),
{
    if !(a.len() == 0 || b.len() == 0 || a[0] != b[0]) {
        lemma_common_parts(a.skip(1), b.skip(1));
        let c = common_parts(a.skip(1), b.skip(1));
        let n = c.len() as int;
        assert(a.take(n + 1) =~= seq![a[0]] + a.skip(1).take(n));
        assert(b.take(n + 1) =~= seq![b[0]] + b.skip(1).take(n));
    } else {
        assert(a.take(0) =~= Seq::<Seq<char>>::empty());
        assert(b.take(0) =~= Seq::<Seq<char>>::empty());
    }
}

proof fn lemma_common_parts_longest(a: Seq<Seq<char>>, b: Seq<Seq<char>>, c: Seq<Seq<char>>)
    requires
        c.len() <= a.len(),
        c.len() <= b.len(),
        a.take(c.len() as int) == c,
        b.take(c.len() as int) == c,
    ensures
        c.len() <= common_parts(a, b).len(),
    decreases c.len(),
{
    if c.len() > 0 {
        assert(a.take(c.len() as int)[0] == c[0]);
        assert(b.take(c.len() as int)[0] == c[0]);
        let d = c.skip(1);
        let n = d.len() as int;
        assert(a.skip(1).take(n) =~= a.take(n + 1).skip(1));
        assert(b.skip(1).take(n) =~= b.take(n + 1).skip(1));
        lemma_common_parts_longest(a.skip(1), b.skip(1), d);
    }
}

proof fn lemma_holder_of_plain(p: Seq<char>)
    requires
        is_plain(p),
    ensures
        holder_parts(p) == Some(components(p).drop_last()),
        components(p).len() > 0,
{
    law_normal_path_is_plainly_written(p);
    lemma_plain_is_trimmed(p);
    lemma_plain_is_joined(p);
}

proof fn lemma_shared_holder(paths: Seq<Seq<char>>)
    requires
        paths.len() > 0,
        forall|i: int| 0 <= i < paths.len() ==> is_plain(#[trigger] paths[i]),
    ensures
        shared_holder(paths) is Some,
        forall|i: int|
            0 <= i < paths.len() ==> shared_holder(paths)->Some_0.len() < components(
                #[trigger] paths[i],
            ).len() && components(paths[i]).take(shared_holder(paths)->Some_0.len() as int)
                == shared_holder(paths)->Some_0,
    decreases paths.len(),
{
    let front = paths.drop_last();
    let last = paths.last();
    assert(paths[paths.len() - 1] == last);
    lemma_holder_of_plain(last);
    let b = components(last).drop_last();
    let all = shared_holder(paths)->Some_0;
    if front.len() == 0 {
        assert(shared_holder(front) is None);
        assert(components(last).take(b.len() as int) =~= b);
    } else {
        assert forall|i: int| 0 <= i < front.len() implies is_plain(#[trigger] front[i]) by {
            assert(is_plain(paths[i]));
        }
        lemma_shared_holder(front);
        let a = shared_holder(front)->Some_0;
        lemma_common_parts(a, b);
        assert forall|i: int| 0 <= i < paths.len() implies all.len() < components(
            #[trigger] paths[i],
        ).len() && components(paths[i]).take(all.len() as int) == all by {
            let c = components(paths[i]);
            if i < front.len() {
                assert(front[i] == paths[i]);
                assert(c.take(a.len() as int).take(all.len() as int) =~= c.take(all.len() as int));
            } else {
                assert(b.take(all.len() as int) =~= c.take(all.len() as int));
            }
        }
    }
}

proof fn lemma_shared_holder_is_deepest(paths: Seq<Seq<char>>, c: Seq<Seq<char>>)
    requires
        paths.len() > 0,
        forall|i: int| 0 <= i < paths.len() ==> is_plain(#[trigger] paths[i]),
        forall|i: int|
            0 <= i < paths.len() ==> c.len() < components(#[trigger] paths[i]).len() && components(
                paths[i],
            ).take(c.len() as int) == c,
    ensures
        shared_holder(paths) is Some,
        c.len() <= shared_holder(paths)->Some_0.len(),
        shared_holder(paths)->Some_0.take(c.len() as int) == c,
    decreases paths.len(),
{
    let front = paths.drop_last();
    let last = paths.last();
    assert(paths[paths.len() - 1] == last);
    lemma_holder_of_plain(last);
    let b = components(last).drop_last();
    assert(b.take(c.len() as int) =~= components(last).take(c.len() as int));
    if front.len() == 0 {
        assert(shared_holder(front) is None);
    } else {
        assert forall|i: int| 0 <= i < front.len() implies is_plain(#[trigger] front[i]) by {
            assert(is_plain(paths[i]));
        }
        assert forall|i: int| 0 <= i < front.len() implies c.len() < components(
            #[trigger] front[i],
        ).len() && components(front[i]).take(c.len() as int) == c by {
            assert(front[i] == paths[i]);
        }
        lemma_shared_holder_is_deepest(front, c);
        let a = shared_holder(front)->Some_0;
        lemma_common_parts(a, b);
        lemma_common_parts_longest(a, b, c);
        let all = common_parts(a, b);
        assert(all.take(c.len() as int) =~= a.take(c.len() as int)) by {
            assert(a.take(all.len() as int).take(c.len() as int) =~= a.take(c.len() as int));
        }
    }
}

/// A path that does not lie below the root of the share is taken as it is.
pub proof fn law_path_beside_the_root_stays(p: Seq<char>, root: Seq<char>, name: Seq<char>)
    requires
        is_plain(p),
        is_plain(root),
        !text::is_space(p[1]),
        p != root,
        !root.push('/').is_prefix_of(p),
    ensures
        share_path(p, name, root) == p,
{
    law_normal_path_is_plainly_written(p);
    law_normal_path_is_plainly_written(root);
    let rest = p.skip(1);
    let n = text::lemma_strip_start(p, '/');
    assert(p[0] == '/');
    assert(p[1] != '/') by {
        if p[1] == '/' {
            assert(p[0] != '/');
        }
    }
    assert(n == 1);
    assert(!(root.is_prefix_of(p) && root.len() < p.len() && p[root.len() as int] == '/')) by {
        if root.is_prefix_of(p) && root.len() < p.len() && p[root.len() as int] == '/' {
            assert(p.take(root.len() as int) =~= root);
            assert(p.take(root.len() as int + 1) =~= root.push('/'));
        }
    }
    assert(below_root(p, root) == rest);
    assert(rest[0] == p[1]);
    assert(rest.last() == p.last());
    assert(text::trim_start(rest) == rest);
    assert(text::trim_end(rest) == rest);
    assert(unified(rest) =~= rest) by {
        assert forall|i: int| 0 <= i < rest.len() implies unified(rest)[i] == rest[i] by {
            assert(p[i + 1] != '\\');
        }
    }
    assert(p =~= Seq::<char>::empty().push('/') + rest);
    law_parts_stand_between_slashes(seq![], rest, seq![]);
    assert(components(seq![]) + components(rest) =~= components(rest));
    lemma_plain_is_joined(p);
}

} // verus!
