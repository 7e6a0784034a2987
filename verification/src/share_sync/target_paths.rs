//! Paths of the places that a share is synchronised to.
use vstd::prelude::*;
use vstd::string::*;

use crate::share_sync::error::{ErrorView, ShareSyncError};
use crate::share_sync::paths;
use crate::share_sync::paths::{normalize_snapshot_path, parent_dir, path_components};
use crate::share_sync::snapshot::ShareSnapshotItem;
use crate::text;
use crate::text::{chars_of, concat2, concat3, contains, rfind_char, run_end, run_start, same};
use crate::text::string_between;

verus! {

/// The normal form of a path on the disk; `/` for a path of white space alone.
pub open spec fn netdisk_path(p: Seq<char>) -> Seq<char> {
    paths::canonical(paths::parts_of(p))
}

/// The normal form of the directory that holds a path on the disk.
pub open spec fn netdisk_parent(p: Seq<char>) -> Seq<char> {
    paths::canonical(paths::parent_parts(paths::parts_of(p)))
}

/// The normal form of a path on the disk.
pub fn normalize_netdisk_path(path: &str) -> (r: String)
    ensures
        r@ == netdisk_path(path@),
{
    proof {
        reveal_strlit("/");
        assert("/"@ =~= seq!['/']);
    }
    match normalize_snapshot_path(path.to_owned()) {
        Some(p) => p,
        None => {
            proof {
                assert(paths::unified(text::trimmed(path@)) =~= Seq::<char>::empty());
            }
            "/".to_owned()
        },
    }
}

/// The normal form of the directory that holds a path on the disk.
pub fn parent_netdisk_dir(path: &str) -> (r: String)
    ensures
        r@ == netdisk_parent(path@),
{
    parent_dir(path)
}

/// The last part of a path on the disk; empty for the root.
pub fn basename_netdisk_path(path: &str) -> (r: String)
    ensures
        r@ == if paths::parts_of(path@).len() == 0 {
            Seq::empty()
        } else {
            paths::parts_of(path@).last()
        },
{
    let n = normalize_netdisk_path(path);
    let cs = chars_of(n.as_str());
    let len: usize = cs.len();
    let cut = rfind_char(&cs, '/', len);
    proof {
        let parts = paths::parts_of(path@);
        paths::lemma_components_are_parts(paths::unified(text::trimmed(path@)));
        if parts.len() > 0 {
            let front = parts.drop_last();
            let last = parts.last();
            assert(paths::is_part(parts[parts.len() - 1]));
            assert(cs@ == paths::joined(front).push('/') + last);
            let at = paths::joined(front).len();
            assert(cs@[at as int] == '/');
            assert forall|k: int| at < k < cs@.len() implies cs@[k] != '/' by {
                assert(cs@[k] == last[k - at - 1]);
                assert(!last.contains('/'));
            }
            assert(cs@.subrange((at + 1) as int, len as int) =~= last);
        } else {
            assert(cs@ =~= seq!['/']);
            assert(cs@[0] == '/');
            assert(cs@.subrange(1, len as int) =~= Seq::<char>::empty());
        }
    }
    match cut {
        Some(i) => string_between(&cs, i + 1, len),
        None => n,
    }
}

/// A name below a directory of the disk.
pub open spec fn netdisk_join(base: Seq<char>, name: Seq<char>) -> Seq<char> {
    let b = netdisk_path(base);
    let n = text::strip_start(name, '/');
    if b == seq!['/'] {
        seq!['/'] + n
    } else if n.len() == 0 {
        b
    } else {
        b + seq!['/'] + n
    }
}

/// A name below a directory of the disk.
pub fn join_netdisk_path(base: &str, name: &str) -> (r: String)
    ensures
        r@ == netdisk_join(base@, name@),
{
    proof {
        reveal_strlit("/");
        assert("/"@ =~= seq!['/']);
    }
    let b = normalize_netdisk_path(base);
    let cs = chars_of(name);
    let lead: usize = run_start(&cs, '/');
    let n = string_between(&cs, lead, cs.len());
    assert(n@ =~= cs@.skip(lead as int));
    if same(b.as_str(), "/") {
        concat2("/", n.as_str())
    } else if n.as_str().is_empty() {
        b
    } else {
        concat3(b.as_str(), "/", n.as_str())
    }
}

/// What stands after the last slash of a path, slashes at its end not counted.
pub fn basename_of(path: &str) -> (r: String)
    ensures
        r@ == paths::after_last_slash(text::strip_end(path@, '/')),
{
    let cs = chars_of(path);
    let n: usize = run_end(&cs, '/');
    let whole = string_between(&cs, 0, n);
    assert(whole@ =~= cs@.take(n as int));
    paths::last_segment(whole.as_str())
}

/// Whether an error of the disk says that there is nothing at a path.
pub open spec fn says_not_found(msg: Seq<char>) -> bool {
    ||| text::occurs(msg, "API error 2"@)
    ||| text::occurs(msg, "errno=2"@)
    ||| text::occurs(msg, "errno 2"@)
    ||| text::occurs(msg, "路径不存在"@)
    ||| text::occurs(msg, "文件不存在"@)
}

/// Whether an error of the disk says that there is nothing at a path.
pub fn is_netdisk_not_found_error(msg: &str) -> (r: bool)
    ensures
        r == says_not_found(msg@),
{
    contains(msg, "API error 2") || contains(msg, "errno=2") || contains(msg, "errno 2")
        || contains(msg, "路径不存在") || contains(msg, "文件不存在")
}

// ---------------------------------------------------------------------------
// Local paths
// ---------------------------------------------------------------------------
/// The parts without those that stand for the directory itself.
pub open spec fn real_parts(parts: Seq<Seq<char>>) -> Seq<Seq<char>>
    decreases parts.len(),
{
    if parts.len() == 0 {
        parts
    } else if parts.last() == "."@ {
        real_parts(parts.drop_last())
    } else {
        real_parts(parts.drop_last()).push(parts.last())
    }
}

/// The parts with a slash between each two.
pub open spec fn slash_separated(parts: Seq<Seq<char>>) -> Seq<char>
    decreases parts.len(),
{
    if parts.len() == 0 {
        Seq::empty()
    } else if parts.len() == 1 {
        parts[0]
    } else {
        slash_separated(parts.drop_last()) + "/"@ + parts.last()
    }
}

/// Whether a path climbs out of its directory.
pub open spec fn climbs(path: Seq<char>) -> bool {
    paths::parts_of(path).contains(".."@)
}

/// The place of an entry below a local directory. A path that climbs, and a path without
/// parts, is an error.
pub open spec fn local_place(path: Seq<char>) -> Result<Seq<char>, ErrorView> {
    let parts = real_parts(paths::parts_of(path));
    if climbs(path) {
        Err(ErrorView::ConfigError("非法同步路径（包含 ..）: "@ + path))
    } else if parts.len() == 0 {
        Err(ErrorView::ConfigError("本地下载相对路径为空"@))
    } else {
        Ok(slash_separated(parts))
    }
}

/// The place of an entry below a local directory. A path that climbs, and a path without
/// parts, is an error.
pub fn safe_relative_download_path(path: &str) -> (r: Result<String, ShareSyncError>)
    ensures
        match r {
            Ok(p) => local_place(path@) == Ok::<Seq<char>, ErrorView>(p@),
            Err(e) => local_place(path@) == Err::<Seq<char>, ErrorView>(e@),
        },
{
    let n = normalize_netdisk_path(path);
    let all = path_components(n.as_str());
    let ghost parts = paths::parts_of(path@);
    proof {
        paths::lemma_components_are_parts(paths::unified(text::trimmed(path@)));
        paths::lemma_components_canonical(parts);
        assert(text::texts(all@) == parts);
    }
    let mut out = String::new();
    let mut count: usize = 0;
    let mut i: usize = 0;
    assert(slash_separated(real_parts(parts.take(0))) =~= Seq::<char>::empty());
    while i < all.len()
        invariant
            i <= all@.len(),
            count <= i,
            parts == paths::parts_of(path@),
            text::texts(all@) == parts,
            forall|k: int| 0 <= k < i ==> parts[k] != ".."@,
            count == real_parts(parts.take(i as int)).len(),
            out@ == slash_separated(real_parts(parts.take(i as int))),
        decreases all@.len() - i,
    {
        let ghost done = real_parts(parts.take(i as int));
        proof {
            assert(parts.take(i + 1).drop_last() =~= parts.take(i as int));
            assert(parts.take(i + 1).last() == parts[i as int]);
            assert(all@[i as int]@ == parts[i as int]);
        }
        if same(all[i].as_str(), "..") {
            assert(parts.contains(".."@));
            return Err(
                ShareSyncError::ConfigError(concat2("非法同步路径（包含 ..）: ", path)),
            );
        }
        if !same(all[i].as_str(), ".") {
            if count > 0 {
                out.append("/");
            }
            out.append(all[i].as_str());
            proof {
                let now = done.push(parts[i as int]);
                assert(now.drop_last() =~= done);
                if count == 0 {
                    assert(out@ =~= parts[i as int]);
                }
            }
            count += 1;
        }
        i += 1;
    }
    proof {
        assert(parts.take(i as int) =~= parts);
        assert(!parts.contains(".."@)) by {
            if parts.contains(".."@) {
                let k = choose|k: int| 0 <= k < parts.len() && parts[k] == ".."@;
                assert(parts[k] != ".."@);
            }
        }
    }
    if count == 0 {
        Err(ShareSyncError::ConfigError("本地下载相对路径为空".to_owned()))
    } else {
        Ok(out)
    }
}

proof fn lemma_real_parts(parts: Seq<Seq<char>>)
    ensures
        forall|i: int|
            0 <= i < real_parts(parts).len() ==> parts.contains(#[trigger] real_parts(parts)[i])
                && real_parts(parts)[i] != "."@,
    decreases parts.len(),
{
    if parts.len() > 0 {
        let front = parts.drop_last();
        lemma_real_parts(front);
        let kept = real_parts(parts);
        assert forall|i: int| 0 <= i < kept.len() implies parts.contains(#[trigger] kept[i])
            && kept[i] != "."@ by {
            if i < real_parts(front).len() {
                assert(kept[i] == real_parts(front)[i]);
                let k = choose|k: int| 0 <= k < front.len() && front[k] == kept[i];
                assert(parts[k] == kept[i]);
            } else {
                assert(parts[parts.len() - 1] == kept[i]);
            }
        }
    }
}

/// The place of an entry never leaves the local directory: none of its parts is `..` or
/// `.`, and it does not begin at the root.
pub proof fn law_safe_path_stays_below(path: Seq<char>)
    requires
        local_place(path) is Ok,
    ensures
        local_place(path)->Ok_0 == slash_separated(real_parts(paths::parts_of(path))),
        forall|i: int|
            0 <= i < real_parts(paths::parts_of(path)).len() ==> paths::is_part(
                #[trigger] real_parts(paths::parts_of(path))[i],
            ) && real_parts(paths::parts_of(path))[i] != ".."@ && real_parts(
                paths::parts_of(path),
            )[i] != "."@,
        local_place(path)->Ok_0[0] != '/',
{
    let parts = paths::parts_of(path);
    let kept = real_parts(parts);
    paths::lemma_components_are_parts(paths::unified(text::trimmed(path)));
    lemma_real_parts(parts);
    assert forall|i: int| 0 <= i < kept.len() implies paths::is_part(#[trigger] kept[i]) && kept[i]
        != ".."@ && kept[i] != "."@ by {
        let k = choose|k: int| 0 <= k < parts.len() && parts[k] == kept[i];
        assert(paths::is_part(parts[k]));
    }
    lemma_slash_separated_head(kept);
}

proof fn lemma_slash_separated_head(parts: Seq<Seq<char>>)
    requires
        parts.len() > 0,
        forall|i: int| 0 <= i < parts.len() ==> paths::is_part(#[trigger] parts[i]),
    ensures
        slash_separated(parts).len() > 0,
        slash_separated(parts)[0] == parts[0][0],
        slash_separated(parts)[0] != '/',
    decreases parts.len(),
{
    assert(paths::is_part(parts[0]));
    assert(parts[0].contains(parts[0][0]));
    if parts.len() > 1 {
        let front = parts.drop_last();
        assert forall|i: int| 0 <= i < front.len() implies paths::is_part(#[trigger] front[i]) by {
            assert(paths::is_part(parts[i]));
        }
        lemma_slash_separated_head(front);
    }
}

/// The directory that a file shared directly is downloaded to: the local directory
/// itself, for the parent directories of the file are restored below it later. The
/// file's path is checked.
pub fn share_direct_download_root(local_dir: &str, item: &ShareSnapshotItem) -> (r: Result<
    String,
    ShareSyncError,
>)
    ensures
        match r {
            Ok(p) => local_place(item.path@) is Ok && p@ == local_dir@,
            Err(e) => local_place(item.path@) == Err::<Seq<char>, ErrorView>(e@),
        },
{
    match safe_relative_download_path(item.path.as_str()) {
        Ok(_) => Ok(local_dir.to_owned()),
        Err(e) => Err(e),
    }
}

/// The last part of a local path; none for a root, and for a path that ends by climbing.
pub open spec fn file_name_of(path: Seq<char>) -> Option<Seq<char>> {
    let parts = real_parts(paths::components(path));
    if parts.len() == 0 || parts.last() == ".."@ {
        None
    } else {
        Some(parts.last())
    }
}

/// The last part of a local path.
pub fn local_file_name(path: &str) -> (r: Option<String>)
    ensures
        text::opt_text(r) == file_name_of(path@),
{
    let all = path_components(path);
    let ghost parts = paths::components(path@);
    let mut i: usize = all.len();
    proof {
        assert(parts.take(parts.len() as int) =~= parts);
    }
    while i > 0
        invariant
            i <= all@.len(),
            parts == paths::components(path@),
            text::texts(all@) == parts,
            real_parts(parts.take(i as int)) == real_parts(parts),
        decreases i,
    {
        proof {
            assert(parts.take(i as int).drop_last() =~= parts.take(i - 1));
            assert(parts.take(i as int).last() == parts[i - 1]);
            assert(all@[i - 1]@ == parts[i - 1]);
        }
        if !same(all[i - 1].as_str(), ".") {
            if same(all[i - 1].as_str(), "..") {
                return None;
            }
            return Some(all[i - 1].clone());
        }
        i -= 1;
    }
    None
}

proof fn lemma_real_parts_all(parts: Seq<Seq<char>>)
    requires
        forall|i: int| 0 <= i < parts.len() ==> #[trigger] parts[i] != "."@,
    ensures
        real_parts(parts) == parts,
    decreases parts.len(),
{
    if parts.len() > 0 {
        let front = parts.drop_last();
        assert forall|i: int| 0 <= i < front.len() implies #[trigger] front[i] != "."@ by {
            assert(parts[i] != "."@);
        }
        lemma_real_parts_all(front);
        assert(parts[parts.len() - 1] == parts.last());
        assert(front.push(parts.last()) =~= parts);
    }
}

proof fn lemma_slash_separated_joined(parts: Seq<Seq<char>>)
    requires
        parts.len() > 0,
    ensures
        seq!['/'] + slash_separated(parts) == paths::joined(parts),
    decreases parts.len(),
{
    reveal_strlit("/");
    assert("/"@ =~= seq!['/']);
    let front = parts.drop_last();
    if parts.len() == 1 {
        assert(paths::joined(front) =~= Seq::<char>::empty());
        assert(parts.last() == parts[0]);
        assert(paths::joined(parts) =~= seq!['/'] + parts[0]);
    } else {
        lemma_slash_separated_joined(front);
        assert(paths::joined(parts) =~= seq!['/'] + slash_separated(parts));
    }
}

/// An entry whose path is plainly written, without a part that stands for a directory itself or
/// the one above, is placed below the local directory under its own path. A path that climbs is
/// refused.
pub proof fn law_entry_is_placed_under_its_path(path: Seq<char>)
    requires
        paths::is_plain(path),
    ensures
        !paths::components(path).contains("."@) && !paths::components(path).contains(".."@)
            ==> local_place(path) == Ok::<Seq<char>, ErrorView>(path.skip(1)),
        paths::components(path).contains(".."@) ==> local_place(path) is Err,
{
    paths::law_normal_path_is_plainly_written(path);
    let parts = paths::components(path);
    paths::lemma_plain_parts(path);
    if !parts.contains("."@) && !parts.contains(".."@) {
        assert forall|i: int| 0 <= i < parts.len() implies #[trigger] parts[i] != "."@ by {
            assert(parts.contains(parts[i]));
        }
        lemma_real_parts_all(parts);
        lemma_slash_separated_joined(parts);
        assert((seq!['/'] + slash_separated(parts)).skip(1) =~= slash_separated(parts));
    }
}

/// A name is put below a directory of the disk with one slash between them.
pub proof fn law_name_is_put_below_a_dir(base: Seq<char>, name: Seq<char>)
    requires
        paths::is_plain(base),
        name.len() > 0,
        name[0] != '/',
    ensures
        netdisk_join(base, name) == base + seq!['/'] + name,
        netdisk_join(base, seq!['/'] + name) == base + seq!['/'] + name,
        netdisk_join(base, seq![]) == base,
        netdisk_path(base) == base,
{
    paths::law_normal_path_is_plainly_written(base);
    assert(base != seq!['/']);
    assert((seq!['/'] + name).skip(1) =~= name);
}

/// The directory that holds a plain path is what stands before its last slash.
pub proof fn law_parent_stands_before_the_last_slash(dir: Seq<char>, name: Seq<char>)
    requires
        paths::is_plain(dir.push('/') + name),
        !name.contains('/'),
    ensures
        netdisk_parent(dir.push('/') + name) == if dir.len() == 0 {
            seq!['/']
        } else {
            dir
        },
{
    paths::lemma_plain_parent(dir, name);
}

/// An error says that nothing is there where it holds one of the signs of that.
pub proof fn law_when_an_error_says_not_found(a: Seq<char>, b: Seq<char>)
    ensures
        says_not_found(a + "errno=2"@ + b),
        says_not_found(a + "errno 2"@ + b),
        says_not_found(a + "API error 2"@ + b),
        says_not_found(a + "路径不存在"@ + b),
        says_not_found(a + "文件不存在"@ + b),
        !says_not_found(seq![]),
{
    text::law_occurs_in_the_middle(a, "errno=2"@, b);
    text::law_occurs_in_the_middle(a, "errno 2"@, b);
    text::law_occurs_in_the_middle(a, "API error 2"@, b);
    text::law_occurs_in_the_middle(a, "路径不存在"@, b);
    text::law_occurs_in_the_middle(a, "文件不存在"@, b);
    reveal_strlit("errno=2");
    reveal_strlit("errno 2");
    reveal_strlit("API error 2");
    reveal_strlit("路径不存在");
    reveal_strlit("文件不存在");
    text::law_nothing_occurs_in_nothing("errno=2"@);
    text::law_nothing_occurs_in_nothing("errno 2"@);
    text::law_nothing_occurs_in_nothing("API error 2"@);
    text::law_nothing_occurs_in_nothing("路径不存在"@);
    text::law_nothing_occurs_in_nothing("文件不存在"@);
}

/// A path is named by its last part; one that ends in a step up has no name.
pub proof fn law_path_is_named_by_its_last_part(dir: Seq<char>, name: Seq<char>)
    requires
        name.len() > 0,
        !name.contains('/'),
        name != "."@,
    ensures
        name != ".."@ ==> file_name_of(dir.push('/') + name) == Some(name),
        name == ".."@ ==> file_name_of(dir.push('/') + name) is None,
        file_name_of(seq![]) is None,
{
    let p = dir.push('/') + name;
    paths::law_parts_stand_between_slashes(dir, name, name);
    let parts = paths::components(dir) + seq![name];
    assert(paths::components(p) =~= parts);
    assert(parts.last() == name);
    assert(parts.drop_last() =~= paths::components(dir));
    assert(real_parts(parts).last() == name);
}

} // verus!
