//! Sets and maps keyed by text.
use vstd::hash_map::StringHashMap;
use vstd::hash_set::StringHashSet;
use vstd::prelude::*;

use crate::text;

verus! {

/// A set of paths that can be looked up and walked.
///
/// It is walked in the order in which the paths were first inserted.
pub struct PathSet {
    items: Vec<String>,
    index: StringHashSet,
}

impl View for PathSet {
    type V = Set<Seq<char>>;

    closed spec fn view(&self) -> Set<Seq<char>> {
        self.index@
    }
}

impl PathSet {
    /// The walk lists exactly the members, each once.
    #[verifier::type_invariant]
    spec fn inv(self) -> bool {
        &&& text::texts(self.items@).to_set() == self.index@
        &&& text::texts(self.items@).no_duplicates()
    }

    /// The empty set.
    pub fn new() -> (r: PathSet)
        ensures
            r@ == Set::<Seq<char>>::empty(),
    {
        let items: Vec<String> = Vec::new();
        proof {
            assert(text::texts(items@) =~= Seq::<Seq<char>>::empty());
            assert(text::texts(items@).to_set() =~= Set::<Seq<char>>::empty());
        }
        PathSet { items, index: StringHashSet::new() }
    }

    /// Whether `path` is a member.
    pub fn contains(&self, path: &str) -> (r: bool)
        ensures
            r == self@.contains(path@),
    {
        self.index.contains(path)
    }

    /// Adds `path`; returns whether it was not a member before.
    pub fn insert(&mut self, path: String) -> (r: bool)
        ensures
            final(self)@ == old(self)@.insert(path@),
            r == !old(self)@.contains(path@),
    {
        proof {
            use_type_invariant(&*self);
        }
        if self.index.contains(path.as_str()) {
            assert(self@.insert(path@) =~= self@);
            return false;
        }
        let mut whole = PathSet::new();
        std::mem::swap(&mut whole, self);
        let PathSet { mut items, mut index } = whole;
        let ghost before = text::texts(items@);
        let ghost p = path@;
        items.push(path.clone());
        index.insert(path);
        proof {
            let after = text::texts(items@);
            assert(after =~= before.push(p));
            assert(!before.contains(p)) by {
                if before.contains(p) {
                    assert(before.to_set().contains(p));
                }
            }
            assert(after.to_set() =~= before.to_set().insert(p)) by {
                assert forall|x: Seq<char>| after.to_set().contains(x) implies before.to_set().insert(
                    p,
                ).contains(x) by {
                    let i = choose|i: int| 0 <= i < after.len() && after[i] == x;
                    if i < before.len() {
                        assert(before[i] == x);
                        assert(before.contains(x));
                    }
                }
                assert forall|x: Seq<char>| before.to_set().insert(p).contains(x) implies after.to_set().contains(
                    x,
                ) by {
                    if x == p {
                        assert(after[before.len() as int] == x);
                    } else {
                        assert(before.contains(x));
                        let i = choose|i: int| 0 <= i < before.len() && before[i] == x;
                        assert(after[i] == x);
                    }
                    assert(after.contains(x));
                }
            }
        }
        *self = PathSet { items, index };
        true
    }

    /// Whether the set has no member.
    pub fn is_empty(&self) -> (r: bool)
        ensures
            r == (self@ == Set::<Seq<char>>::empty()),
    {
        proof {
            use_type_invariant(self);
            let t = text::texts(self.items@);
            if t.len() > 0 {
                assert(t.contains(t[0]));
                assert(t.to_set().contains(t[0]));
            } else {
                assert(t.to_set() =~= Set::<Seq<char>>::empty());
            }
        }
        self.items.len() == 0
    }

    /// The number of members.
    pub fn len(&self) -> (r: usize)
        ensures
            r == self@.len(),
    {
        proof {
            use_type_invariant(self);
            text::texts(self.items@).unique_seq_to_set();
        }
        self.items.len()
    }

    /// The members, each once.
    pub fn items(&self) -> (r: &Vec<String>)
        ensures
            text::texts(r@).to_set() == self@,
            text::texts(r@).no_duplicates(),
    {
        proof {
            use_type_invariant(self);
        }
        &self.items
    }
}

/// The set of the given paths.
pub fn path_set_of(paths: Vec<String>) -> (r: PathSet)
    ensures
        r@ == text::texts(paths@).to_set(),
{
    let mut r = PathSet::new();
    let mut i: usize = 0;
    while i < paths.len()
        invariant
            i <= paths@.len(),
            r@ == text::texts(paths@.take(i as int)).to_set(),
        decreases paths@.len() - i,
    {
        r.insert(paths[i].clone());
        i += 1;
        proof {
            let a = text::texts(paths@.take(i as int));
            let b = text::texts(paths@.take(i - 1));
            assert(a =~= b.push(paths@[i - 1]@));
            lemma_push_to_set(b, paths@[i - 1]@);
        }
    }
    assert(paths@.take(i as int) =~= paths@);
    r
}

/// The members of a sequence after one more is put at its end.
pub proof fn lemma_push_to_set<A>(s: Seq<A>, x: A)
    ensures
        s.push(x).to_set() == s.to_set().insert(x),
{
    let t = s.push(x);
    assert forall|y: A| t.to_set().contains(y) == s.to_set().insert(x).contains(y) by {
        if t.contains(y) {
            let i = choose|i: int| 0 <= i < t.len() && t[i] == y;
            if i < s.len() {
                assert(s[i] == y);
            }
        }
        if s.contains(y) {
            let i = choose|i: int| 0 <= i < s.len() && s[i] == y;
            assert(t[i] == y);
        }
        assert(t[s.len() as int] == x);
    }
    assert(t.to_set() =~= s.to_set().insert(x));
}

/// A set of entries, each named by its path and its file id.
pub struct SeenItems {
    by_path: StringHashMap<Vec<u64>>,
}

impl View for SeenItems {
    type V = Set<(Seq<char>, u64)>;

    closed spec fn view(&self) -> Set<(Seq<char>, u64)> {
        Set::new(
            |k: (Seq<char>, u64)|
                self.by_path@.contains_key(k.0) && self.by_path@[k.0]@.contains(k.1),
        )
    }
}

impl SeenItems {
    /// The empty set.
    pub fn new() -> (r: SeenItems)
        ensures
            r@ == Set::<(Seq<char>, u64)>::empty(),
    {
        let r = SeenItems { by_path: StringHashMap::new() };
        assert(r@ =~= Set::<(Seq<char>, u64)>::empty());
        r
    }

    /// Adds the entry; returns whether it was not a member before.
    pub fn insert(&mut self, path: &str, fs_id: u64) -> (r: bool)
        ensures
            final(self)@ == old(self)@.insert((path@, fs_id)),
            r == !old(self)@.contains((path@, fs_id)),
    {
        let mut ids: Vec<u64> = match self.by_path.get(path) {
            Some(ids) => {
                let copy = ids.clone();
                assert(copy@ =~= ids@);
                copy
            },
            None => Vec::new(),
        };
        let ghost found = self.by_path@.contains_key(path@);
        assert(found ==> ids@ == self.by_path@[path@]@);
        let mut i: usize = 0;
        while i < ids.len()
            invariant
                i <= ids@.len(),
                forall|k: int| 0 <= k < i ==> ids@[k] != fs_id,
                *self == *old(self),
                found == self.by_path@.contains_key(path@),
                found ==> ids@ == self.by_path@[path@]@,
                !found ==> ids@.len() == 0,
            decreases ids@.len() - i,
        {
            if ids[i] == fs_id {
                assert(self@.insert((path@, fs_id)) =~= self@);
                return false;
            }
            i += 1;
        }
        assert(!self@.contains((path@, fs_id)));
        let ghost before = ids@;
        ids.push(fs_id);
        self.by_path.insert(path.to_owned(), ids);
        proof {
            let want = old(self)@.insert((path@, fs_id));
            assert forall|k: (Seq<char>, u64)| self@.contains(k) == want.contains(k) by {
                if k.0 == path@ {
                    lemma_push_to_set(before, fs_id);
                    assert(before.push(fs_id).contains(k.1) == before.push(fs_id).to_set().contains(
                        k.1,
                    ));
                    assert(before.contains(k.1) == before.to_set().contains(k.1));
                }
            }
            assert(self@ =~= want);
        }
        true
    }
}

} // verus!
