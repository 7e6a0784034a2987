//! Stable sorting by a key.
use vstd::prelude::*;

verus! {

/// Lexicographic order of key sequences: `a` comes strictly before `b`.
pub open spec fn lex_lt(a: Seq<int>, b: Seq<int>) -> bool
    decreases a.len(),
{
    if b.len() == 0 {
        false
    } else if a.len() == 0 {
        true
    } else if a[0] != b[0] {
        a[0] < b[0]
    } else {
        lex_lt(a.skip(1), b.skip(1))
    }
}

/// The key of a text: its code points. Their lexicographic order is the order of
/// the standard library on strings.
pub open spec fn text_key(s: Seq<char>) -> Seq<int> {
    s.map_values(|c: char| c as int)
}

/// No key comes before itself.
pub proof fn lemma_lex_irreflexive(a: Seq<int>)
    ensures
        !lex_lt(a, a),
    decreases a.len(),
{
    if a.len() > 0 {
        lemma_lex_irreflexive(a.skip(1));
    }
}

/// Of two different keys one comes before the other.
pub proof fn lemma_lex_total(a: Seq<int>, b: Seq<int>)
    ensures
        lex_lt(a, b) || lex_lt(b, a) || a == b,
    decreases a.len(),
{
    if a.len() == 0 && b.len() == 0 {
        assert(a =~= b);
    } else if a.len() > 0 && b.len() > 0 && a[0] == b[0] {
        lemma_lex_total(a.skip(1), b.skip(1));
        if a.skip(1) == b.skip(1) {
            assert(a =~= seq![a[0]] + a.skip(1));
            assert(b =~= seq![b[0]] + b.skip(1));
        }
    }
}

/// The order of keys is transitive.
pub proof fn lemma_lex_transitive(a: Seq<int>, b: Seq<int>, c: Seq<int>)
    requires
        lex_lt(a, b),
        lex_lt(b, c),
    ensures
        lex_lt(a, c),
    decreases a.len(),
{
    if a.len() > 0 && b.len() > 0 && c.len() > 0 && a[0] == b[0] && b[0] == c[0] {
        lemma_lex_transitive(a.skip(1), b.skip(1), c.skip(1));
    }
}

/// The order of keys is asymmetric.
pub proof fn lemma_lex_asymmetric(a: Seq<int>, b: Seq<int>)
    requires
        lex_lt(a, b),
    ensures
        !lex_lt(b, a),
{
    if lex_lt(b, a) {
        lemma_lex_transitive(a, b, a);
        lemma_lex_irreflexive(a);
    }
}

/// Different texts have different keys.
pub proof fn lemma_text_key_injective(a: Seq<char>, b: Seq<char>)
    requires
        text_key(a) == text_key(b),
    ensures
        a == b,
{
    assert(a.len() == text_key(a).len());
    assert(b.len() == text_key(b).len());
    assert forall|i: int| 0 <= i < a.len() implies a[i] == b[i] by {
        assert(text_key(a)[i] == a[i] as int);
        assert(text_key(b)[i] == b[i] as int);
    }
    assert(a =~= b);
}

/// `a` stands before `b` in a dictionary of code points: `b` goes on where `a` ends, or at the
/// first place where they differ `a` has the lesser character.
pub open spec fn comes_before(a: Seq<char>, b: Seq<char>) -> bool {
    ||| a.len() < b.len() && a.is_prefix_of(b)
    ||| exists|k: int|
        {
            &&& 0 <= k < a.len()
            &&& k < b.len()
            &&& #[trigger] a[k] < b[k]
            &&& a.take(k) == b.take(k)
        }
}

/// Texts are sorted as in a dictionary of code points.
pub proof fn law_text_order(a: Seq<char>, b: Seq<char>)
    ensures
        lex_lt(text_key(a), text_key(b)) <==> comes_before(a, b),
    decreases a.len(),
{
    let (ka, kb) = (text_key(a), text_key(b));
    if a.len() > 0 && b.len() > 0 {
        assert(ka[0] == a[0] as int && kb[0] == b[0] as int);
        let (sa, sb) = (a.skip(1), b.skip(1));
        assert(ka.skip(1) =~= text_key(sa));
        assert(kb.skip(1) =~= text_key(sb));
        law_text_order(sa, sb);
        if a[0] == b[0] {
            if comes_before(sa, sb) {
                if sa.len() < sb.len() && sa.is_prefix_of(sb) {
                    assert(b.take(a.len() as int) =~= a) by {
                        assert(sb.take(sa.len() as int) =~= sa);
                        assert forall|i: int| 0 <= i < a.len() implies b[i] == a[i] by {
                            if i > 0 {
                                assert(sb.take(sa.len() as int)[i - 1] == sa[i - 1]);
                            }
                        }
                    }
                } else {
                    let k = choose|k: int|
                        {
                            &&& 0 <= k < sa.len()
                            &&& k < sb.len()
                            &&& #[trigger] sa[k] < sb[k]
                            &&& sa.take(k) == sb.take(k)
                        };
                    assert(a[k + 1] < b[k + 1]);
                    assert(a.take(k + 1) =~= b.take(k + 1)) by {
                        assert forall|i: int| 0 <= i < k + 1 implies a[i] == b[i] by {
                            if i > 0 {
                                assert(sa.take(k)[i - 1] == sb.take(k)[i - 1]);
                            }
                        }
                    }
                }
            }
            if comes_before(a, b) {
                if a.len() < b.len() && a.is_prefix_of(b) {
                    assert(sb.take(sa.len() as int) =~= sa) by {
                        assert(b.take(a.len() as int) =~= a);
                        assert forall|i: int| 0 <= i < sa.len() implies sb[i] == sa[i] by {
                            assert(b.take(a.len() as int)[i + 1] == a[i + 1]);
                        }
                    }
                } else {
                    let k = choose|k: int|
                        {
                            &&& 0 <= k < a.len()
                            &&& k < b.len()
                            &&& #[trigger] a[k] < b[k]
                            &&& a.take(k) == b.take(k)
                        };
                    assert(k > 0);
                    assert(sa[k - 1] < sb[k - 1]);
                    assert(sa.take(k - 1) =~= sb.take(k - 1)) by {
                        assert forall|i: int| 0 <= i < k - 1 implies sa[i] == sb[i] by {
                            assert(a.take(k)[i + 1] == b.take(k)[i + 1]);
                        }
                    }
                }
            }
        } else {
            if comes_before(a, b) {
                if a.len() < b.len() && a.is_prefix_of(b) {
                    assert(b.take(a.len() as int)[0] == a[0]);
                } else {
                    let k = choose|k: int|
                        {
                            &&& 0 <= k < a.len()
                            &&& k < b.len()
                            &&& #[trigger] a[k] < b[k]
                            &&& a.take(k) == b.take(k)
                        };
                    if k > 0 {
                        assert(a.take(k)[0] == b.take(k)[0]);
                    }
                }
            }
            if a[0] < b[0] {
                assert(a.take(0) =~= b.take(0));
                assert(comes_before(a, b));
            }
        }
    } else if b.len() > 0 {
        assert(b.take(0) =~= a);
    }
}

/// Whether the text `a` comes strictly before the text `b`.
pub fn text_before(a: &str, b: &str) -> (r: bool)
    ensures
        r == lex_lt(text_key(a@), text_key(b@)),
{
    let x = crate::text::chars_of(a);
    let y = crate::text::chars_of(b);
    let mut i: usize = 0;
    let ghost ka = text_key(a@);
    let ghost kb = text_key(b@);
    proof {
        assert(ka.skip(0) =~= ka);
        assert(kb.skip(0) =~= kb);
    }
    while i < x.len() && i < y.len() && x[i] == y[i]
        invariant
            x@ == a@,
            y@ == b@,
            ka == text_key(a@),
            kb == text_key(b@),
            i <= x@.len(),
            i <= y@.len(),
            lex_lt(ka.skip(i as int), kb.skip(i as int)) == lex_lt(ka, kb),
        decreases x@.len() - i,
    {
        proof {
            assert(ka[i as int] == a@[i as int] as int);
            assert(kb[i as int] == b@[i as int] as int);
            assert(ka.skip(i as int).skip(1) =~= ka.skip(i + 1));
            assert(kb.skip(i as int).skip(1) =~= kb.skip(i + 1));
        }
        i += 1;
    }
    if i == y.len() {
        assert(kb.skip(i as int).len() == 0);
        false
    } else if i == x.len() {
        assert(ka.skip(i as int).len() == 0);
        true
    } else {
        assert(ka.skip(i as int)[0] == a@[i as int] as int);
        assert(kb.skip(i as int)[0] == b@[i as int] as int);
        x[i] < y[i]
    }
}

/// A value that is sorted by a key.
pub trait Keyed: Sized {
    /// The key.
    spec fn key(&self) -> Seq<int>;

    /// Whether this value's key comes strictly before the other's.
    fn before(&self, other: &Self) -> (r: bool)
        ensures
            r == lex_lt(self.key(), other.key()),
    ;

    /// An equal value.
    fn dup(&self) -> (r: Self)
        ensures
            r == *self,
    ;
}

impl Keyed for String {
    open spec fn key(&self) -> Seq<int> {
        text_key(self@)
    }

    fn before(&self, other: &Self) -> (r: bool) {
        text_before(self.as_str(), other.as_str())
    }

    fn dup(&self) -> (r: Self) {
        self.clone()
    }
}

/// Element `i` of `v` comes before element `j` in a stable sort: its key is less,
/// or the keys are equal and it stands first.
pub open spec fn precedes<T: Keyed>(v: Seq<T>, i: int, j: int) -> bool {
    lex_lt(v[i].key(), v[j].key()) || (v[i].key() == v[j].key() && i < j)
}

/// `order` lists each of the positions `lo..hi` of `v` once, by `precedes`.
pub open spec fn is_order<T: Keyed>(order: Seq<int>, v: Seq<T>, lo: int, hi: int) -> bool {
    &&& order.len() == hi - lo
    &&& forall|a: int| 0 <= a < order.len() ==> lo <= #[trigger] order[a] < hi
    &&& forall|a: int, b: int|
        0 <= a < b < order.len() ==> precedes(v, #[trigger] order[a], #[trigger] order[b])
    &&& forall|i: int| lo <= i < hi ==> order.contains(i)
}

/// The elements of `v` in the order that `order` lists.
pub open spec fn reordered<T>(v: Seq<T>, order: Seq<int>) -> Seq<T> {
    order.map_values(|i: int| v[i])
}

/// `r` is `v` sorted by key, elements of equal key in the order they had.
pub open spec fn is_stable_sort<T: Keyed>(r: Seq<T>, v: Seq<T>) -> bool {
    exists|order: Seq<int>| #[trigger]
        is_order(order, v, 0, v.len() as int) && r == reordered(v, order)
}

pub open spec fn as_ints(s: Seq<usize>) -> Seq<int> {
    s.map_values(|i: usize| i as int)
}

proof fn lemma_precedes_transitive<T: Keyed>(v: Seq<T>, i: int, j: int, k: int)
    requires
        precedes(v, i, j),
        precedes(v, j, k),
    ensures
        precedes(v, i, k),
{
    if lex_lt(v[i].key(), v[j].key()) && lex_lt(v[j].key(), v[k].key()) {
        lemma_lex_transitive(v[i].key(), v[j].key(), v[k].key());
    }
}

/// Merges two ordered lists of positions, all of the first below all of the second.
fn merge<T: Keyed>(
    v: &Vec<T>,
    a: &Vec<usize>,
    b: &Vec<usize>,
    Ghost(lo): Ghost<int>,
    Ghost(mid): Ghost<int>,
    Ghost(hi): Ghost<int>,
) -> (r: Vec<usize>)
    requires
        0 <= lo <= mid <= hi <= v@.len(),
        is_order(as_ints(a@), v@, lo, mid),
        is_order(as_ints(b@), v@, mid, hi),
    ensures
        is_order(as_ints(r@), v@, lo, hi),
{
    let mut r: Vec<usize> = Vec::new();
    let mut i: usize = 0;
    let mut j: usize = 0;
    let ghost ga = as_ints(a@);
    let ghost gb = as_ints(b@);
    proof {
        assert forall|x: int| 0 <= x < a@.len() implies lo <= #[trigger] a@[x] < mid by {
            assert(lo <= ga[x] < mid);
        }
        assert forall|x: int| 0 <= x < b@.len() implies mid <= #[trigger] b@[x] < hi by {
            assert(mid <= gb[x] < hi);
        }
    }
    while i < a.len() || j < b.len()
        invariant
            0 <= lo <= mid <= hi <= v@.len(),
            ga == as_ints(a@),
            gb == as_ints(b@),
            is_order(ga, v@, lo, mid),
            is_order(gb, v@, mid, hi),
            forall|x: int| 0 <= x < a@.len() ==> lo <= #[trigger] a@[x] < mid,
            forall|x: int| 0 <= x < b@.len() ==> mid <= #[trigger] b@[x] < hi,
            i <= a@.len(),
            j <= b@.len(),
            r@.len() == i + j,
            forall|x: int| 0 <= x < i ==> r@.contains(#[trigger] a@[x]),
            forall|x: int| 0 <= x < j ==> r@.contains(#[trigger] b@[x]),
            forall|x: int| 0 <= x < r@.len() ==> lo <= #[trigger] r@[x] < hi,
            forall|x: int, y: int|
                0 <= x < y < r@.len() ==> precedes(
                    v@,
                    #[trigger] r@[x] as int,
                    #[trigger] r@[y] as int,
                ),
            forall|x: int, y: int|
                0 <= x < r@.len() && i <= y < a@.len() ==> precedes(
                    v@,
                    #[trigger] r@[x] as int,
                    #[trigger] a@[y] as int,
                ),
            forall|x: int, y: int|
                0 <= x < r@.len() && j <= y < b@.len() ==> precedes(
                    v@,
                    #[trigger] r@[x] as int,
                    #[trigger] b@[y] as int,
                ),
        decreases a@.len() - i + b@.len() - j,
    {
        let ghost r0 = r@;
        let take_b = if i == a.len() {
            true
        } else if j == b.len() {
            false
        } else {
            v[b[j]].before(&v[a[i]])
        };
        proof {
            if i < a@.len() && j < b@.len() {
                let p = a@[i as int] as int;
                let q = b@[j as int] as int;
                lemma_lex_total(v@[p].key(), v@[q].key());
                if take_b {
                    assert(precedes(v@, q, p));
                } else {
                    assert(precedes(v@, p, q));
                }
            }
        }
        if take_b {
            r.push(b[j]);
            proof {
                let q = b@[j as int] as int;
                assert forall|y: int| i <= y < a@.len() implies precedes(
                    v@,
                    q,
                    #[trigger] a@[y] as int,
                ) by {
                    if y > i {
                        assert(precedes(v@, ga[i as int], ga[y]));
                        lemma_precedes_transitive(v@, q, a@[i as int] as int, a@[y] as int);
                    }
                }
                assert forall|y: int| j < y < b@.len() implies precedes(
                    v@,
                    q,
                    #[trigger] b@[y] as int,
                ) by {
                    assert(precedes(v@, gb[j as int], gb[y]));
                }
            }
            j += 1;
        } else {
            r.push(a[i]);
            proof {
                let p = a@[i as int] as int;
                assert forall|y: int| j <= y < b@.len() implies precedes(
                    v@,
                    p,
                    #[trigger] b@[y] as int,
                ) by {
                    if y > j {
                        assert(precedes(v@, gb[j as int], gb[y]));
                        lemma_precedes_transitive(v@, p, b@[j as int] as int, b@[y] as int);
                    }
                }
                assert forall|y: int| i < y < a@.len() implies precedes(
                    v@,
                    p,
                    #[trigger] a@[y] as int,
                ) by {
                    assert(precedes(v@, ga[i as int], ga[y]));
                }
            }
            i += 1;
        }
        proof {
            assert(r@.last() == r@[r@.len() - 1]);
            assert forall|x: int| 0 <= x < i implies r@.contains(#[trigger] a@[x]) by {
                if r0.contains(a@[x]) {
                    let k = choose|k: int| 0 <= k < r0.len() && r0[k] == a@[x];
                    assert(r@[k] == a@[x]);
                } else {
                    assert(r@[r@.len() - 1] == a@[x]);
                }
            }
            assert forall|x: int| 0 <= x < j implies r@.contains(#[trigger] b@[x]) by {
                if r0.contains(b@[x]) {
                    let k = choose|k: int| 0 <= k < r0.len() && r0[k] == b@[x];
                    assert(r@[k] == b@[x]);
                } else {
                    assert(r@[r@.len() - 1] == b@[x]);
                }
            }
        }
    }
    proof {
        let gr = as_ints(r@);
        assert forall|k: int| lo <= k < hi implies gr.contains(k) by {
            if k < mid {
                assert(ga.contains(k));
                let x = choose|x: int| 0 <= x < ga.len() && ga[x] == k;
                assert(r@.contains(a@[x]));
                let y = choose|y: int| 0 <= y < r@.len() && r@[y] == a@[x];
                assert(gr[y] == k);
            } else {
                assert(gb.contains(k));
                let x = choose|x: int| 0 <= x < gb.len() && gb[x] == k;
                assert(r@.contains(b@[x]));
                let y = choose|y: int| 0 <= y < r@.len() && r@[y] == b@[x];
                assert(gr[y] == k);
            }
        }
        assert forall|x: int, y: int| 0 <= x < y < gr.len() implies precedes(
            v@,
            #[trigger] gr[x],
            #[trigger] gr[y],
        ) by {
            assert(precedes(v@, r@[x] as int, r@[y] as int));
        }
    }
    r
}

/// The positions `lo..hi` of `v` by key, equal keys in their own order.
pub fn order_of<T: Keyed>(v: &Vec<T>, lo: usize, hi: usize) -> (r: Vec<usize>)
    requires
        lo <= hi <= v@.len(),
    ensures
        is_order(as_ints(r@), v@, lo as int, hi as int),
    decreases hi - lo,
{
    if hi - lo == 0 {
        Vec::new()
    } else if hi - lo == 1 {
        let mut r: Vec<usize> = Vec::new();
        r.push(lo);
        assert(as_ints(r@)[0] == lo);
        r
    } else {
        let mid: usize = lo + (hi - lo) / 2;
        let a = order_of(v, lo, mid);
        let b = order_of(v, mid, hi);
        merge(v, &a, &b, Ghost(lo as int), Ghost(mid as int), Ghost(hi as int))
    }
}

/// `v` sorted by key, elements of equal key in the order they had.
pub fn sort_stable<T: Keyed>(v: &Vec<T>) -> (r: Vec<T>)
    ensures
        is_stable_sort(r@, v@),
        r@.len() == v@.len(),
{
    let order = order_of(v, 0, v.len());
    let ghost go = as_ints(order@);
    let mut r: Vec<T> = Vec::new();
    let mut i: usize = 0;
    while i < order.len()
        invariant
            go == as_ints(order@),
            is_order(go, v@, 0, v@.len() as int),
            i <= order@.len(),
            r@ == reordered(v@, go.take(i as int)),
        decreases order@.len() - i,
    {
        assert(0 <= go[i as int] < v@.len());
        r.push(v[order[i]].dup());
        i += 1;
        assert(r@ =~= reordered(v@, go.take(i as int)));
    }
    assert(go.take(i as int) =~= go);
    assert(is_order(go, v@, 0, v@.len() as int));
    r
}

/// A stable sort holds the same elements: each of `r` is one of `v`, and each of `v`
/// is one of `r`.
pub proof fn lemma_stable_sort_elements<T: Keyed>(r: Seq<T>, v: Seq<T>)
    requires
        is_stable_sort(r, v),
    ensures
        r.len() == v.len(),
        forall|x: T| r.contains(x) <==> v.contains(x),
{
    let order = choose|order: Seq<int>| #[trigger]
        is_order(order, v, 0, v.len() as int) && r == reordered(v, order);
    assert forall|x: T| r.contains(x) implies v.contains(x) by {
        let i = choose|i: int| 0 <= i < r.len() && r[i] == x;
        assert(v[order[i]] == x);
    }
    assert forall|x: T| v.contains(x) implies r.contains(x) by {
        let i = choose|i: int| 0 <= i < v.len() && v[i] == x;
        assert(order.contains(i));
        let a = choose|a: int| 0 <= a < order.len() && order[a] == i;
        assert(r[a] == x);
    }
}

/// In a stable sort no key comes after a greater one.
pub proof fn lemma_stable_sort_sorted<T: Keyed>(r: Seq<T>, v: Seq<T>, a: int, b: int)
    requires
        is_stable_sort(r, v),
        0 <= a < b < r.len(),
    ensures
        !lex_lt(r[b].key(), r[a].key()),
{
    let order = choose|order: Seq<int>| #[trigger]
        is_order(order, v, 0, v.len() as int) && r == reordered(v, order);
    assert(precedes(v, order[a], order[b]));
    if lex_lt(r[b].key(), r[a].key()) {
        if lex_lt(v[order[a]].key(), v[order[b]].key()) {
            lemma_lex_asymmetric(v[order[a]].key(), v[order[b]].key());
        } else {
            lemma_lex_irreflexive(r[a].key());
        }
    }
}

/// Two lists whose keys agree position by position are sorted by the same order.
pub proof fn lemma_order_unique<T: Keyed>(oa: Seq<int>, ob: Seq<int>, x: Seq<T>, y: Seq<T>)
    requires
        x.len() == y.len(),
        forall|i: int| 0 <= i < x.len() ==> (#[trigger] x[i]).key() == y[i].key(),
        is_order(oa, x, 0, x.len() as int),
        is_order(ob, y, 0, y.len() as int),
    ensures
        oa == ob,
{
    lemma_order_agrees(oa, ob, x, y, oa.len() as int);
    assert(oa =~= ob);
}

proof fn lemma_order_agrees<T: Keyed>(
    oa: Seq<int>,
    ob: Seq<int>,
    x: Seq<T>,
    y: Seq<T>,
    k: int,
)
    requires
        x.len() == y.len(),
        forall|i: int| 0 <= i < x.len() ==> (#[trigger] x[i]).key() == y[i].key(),
        is_order(oa, x, 0, x.len() as int),
        is_order(ob, y, 0, y.len() as int),
        0 <= k <= oa.len(),
    ensures
        forall|m: int| 0 <= m < k ==> oa[m] == ob[m],
    decreases k,
{
    if k > 0 {
        lemma_order_agrees(oa, ob, x, y, k - 1);
        let i = oa[k - 1];
        let j = ob[k - 1];
        if i != j {
            assert(0 <= i < x.len() && 0 <= j < x.len());
            assert(oa.contains(j) && ob.contains(i));
            let q = choose|q: int| 0 <= q < oa.len() && oa[q] == j;
            let p = choose|p: int| 0 <= p < ob.len() && ob[p] == i;
            assert(x[i].key() == y[i].key() && x[j].key() == y[j].key());
            lemma_lex_irreflexive(x[i].key());
            lemma_lex_irreflexive(x[j].key());
            if q < k - 1 {
                assert(precedes(y, ob[q], ob[k - 1]));
            }
            if p < k - 1 {
                assert(precedes(x, oa[p], oa[k - 1]));
            }
            assert(precedes(x, oa[k - 1], oa[q]));
            assert(precedes(y, ob[k - 1], ob[p]));
            if lex_lt(x[i].key(), x[j].key()) {
                lemma_lex_asymmetric(x[i].key(), x[j].key());
            }
        }
    }
}

/// `order` lists each position below `n` once.
pub open spec fn is_permutation(order: Seq<int>, n: nat) -> bool {
    &&& order.len() == n
    &&& order.no_duplicates()
    &&& forall|k: int| 0 <= k < order.len() ==> 0 <= #[trigger] order[k] < n
}

/// The order of a sort is a permutation.
pub proof fn lemma_order_is_permutation<T: Keyed>(order: Seq<int>, v: Seq<T>)
    requires
        is_order(order, v, 0, v.len() as int),
    ensures
        is_permutation(order, v.len()),
{
    assert forall|a: int, b: int| 0 <= a < order.len() && 0 <= b < order.len() && a != b implies
        order[a] != order[b] by {
        lemma_lex_irreflexive(v[order[a]].key());
        if a < b {
            assert(precedes(v, order[a], order[b]));
        } else {
            assert(precedes(v, order[b], order[a]));
        }
    }
}

/// A permutation lists every position.
proof fn lemma_permutation_lists_all(order: Seq<int>, n: nat, i: int)
    requires
        is_permutation(order, n),
        0 <= i < n,
    ensures
        order.contains(i),
{
    order.unique_seq_to_set();
    let below = vstd::set_lib::set_int_range(0, n as int);
    vstd::set_lib::lemma_int_range(0, n as int);
    assert(order.to_set().subset_of(below));
    vstd::set_lib::lemma_subset_equality(order.to_set(), below);
    assert(order.to_set().contains(i));
}

/// Reordering changes nothing in which elements there are, and how often.
pub proof fn lemma_reordered_elements<A>(v: Seq<A>, order: Seq<int>)
    requires
        is_permutation(order, v.len()),
    ensures
        reordered(v, order).to_multiset() == v.to_multiset(),
    decreases v.len(),
{
    let r = reordered(v, order);
    if v.len() == 0 {
        assert(r =~= v);
    } else {
        let n = v.len();
        let front = v.drop_last();
        lemma_permutation_lists_all(order, n, n - 1);
        let p = choose|p: int| 0 <= p < order.len() && order[p] == n - 1;
        let rest = order.remove(p);
        assert forall|k: int| 0 <= k < rest.len() implies 0 <= #[trigger] rest[k] < n - 1 by {
            let m = if k < p {
                k
            } else {
                k + 1
            };
            assert(rest[k] == order[m]);
            assert(order[m] != order[p]);
        }
        assert(rest.no_duplicates()) by {
            assert forall|a: int, b: int|
                0 <= a < rest.len() && 0 <= b < rest.len() && a != b implies rest[a]
                != rest[b] by {
                let x = if a < p {
                    a
                } else {
                    a + 1
                };
                let y = if b < p {
                    b
                } else {
                    b + 1
                };
                assert(rest[a] == order[x] && rest[b] == order[y]);
            }
        }
        lemma_reordered_elements(front, rest);
        assert(reordered(front, rest) =~= r.remove(p));
        vstd::seq_lib::to_multiset_remove(r, p);
        vstd::seq_lib::to_multiset_contains(r, r[p]);
        assert(r.contains(r[p]));
        assert(front.push(v.last()) =~= v);
        vstd::seq_lib::to_multiset_build(front, v.last());
        assert(r.to_multiset() =~= r.to_multiset().remove(r[p]).insert(r[p]));
    }
}

/// There is one order of elements in which no key comes after a greater one, where elements that
/// differ have keys that do.
pub proof fn lemma_sorted_once<A>(a: Seq<A>, b: Seq<A>, key: spec_fn(A) -> Seq<int>)
    requires
        a.to_multiset() == b.to_multiset(),
        forall|i: int, j: int|
            0 <= i < j < a.len() ==> !lex_lt(key(#[trigger] a[j]), key(#[trigger] a[i])),
        forall|i: int, j: int|
            0 <= i < j < b.len() ==> !lex_lt(key(#[trigger] b[j]), key(#[trigger] b[i])),
        forall|i: int, j: int|
            0 <= i < a.len() && 0 <= j < a.len() && key(#[trigger] a[i]) == key(#[trigger] a[j])
                ==> a[i] == a[j],
    ensures
        a == b,
    decreases a.len(),
{
    vstd::seq_lib::to_multiset_len(a);
    vstd::seq_lib::to_multiset_len(b);
    if a.len() == 0 {
        assert(a =~= b);
    } else {
        let x = a.last();
        let y = b.last();
        let (fa, fb) = (a.drop_last(), b.drop_last());
        vstd::seq_lib::to_multiset_contains(a, y);
        vstd::seq_lib::to_multiset_contains(b, x);
        vstd::seq_lib::to_multiset_contains(b, y);
        vstd::seq_lib::to_multiset_contains(a, x);
        assert(b.contains(b[b.len() - 1]) && a.contains(a[a.len() - 1]));
        let i = choose|i: int| 0 <= i < a.len() && a[i] == y;
        let j = choose|j: int| 0 <= j < b.len() && b[j] == x;
        lemma_lex_irreflexive(key(x));
        lemma_lex_irreflexive(key(y));
        assert(!lex_lt(key(a[a.len() - 1]), key(a[i])));
        assert(!lex_lt(key(b[b.len() - 1]), key(b[j])));
        lemma_lex_total(key(x), key(y));
        assert(a[a.len() - 1] == a[i]);
        assert(fa.push(x) =~= a && fb.push(y) =~= b);
        vstd::seq_lib::to_multiset_build(fa, x);
        vstd::seq_lib::to_multiset_build(fb, y);
        assert(fa.to_multiset() =~= a.to_multiset().remove(x));
        assert(fb.to_multiset() =~= b.to_multiset().remove(y));
        lemma_sorted_once(fa, fb, key);
    }
}

/// The texts in strictly increasing order.
pub open spec fn strictly_sorted(v: Seq<Seq<char>>) -> bool {
    forall|a: int, b: int|
        0 <= a < b < v.len() ==> lex_lt(text_key(#[trigger] v[a]), text_key(#[trigger] v[b]))
}

/// The texts in increasing order, each once.
pub fn sorted_unique(v: &Vec<String>) -> (r: Vec<String>)
    ensures
        strictly_sorted(crate::text::texts(r@)),
        crate::text::texts(r@).to_set() == crate::text::texts(v@).to_set(),
{
    let sorted = sort_stable(v);
    let ghost ts = crate::text::texts(sorted@);
    let mut r: Vec<String> = Vec::new();
    let mut i: usize = 0;
    proof {
        lemma_stable_sort_elements(sorted@, v@);
        assert(crate::text::texts(r@) =~= Seq::<Seq<char>>::empty());
    }
    while i < sorted.len()
        invariant
            i <= sorted@.len(),
            ts == crate::text::texts(sorted@),
            is_stable_sort(sorted@, v@),
            strictly_sorted(crate::text::texts(r@)),
            forall|x: Seq<char>|
                crate::text::texts(r@).contains(x) <==> ts.take(i as int).contains(x),
            i > 0 ==> r@.len() > 0 && crate::text::texts(r@).last() == ts[i - 1],
            r@.len() > 0 ==> i > 0,
        decreases sorted@.len() - i,
    {
        let ghost before = crate::text::texts(r@);
        let repeated = r.len() > 0 && crate::text::same(
            r[r.len() - 1].as_str(),
            sorted[i].as_str(),
        );
        proof {
            assert(ts[i as int] == sorted@[i as int]@);
            assert(ts.take(i + 1) =~= ts.take(i as int).push(ts[i as int]));
            crate::collections::lemma_push_to_set(ts.take(i as int), ts[i as int]);
            if r@.len() > 0 {
                assert(before.last() == r@[r@.len() - 1]@);
                lemma_stable_sort_sorted(sorted@, v@, i - 1, i as int);
                lemma_lex_total(text_key(ts[i - 1]), text_key(ts[i as int]));
                if text_key(ts[i - 1]) == text_key(ts[i as int]) {
                    lemma_text_key_injective(ts[i - 1], ts[i as int]);
                }
            }
        }
        if !repeated {
            r.push(sorted[i].clone());
            proof {
                let now = crate::text::texts(r@);
                assert(now =~= before.push(ts[i as int]));
                crate::collections::lemma_push_to_set(before, ts[i as int]);
                assert forall|a: int, b: int| 0 <= a < b < now.len() implies lex_lt(
                    text_key(#[trigger] now[a]),
                    text_key(#[trigger] now[b]),
                ) by {
                    if b == before.len() && a < before.len() - 1 {
                        assert(lex_lt(text_key(before[a]), text_key(before[before.len() - 1])));
                        lemma_lex_transitive(
                            text_key(before[a]),
                            text_key(before.last()),
                            text_key(ts[i as int]),
                        );
                    }
                }
                assert forall|x: Seq<char>|
                    now.contains(x) <==> ts.take(i + 1).contains(x) by {
                    assert(now.contains(x) == now.to_set().contains(x));
                    assert(before.contains(x) == before.to_set().contains(x));
                    assert(ts.take(i + 1).contains(x) == ts.take(i + 1).to_set().contains(x));
                    assert(ts.take(i as int).contains(x) == ts.take(i as int).to_set().contains(x));
                }
            }
        } else {
            proof {
                assert forall|x: Seq<char>|
                    crate::text::texts(r@).contains(x) <==> ts.take(i + 1).contains(x) by {
                    assert(ts.take(i + 1).contains(x) == ts.take(i + 1).to_set().contains(x));
                    assert(ts.take(i as int).contains(x) == ts.take(i as int).to_set().contains(x));
                    assert(before[before.len() - 1] == ts[i as int]);
                    assert(before.contains(ts[i as int]));
                }
            }
        }
        i += 1;
    }
    proof {
        assert(ts.take(i as int) =~= ts);
        let tv = crate::text::texts(v@);
        let tr = crate::text::texts(r@);
        assert forall|x: Seq<char>| tr.to_set().contains(x) == tv.to_set().contains(x) by {
            assert(tr.contains(x) == ts.contains(x));
            if ts.contains(x) {
                let k = choose|k: int| 0 <= k < ts.len() && ts[k] == x;
                assert(sorted@.contains(sorted@[k]));
                let m = choose|m: int| 0 <= m < v@.len() && v@[m] == sorted@[k];
                assert(tv[m] == x);
            }
            if tv.contains(x) {
                let m = choose|m: int| 0 <= m < tv.len() && tv[m] == x;
                assert(v@.contains(v@[m]));
                let k = choose|k: int| 0 <= k < sorted@.len() && sorted@[k] == v@[m];
                assert(ts[k] == x);
            }
        }
        assert(tr.to_set() =~= tv.to_set());
    }
    r
}

/// There is one list of texts in increasing order for each set of them.
pub proof fn lemma_strictly_sorted_unique(a: Seq<Seq<char>>, b: Seq<Seq<char>>)
    requires
        strictly_sorted(a),
        strictly_sorted(b),
        a.to_set() == b.to_set(),
    ensures
        a == b,
    decreases a.len(),
{
    if a.len() == 0 {
        if b.len() > 0 {
            assert(b.contains(b[0]));
            assert(a.to_set().contains(b[0]));
        }
        assert(a =~= b);
    } else if b.len() == 0 {
        assert(a.contains(a[0]));
        assert(b.to_set().contains(a[0]));
    } else {
        let x = a.last();
        let y = b.last();
        assert(a.contains(a[a.len() - 1]));
        assert(b.contains(b[b.len() - 1]));
        assert(b.to_set().contains(x));
        assert(a.to_set().contains(y));
        if x != y {
            let i = choose|i: int| 0 <= i < b.len() && b[i] == x;
            let j = choose|j: int| 0 <= j < a.len() && a[j] == y;
            assert(lex_lt(text_key(b[i]), text_key(b[b.len() - 1])));
            assert(lex_lt(text_key(a[j]), text_key(a[a.len() - 1])));
            lemma_lex_asymmetric(text_key(x), text_key(y));
        }
        let fa = a.drop_last();
        let fb = b.drop_last();
        assert forall|z: Seq<char>| fa.to_set().contains(z) == fb.to_set().contains(z) by {
            if fa.contains(z) {
                let i = choose|i: int| 0 <= i < fa.len() && fa[i] == z;
                assert(lex_lt(text_key(a[i]), text_key(a[a.len() - 1])));
                lemma_lex_irreflexive(text_key(x));
                assert(a.contains(a[i]));
                assert(b.to_set().contains(z));
                let j = choose|j: int| 0 <= j < b.len() && b[j] == z;
                assert(fb[j] == z);
            }
            if fb.contains(z) {
                let i = choose|i: int| 0 <= i < fb.len() && fb[i] == z;
                assert(lex_lt(text_key(b[i]), text_key(b[b.len() - 1])));
                lemma_lex_irreflexive(text_key(y));
                assert(b.contains(b[i]));
                assert(a.to_set().contains(z));
                let j = choose|j: int| 0 <= j < a.len() && a[j] == z;
                assert(fa[j] == z);
            }
        }
        assert(fa.to_set() =~= fb.to_set());
        lemma_strictly_sorted_unique(fa, fb);
        assert(a =~= fa.push(x));
        assert(b =~= fb.push(y));
    }
}

} // verus!
