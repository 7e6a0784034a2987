//! Text as sequences of characters.
//!
//! A `String` or `&str` is modelled by the sequence of its characters. The
//! functions here cut, search and build such sequences; each one states its
//! result over that model.
use vstd::prelude::*;
use vstd::string::*;

verus! {

/// `String::push` of the standard library: appends one character.
pub assume_specification[ String::push ](s: &mut String, c: char)
    ensures
        final(s)@ == old(s)@.push(c),
;

/// `==` on `str` of the standard library: two texts are equal exactly when their
/// characters are.
pub assume_specification[ <str as PartialEq>::eq ](s: &str, other: &str) -> (res: bool)
    ensures
        res == (s@ == other@),
;

/// The characters of each of several texts.
pub open spec fn texts(v: Seq<String>) -> Seq<Seq<char>> {
    v.map_values(|s: String| s@)
}

/// The characters of an optional text.
pub open spec fn opt_text(o: Option<String>) -> Option<Seq<char>> {
    match o {
        Some(s) => Some(s@),
        None => None,
    }
}

/// The characters of a text.
pub fn chars_of(s: &str) -> (r: Vec<char>)
    ensures
        r@ == s@,
{
    let mut r: Vec<char> = Vec::new();
    for c in it: s.chars()
        invariant
            r@ == s@.take(it.index()),
            it.seq() == s@,
    {
        r.push(c);
        assert(s@.take(it.index()).push(c) =~= s@.take(it.index() + 1));
    }
    assert(s@.take(s@.len() as int) =~= s@);
    r
}

/// The text made of the characters `cs[from..to]`.
pub fn string_between(cs: &Vec<char>, from: usize, to: usize) -> (r: String)
    requires
        from <= to <= cs@.len(),
    ensures
        r@ == cs@.subrange(from as int, to as int),
{
    let mut r = String::new();
    let mut i: usize = from;
    while i < to
        invariant
            from <= i <= to <= cs@.len(),
            r@ == cs@.subrange(from as int, i as int),
        decreases to - i,
    {
        r.push(cs[i]);
        i += 1;
        assert(cs@.subrange(from as int, i as int) =~= cs@.subrange(from as int, i - 1).push(
            cs@[i - 1],
        ));
    }
    r
}

/// The text made of the characters `cs`.
pub fn string_of(cs: &Vec<char>) -> (r: String)
    ensures
        r@ == cs@,
{
    let r = string_between(cs, 0, cs.len());
    assert(cs@.subrange(0, cs@.len() as int) =~= cs@);
    r
}

/// Whether two texts are equal.
pub fn same(a: &str, b: &str) -> (r: bool)
    ensures
        r == (a@ == b@),
{
    *a == *b
}

/// The concatenation of two texts.
pub fn concat2(a: &str, b: &str) -> (r: String)
    ensures
        r@ == a@ + b@,
{
    let mut r = a.to_owned();
    r.append(b);
    r
}

/// The concatenation of three texts.
pub fn concat3(a: &str, b: &str, c: &str) -> (r: String)
    ensures
        r@ == a@ + b@ + c@,
{
    let mut r = concat2(a, b);
    r.append(c);
    r
}

/// The copy of an optional text.
pub fn copy_opt(o: &Option<String>) -> (r: Option<String>)
    ensures
        r == *o,
{
    match o {
        Some(s) => Some(s.clone()),
        None => None,
    }
}

/// Equal texts.
pub fn copy_texts(v: &Vec<String>) -> (r: Vec<String>)
    ensures
        r@ == v@,
{
    let mut r: Vec<String> = Vec::new();
    let mut i: usize = 0;
    while i < v.len()
        invariant
            i <= v@.len(),
            r@ == v@.take(i as int),
        decreases v@.len() - i,
    {
        r.push(v[i].clone());
        i += 1;
        assert(v@.take(i as int) =~= v@.take(i - 1).push(v@[i - 1]));
    }
    assert(v@.take(i as int) =~= v@);
    r
}

/// A text in lower case: the name for the result of `to_lowercase`.
pub uninterp spec fn lowercase_of(s: Seq<char>) -> Seq<char>;

/// `str::to_lowercase` of the standard library: the text in lower case, by the rules of
/// Unicode. The result depends on the text alone; what it is, is not stated.
#[verifier::external_body]
pub(crate) fn to_lowercase(s: &str) -> (r: String)
    ensures
        r@ == lowercase_of(s@),
{
    s.to_lowercase()
}

// ---------------------------------------------------------------------------
// White space
// ---------------------------------------------------------------------------
/// Whether a character has the Unicode property `White_Space`.
pub open spec fn is_space(c: char) -> bool {
    let n = c as u32;
    ||| 0x9 <= n <= 0xd
    ||| n == 0x20
    ||| n == 0x85
    ||| n == 0xa0
    ||| n == 0x1680
    ||| 0x2000 <= n <= 0x200a
    ||| n == 0x2028
    ||| n == 0x2029
    ||| n == 0x202f
    ||| n == 0x205f
    ||| n == 0x3000
}

/// Whether a character has the Unicode property `White_Space`.
pub fn space(c: char) -> (r: bool)
    ensures
        r == is_space(c),
{
    let n: u32 = c as u32;
    (0x9 <= n && n <= 0xd) || n == 0x20 || n == 0x85 || n == 0xa0 || n == 0x1680 || (0x2000 <= n
        && n <= 0x200a) || n == 0x2028 || n == 0x2029 || n == 0x202f || n == 0x205f || n == 0x3000
}

/// `s` without its leading white space.
pub open spec fn trim_start(s: Seq<char>) -> Seq<char>
    decreases s.len(),
{
    if s.len() > 0 && is_space(s[0]) {
        trim_start(s.skip(1))
    } else {
        s
    }
}

/// `s` without its trailing white space.
pub open spec fn trim_end(s: Seq<char>) -> Seq<char>
    decreases s.len(),
{
    if s.len() > 0 && is_space(s.last()) {
        trim_end(s.drop_last())
    } else {
        s
    }
}

/// `s` without its leading and trailing white space.
pub open spec fn trimmed(s: Seq<char>) -> Seq<char> {
    trim_end(trim_start(s))
}

/// The range of `cs` that is left when white space is cut off at both ends.
pub fn trim_range(cs: &Vec<char>) -> (r: (usize, usize))
    ensures
        r.0 <= r.1 <= cs@.len(),
        cs@.subrange(r.0 as int, r.1 as int) == trimmed(cs@),
{
    let n: usize = cs.len();
    let mut a: usize = 0;
    assert(cs@.skip(0) =~= cs@);
    while a < n && space(cs[a])
        invariant
            a <= n == cs@.len(),
            trim_start(cs@.skip(a as int)) == trim_start(cs@),
        decreases n - a,
    {
        assert(cs@.skip(a as int).skip(1) =~= cs@.skip(a + 1));
        a += 1;
    }
    assert(trim_start(cs@) == cs@.skip(a as int));
    let mut b: usize = n;
    assert(cs@.subrange(a as int, n as int) =~= cs@.skip(a as int));
    while b > a && space(cs[b - 1])
        invariant
            a <= b <= n == cs@.len(),
            trim_end(cs@.subrange(a as int, b as int)) == trimmed(cs@),
        decreases b,
    {
        assert(cs@.subrange(a as int, b as int).drop_last() =~= cs@.subrange(a as int, b - 1));
        b -= 1;
    }
    (a, b)
}

/// `s` without its leading and trailing white space.
pub fn trim(s: &str) -> (r: String)
    ensures
        r@ == trimmed(s@),
{
    let cs = chars_of(s);
    let (a, b) = trim_range(&cs);
    string_between(&cs, a, b)
}

// ---------------------------------------------------------------------------
// Runs of one character
// ---------------------------------------------------------------------------
/// `s` without the run of `ch` that it begins with.
pub open spec fn strip_start(s: Seq<char>, ch: char) -> Seq<char>
    decreases s.len(),
{
    if s.len() > 0 && s[0] == ch {
        strip_start(s.skip(1), ch)
    } else {
        s
    }
}

/// `s` without the run of `ch` that it ends with.
pub open spec fn strip_end(s: Seq<char>, ch: char) -> Seq<char>
    decreases s.len(),
{
    if s.len() > 0 && s.last() == ch {
        strip_end(s.drop_last(), ch)
    } else {
        s
    }
}

/// Length of the run of `ch` that `cs` begins with.
pub fn run_start(cs: &Vec<char>, ch: char) -> (r: usize)
    ensures
        r <= cs@.len(),
        cs@.skip(r as int) == strip_start(cs@, ch),
        forall|k: int| 0 <= k < r ==> cs@[k] == ch,
        r < cs@.len() ==> cs@[r as int] != ch,
{
    let n: usize = cs.len();
    let mut a: usize = 0;
    assert(cs@.skip(0) =~= cs@);
    while a < n && cs[a] == ch
        invariant
            a <= n == cs@.len(),
            strip_start(cs@.skip(a as int), ch) == strip_start(cs@, ch),
            forall|k: int| 0 <= k < a ==> cs@[k] == ch,
        decreases n - a,
    {
        assert(cs@.skip(a as int).skip(1) =~= cs@.skip(a + 1));
        a += 1;
    }
    a
}

/// Length of `cs` without the run of `ch` that it ends with.
pub fn run_end(cs: &Vec<char>, ch: char) -> (r: usize)
    ensures
        r <= cs@.len(),
        cs@.take(r as int) == strip_end(cs@, ch),
        forall|k: int| r <= k < cs@.len() ==> cs@[k] == ch,
        r > 0 ==> cs@[r - 1] != ch,
{
    let n: usize = cs.len();
    let mut b: usize = n;
    assert(cs@.take(n as int) =~= cs@);
    while b > 0 && cs[b - 1] == ch
        invariant
            b <= n == cs@.len(),
            strip_end(cs@.take(b as int), ch) == strip_end(cs@, ch),
            forall|k: int| b <= k < n ==> cs@[k] == ch,
        decreases b,
    {
        assert(cs@.take(b as int).drop_last() =~= cs@.take(b - 1));
        b -= 1;
    }
    b
}

/// `strip_start` takes off a run of `ch` and nothing else.
pub proof fn lemma_strip_start(s: Seq<char>, ch: char) -> (n: nat)
    ensures
        n <= s.len(),
        strip_start(s, ch) == s.skip(n as int),
        forall|k: int| 0 <= k < n ==> s[k] == ch,
        n < s.len() ==> s[n as int] != ch,
    decreases s.len(),
{
    if s.len() > 0 && s[0] == ch {
        let m = lemma_strip_start(s.skip(1), ch);
        assert(s.skip(1).skip(m as int) =~= s.skip((m + 1) as int));
        assert forall|k: int| 0 <= k < m + 1 implies s[k] == ch by {
            if k > 0 {
                assert(s.skip(1)[k - 1] == ch);
            }
        }
        m + 1
    } else {
        assert(s.skip(0) =~= s);
        0
    }
}

/// `strip_end` takes off a run of `ch` and nothing else.
pub proof fn lemma_strip_end(s: Seq<char>, ch: char) -> (n: nat)
    ensures
        n <= s.len(),
        strip_end(s, ch) == s.take(n as int),
        forall|k: int| n <= k < s.len() ==> s[k] == ch,
        n > 0 ==> s[n - 1] != ch,
    decreases s.len(),
{
    if s.len() > 0 && s.last() == ch {
        let m = lemma_strip_end(s.drop_last(), ch);
        assert(s.drop_last().take(m as int) =~= s.take(m as int));
        assert forall|k: int| m <= k < s.len() implies s[k] == ch by {
            if k < s.len() - 1 {
                assert(s.drop_last()[k] == ch);
            }
        }
        m
    } else {
        assert(s.take(s.len() as int) =~= s);
        s.len()
    }
}

// ---------------------------------------------------------------------------
// Searching
// ---------------------------------------------------------------------------
/// First position at or after `i` where `ch` stands in `s`.
pub open spec fn first_at(s: Seq<char>, ch: char, i: int) -> Option<int>
    decreases s.len() - i,
{
    if i < 0 || i >= s.len() {
        None
    } else if s[i] == ch {
        Some(i)
    } else {
        first_at(s, ch, i + 1)
    }
}

/// Last position before `i` where `ch` stands in `s`.
pub open spec fn last_before(s: Seq<char>, ch: char, i: int) -> Option<int>
    decreases i,
{
    if i <= 0 || i > s.len() {
        None
    } else if s[i - 1] == ch {
        Some(i - 1)
    } else {
        last_before(s, ch, i - 1)
    }
}

/// Position of the first `ch` at or after `from`.
pub fn find_char(cs: &Vec<char>, ch: char, from: usize) -> (r: Option<usize>)
    requires
        from <= cs@.len(),
    ensures
        match r {
            Some(i) => {
                &&& first_at(cs@, ch, from as int) == Some(i as int)
                &&& from <= i < cs@.len()
                &&& cs@[i as int] == ch
                &&& forall|k: int| from <= k < i ==> cs@[k] != ch
            },
            None => {
                &&& first_at(cs@, ch, from as int) is None
                &&& forall|k: int| from <= k < cs@.len() ==> cs@[k] != ch
            },
        },
{
    let mut i: usize = from;
    while i < cs.len()
        invariant
            from <= i <= cs@.len(),
            first_at(cs@, ch, i as int) == first_at(cs@, ch, from as int),
            forall|k: int| from <= k < i ==> cs@[k] != ch,
        decreases cs@.len() - i,
    {
        if cs[i] == ch {
            return Some(i);
        }
        i += 1;
    }
    None
}

/// Position of the last `ch` before `to`.
pub fn rfind_char(cs: &Vec<char>, ch: char, to: usize) -> (r: Option<usize>)
    requires
        to <= cs@.len(),
    ensures
        match r {
            Some(i) => {
                &&& last_before(cs@, ch, to as int) == Some(i as int)
                &&& i < to
                &&& cs@[i as int] == ch
                &&& forall|k: int| i < k < to ==> cs@[k] != ch
            },
            None => {
                &&& last_before(cs@, ch, to as int) is None
                &&& forall|k: int| 0 <= k < to ==> cs@[k] != ch
            },
        },
{
    let mut i: usize = to;
    while i > 0
        invariant
            i <= to <= cs@.len(),
            last_before(cs@, ch, i as int) == last_before(cs@, ch, to as int),
            forall|k: int| i <= k < to ==> cs@[k] != ch,
        decreases i,
    {
        if cs[i - 1] == ch {
            return Some(i - 1);
        }
        i -= 1;
    }
    None
}

/// What `first_at` finds: the first position, or nothing where there is none.
pub proof fn lemma_first_at(s: Seq<char>, ch: char, i: int)
    requires
        0 <= i <= s.len(),
    ensures
        match first_at(s, ch, i) {
            Some(k) => i <= k < s.len() && s[k] == ch && forall|j: int|
                i <= j < k ==> s[j] != ch,
            None => forall|j: int| i <= j < s.len() ==> s[j] != ch,
        },
    decreases s.len() - i,
{
    if i < s.len() && s[i] != ch {
        lemma_first_at(s, ch, i + 1);
    }
}

/// What `last_before` finds: the last position, or nothing where there is none.
pub proof fn lemma_last_before(s: Seq<char>, ch: char, i: int)
    requires
        0 <= i <= s.len(),
    ensures
        match last_before(s, ch, i) {
            Some(k) => 0 <= k < i && s[k] == ch && forall|j: int| k < j < i ==> s[j] != ch,
            None => forall|j: int| 0 <= j < i ==> s[j] != ch,
        },
    decreases i,
{
    if i > 0 && s[i - 1] != ch {
        lemma_last_before(s, ch, i - 1);
    }
}

/// Whether `pat` stands in `s` at position `i`.
pub open spec fn stands_at(s: Seq<char>, pat: Seq<char>, i: int) -> bool {
    0 <= i && i + pat.len() <= s.len() && s.subrange(i, i + pat.len()) == pat
}

/// First position at or after `i` where `pat` stands in `s`.
pub open spec fn find_text(s: Seq<char>, pat: Seq<char>, i: int) -> Option<int>
    decreases s.len() - i + 1,
{
    if i < 0 || i > s.len() {
        None
    } else if stands_at(s, pat, i) {
        Some(i)
    } else {
        find_text(s, pat, i + 1)
    }
}

/// Whether `pat` occurs in `s`.
pub open spec fn occurs(s: Seq<char>, pat: Seq<char>) -> bool {
    exists|i: int| stands_at(s, pat, i)
}

/// What `find_text` finds: the first position, or nothing where there is none.
pub proof fn lemma_find_text(s: Seq<char>, pat: Seq<char>, i: int)
    requires
        0 <= i,
    ensures
        match find_text(s, pat, i) {
            Some(k) => i <= k && stands_at(s, pat, k) && forall|j: int|
                i <= j < k ==> !stands_at(s, pat, j),
            None => forall|j: int| i <= j ==> !stands_at(s, pat, j),
        },
    decreases s.len() - i + 1,
{
    if i <= s.len() && !stands_at(s, pat, i) {
        lemma_find_text(s, pat, i + 1);
    }
}

/// Whether `pat` stands in `cs` at position `i`.
pub fn at(cs: &Vec<char>, pat: &Vec<char>, i: usize) -> (r: bool)
    requires
        i <= cs@.len(),
    ensures
        r == stands_at(cs@, pat@, i as int),
{
    let m: usize = pat.len();
    let n: usize = cs.len();
    if m > n - i {
        return false;
    }
    let mut k: usize = 0;
    while k < m
        invariant
            m == pat@.len(),
            i + m <= n == cs@.len(),
            k <= m,
            forall|j: int| 0 <= j < k ==> cs@[i + j] == pat@[j],
        decreases m - k,
    {
        if cs[i + k] != pat[k] {
            assert(cs@.subrange(i as int, i + m)[k as int] != pat@[k as int]);
            return false;
        }
        k += 1;
    }
    assert(cs@.subrange(i as int, i + m) =~= pat@);
    true
}

/// Position of the first occurrence of `pat` at or after `from`.
pub fn find(cs: &Vec<char>, pat: &Vec<char>, from: usize) -> (r: Option<usize>)
    requires
        from <= cs@.len(),
    ensures
        match r {
            Some(i) => find_text(cs@, pat@, from as int) == Some(i as int) && from <= i && stands_at(
                cs@,
                pat@,
                i as int,
            ),
            None => find_text(cs@, pat@, from as int) is None,
        },
{
    let mut i: usize = from;
    loop
        invariant
            from <= i <= cs@.len(),
            find_text(cs@, pat@, i as int) == find_text(cs@, pat@, from as int),
        decreases cs@.len() - i,
    {
        if at(cs, pat, i) {
            return Some(i);
        }
        if i == cs.len() {
            assert(find_text(cs@, pat@, i + 1) is None);
            return None;
        }
        i += 1;
    }
}

/// Whether `pat` occurs in `s`.
pub fn contains(s: &str, pat: &str) -> (r: bool)
    ensures
        r == occurs(s@, pat@),
{
    let cs = chars_of(s);
    let ps = chars_of(pat);
    let r = find(&cs, &ps, 0);
    proof {
        lemma_find_text(cs@, ps@, 0);
    }
    r.is_some()
}

/// Whether `s` begins with `pat`.
pub fn starts_with(s: &str, pat: &str) -> (r: bool)
    ensures
        r == pat@.is_prefix_of(s@),
{
    let cs = chars_of(s);
    let ps = chars_of(pat);
    let r = at(&cs, &ps, 0);
    proof {
        if ps@.len() <= cs@.len() {
            assert(cs@.subrange(0, ps@.len() as int) =~= cs@.take(ps@.len() as int));
        }
    }
    r
}

/// A text is found where it stands in the middle of another.
pub proof fn law_occurs_in_the_middle(a: Seq<char>, pat: Seq<char>, b: Seq<char>)
    ensures
        occurs(a + pat + b, pat),
{
    let s = a + pat + b;
    assert(s.subrange(a.len() as int, a.len() as int + pat.len()) =~= pat);
    assert(stands_at(s, pat, a.len() as int));
    lemma_find_text(s, pat, 0);
}

/// No text but the empty one is found in nothing.
pub proof fn law_nothing_occurs_in_nothing(pat: Seq<char>)
    requires
        pat.len() > 0,
    ensures
        !occurs(seq![], pat),
{
    lemma_find_text(seq![], pat, 0);
}

/// Trimming cuts off white space at both ends, all of it and nothing else.
pub proof fn law_trimming_cuts_both_ends(s: Seq<char>) -> (r: (int, int))
    ensures
        0 <= r.0 <= r.1 <= s.len(),
        trimmed(s) == s.subrange(r.0, r.1),
        forall|i: int| 0 <= i < r.0 ==> is_space(#[trigger] s[i]),
        forall|i: int| r.1 <= i < s.len() ==> is_space(#[trigger] s[i]),
        trimmed(s).len() > 0 ==> !is_space(trimmed(s)[0]) && !is_space(trimmed(s).last()),
        is_space(' ') && is_space('\n') && is_space('\t'),
        !is_space('a') && !is_space('/') && !is_space('0'),
{
    let a = lemma_trim_start(s);
    let t = s.skip(a);
    let b = lemma_trim_end(t);
    assert(t.take(b) =~= s.subrange(a, a + b));
    assert forall|i: int| a + b <= i < s.len() implies is_space(#[trigger] s[i]) by {
        assert(t[i - a] == s[i]);
    }
    if b > 0 {
        assert(t.take(b)[0] == t[0]);
    }
    (a, a + b)
}

proof fn lemma_trim_start(s: Seq<char>) -> (a: int)
    ensures
        0 <= a <= s.len(),
        trim_start(s) == s.skip(a),
        forall|i: int| 0 <= i < a ==> is_space(#[trigger] s[i]),
        a < s.len() ==> !is_space(s[a]),
    decreases s.len(),
{
    if s.len() > 0 && is_space(s[0]) {
        let t = s.skip(1);
        let a = lemma_trim_start(t);
        assert(t.skip(a) =~= s.skip(a + 1));
        assert forall|i: int| 0 <= i < a + 1 implies is_space(#[trigger] s[i]) by {
            if i > 0 {
                assert(t[i - 1] == s[i]);
            }
        }
        a + 1
    } else {
        assert(s.skip(0) =~= s);
        0
    }
}

proof fn lemma_trim_end(s: Seq<char>) -> (b: int)
    ensures
        0 <= b <= s.len(),
        trim_end(s) == s.take(b),
        forall|i: int| b <= i < s.len() ==> is_space(#[trigger] s[i]),
        b > 0 ==> !is_space(s[b - 1]),
    decreases s.len(),
{
    if s.len() > 0 && is_space(s.last()) {
        let t = s.drop_last();
        let b = lemma_trim_end(t);
        assert(t.take(b) =~= s.take(b));
        assert forall|i: int| b <= i < s.len() implies is_space(#[trigger] s[i]) by {
            if i < t.len() {
                assert(t[i] == s[i]);
            }
        }
        b
    } else {
        assert(s.take(s.len() as int) =~= s);
        s.len() as int
    }
}

} // verus!
