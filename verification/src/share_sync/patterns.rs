//! Exclude patterns.
use regex::RegexSet;
use vstd::prelude::*;
use vstd::string::*;

use crate::text;
use crate::text::{chars_of, concat3};

verus! {

/// The type `regex::RegexSet`.
#[verifier::external_type_specification]
#[verifier::external_body]
pub struct ExRegexSet(regex::RegexSet);

/// The patterns that a `regex::RegexSet` was compiled from, as its method `patterns`
/// lists them.
pub uninterp spec fn regex_set_patterns(set: RegexSet) -> Seq<Seq<char>>;

/// Whether `regex::RegexSet::new` compiles the given patterns.
pub uninterp spec fn regex_set_compiles(patterns: Seq<Seq<char>>) -> bool;

/// `regex::RegexSet::new`: the compiled set of the given patterns, or nothing where one
/// of them is no regular expression or the set grows over the size limit.
#[verifier::external_body]
fn compile_regex_set(patterns: &Vec<String>) -> (r: Option<RegexSet>)
    ensures
        r is Some <==> regex_set_compiles(text::texts(patterns@)),
        r matches Some(set) ==> regex_set_patterns(set) == text::texts(patterns@),
{
    RegexSet::new(patterns).ok()
}

/// `regex::RegexSet::is_match`: true exactly when one of the set's expressions matches.
/// Of a set that was made from globs by `anchored_regex` this says that one of the globs
/// matches the whole text: in the syntax of the crate an escaped or an ordinary
/// character matches itself, `.` any one character but a line feed, `.*` any number of
/// them, and `^` and `$` only the two ends.
#[verifier::external_body]
fn regex_set_is_match(set: &RegexSet, haystack: &str) -> (r: bool)
    ensures
        forall|globs: Seq<Seq<char>>|
            regex_set_patterns(*set) == #[trigger] anchored_all(globs) ==> r == any_glob_matches(
                globs,
                haystack@,
            ),
{
    set.is_match(haystack)
}

/// Whether a character has a meaning of its own in a regular expression.
pub open spec fn is_meta(c: char) -> bool {
    c == '.' || c == '+' || c == '(' || c == ')' || c == '|' || c == '^' || c == '$' || c == '{'
        || c == '}' || c == '[' || c == ']' || c == '\\'
}

/// The regular expression of one character of a glob.
pub open spec fn glob_char_regex(c: char) -> Seq<char> {
    if c == '*' {
        seq!['.', '*']
    } else if c == '?' {
        seq!['.']
    } else if is_meta(c) {
        seq!['\\', c]
    } else {
        seq![c]
    }
}

/// The regular expression of a glob.
pub open spec fn glob_regex(glob: Seq<char>) -> Seq<char>
    decreases glob.len(),
{
    if glob.len() == 0 {
        Seq::empty()
    } else {
        glob_regex(glob.drop_last()) + glob_char_regex(glob.last())
    }
}

/// The regular expression of a glob, tied to both ends of the text.
pub open spec fn anchored_regex(glob: Seq<char>) -> Seq<char> {
    "^"@ + glob_regex(glob) + "$"@
}

/// `anchored_regex` of each glob.
pub open spec fn anchored_all(globs: Seq<Seq<char>>) -> Seq<Seq<char>> {
    globs.map_values(|g: Seq<char>| anchored_regex(g))
}

/// Whether a glob matches a whole text: `*` stands for any characters but line feeds,
/// slashes among them, `?` for one such character, every other character for itself.
pub open spec fn glob_matches(glob: Seq<char>, s: Seq<char>) -> bool
    decreases glob.len(), s.len(),
{
    if glob.len() == 0 {
        s.len() == 0
    } else if glob[0] == '*' {
        ||| glob_matches(glob.skip(1), s)
        ||| (s.len() > 0 && s[0] != '\n' && glob_matches(glob, s.skip(1)))
    } else {
        &&& s.len() > 0
        &&& (if glob[0] == '?' {
            s[0] != '\n'
        } else {
            s[0] == glob[0]
        })
        &&& glob_matches(glob.skip(1), s.skip(1))
    }
}

/// Whether one of the globs matches the text.
pub open spec fn any_glob_matches(globs: Seq<Seq<char>>, s: Seq<char>) -> bool {
    exists|i: int| 0 <= i < globs.len() && glob_matches(#[trigger] globs[i], s)
}

/// A compiled list of exclude globs.
pub struct ExcludeSet {
    set: RegexSet,
    globs: Ghost<Seq<Seq<char>>>,
}

impl View for ExcludeSet {
    type V = Seq<Seq<char>>;

    /// The globs.
    closed spec fn view(&self) -> Seq<Seq<char>> {
        self.globs@
    }
}

impl ExcludeSet {
    #[verifier::type_invariant]
    spec fn inv(self) -> bool {
        regex_set_patterns(self.set) == anchored_all(self.globs@)
    }

    /// Whether one of the globs matches the path.
    pub fn is_match(&self, path: &str) -> (r: bool)
        ensures
            r == any_glob_matches(self@, path@),
    {
        proof {
            use_type_invariant(self);
        }
        regex_set_is_match(&self.set, path)
    }
}

/// The regular expression of a glob that knows `*` and `?` only: every other character
/// with a meaning in regular expressions is escaped.
pub fn glob_to_regex(pattern: &str) -> (r: Result<String, String>)
    ensures
        r matches Ok(s) && s@ == glob_regex(pattern@),
{
    let cs = chars_of(pattern);
    let mut out = String::new();
    let mut i: usize = 0;
    assert(glob_regex(cs@.take(0)) =~= Seq::<char>::empty());
    while i < cs.len()
        invariant
            cs@ == pattern@,
            i <= cs@.len(),
            out@ == glob_regex(cs@.take(i as int)),
        decreases cs@.len() - i,
    {
        let c = cs[i];
        let ghost before = out@;
        if c == '*' {
            out.push('.');
            out.push('*');
        } else if c == '?' {
            out.push('.');
        } else if c == '.' || c == '+' || c == '(' || c == ')' || c == '|' || c == '^' || c == '$'
            || c == '{' || c == '}' || c == '[' || c == ']' || c == '\\' {
            out.push('\\');
            out.push(c);
        } else {
            out.push(c);
        }
        i += 1;
        proof {
            assert(out@ =~= before + glob_char_regex(c));
            assert(cs@.take(i as int).drop_last() =~= cs@.take(i - 1));
            assert(cs@.take(i as int).last() == c);
        }
    }
    assert(cs@.take(i as int) =~= cs@);
    Ok(out)
}

/// Compiles exclude globs. There is no set for no globs, nor where the set does not
/// compile: then nothing is excluded.
pub fn compile_exclude_patterns(patterns: &[String]) -> (r: Option<ExcludeSet>)
    ensures
        r is Some <==> patterns@.len() > 0 && regex_set_compiles(
            anchored_all(text::texts(patterns@)),
        ),
        r matches Some(set) ==> set@ == text::texts(patterns@),
{
    if patterns.len() == 0 {
        return None;
    }
    let mut regexes: Vec<String> = Vec::new();
    let ghost globs = text::texts(patterns@);
    let mut i: usize = 0;
    while i < patterns.len()
        invariant
            i <= patterns@.len(),
            globs == text::texts(patterns@),
            text::texts(regexes@) == anchored_all(globs.take(i as int)),
        decreases patterns@.len() - i,
    {
        match glob_to_regex(patterns[i].as_str()) {
            Ok(body) => {
                let ghost before = text::texts(regexes@);
                let full = concat3("^", body.as_str(), "$");
                regexes.push(full);
                proof {
                    assert(globs[i as int] == patterns@[i as int]@);
                    assert(full@ == anchored_regex(globs[i as int]));
                    assert(text::texts(regexes@) =~= before.push(full@));
                    assert(anchored_all(globs.take(i + 1)) =~= before.push(full@));
                }
            },
            Err(_) => {
                return None;
            },
        }
        i += 1;
    }
    assert(globs.take(i as int) =~= globs);
    match compile_regex_set(&regexes) {
        Some(set) => Some(ExcludeSet { set, globs: Ghost(globs) }),
        None => None,
    }
}

/// A glob without wildcards matches itself and nothing else.
pub proof fn law_literal_glob(glob: Seq<char>, s: Seq<char>)
    requires
        !glob.contains('*'),
        !glob.contains('?'),
    ensures
        glob_matches(glob, s) <==> glob == s,
    decreases glob.len(),
{
    if glob.len() == 0 {
        assert(glob =~= Seq::<char>::empty());
        if s.len() == 0 {
            assert(s =~= Seq::<char>::empty());
        }
    } else {
        let rest = glob.skip(1);
        assert(glob.contains(glob[0]));
        assert(!rest.contains('*')) by {
            if rest.contains('*') {
                let k = choose|k: int| 0 <= k < rest.len() && rest[k] == '*';
                assert(glob[k + 1] == '*');
            }
        }
        assert(!rest.contains('?')) by {
            if rest.contains('?') {
                let k = choose|k: int| 0 <= k < rest.len() && rest[k] == '?';
                assert(glob[k + 1] == '?');
            }
        }
        if s.len() > 0 {
            law_literal_glob(rest, s.skip(1));
            if s[0] == glob[0] && rest == s.skip(1) {
                assert(glob =~= seq![glob[0]] + rest);
                assert(s =~= seq![s[0]] + s.skip(1));
            }
        }
    }
}

/// The glob `*` matches every text without a line feed, slashes or none.
pub proof fn law_star_matches_all(s: Seq<char>)
    requires
        !s.contains('\n'),
    ensures
        glob_matches(seq!['*'], s),
    decreases s.len(),
{
    reveal_with_fuel(glob_matches, 2);
    if s.len() > 0 {
        let rest = s.skip(1);
        assert(s.contains(s[0]));
        assert(!rest.contains('\n')) by {
            if rest.contains('\n') {
                let k = choose|k: int| 0 <= k < rest.len() && rest[k] == '\n';
                assert(s[k + 1] == '\n');
            }
        }
        law_star_matches_all(rest);
    }
}

/// A glob matches piece by piece: where it is put together from two, the text falls into two
/// pieces that they match.
pub proof fn law_glob_matches_piece_by_piece(a: Seq<char>, b: Seq<char>, s: Seq<char>)
    ensures
        glob_matches(a + b, s) <==> exists|k: int|
            0 <= k <= s.len() && glob_matches(a, #[trigger] s.take(k)) && glob_matches(b, s.skip(k)),
    decreases a.len(), s.len(),
{
    let g = a + b;
    if a.len() == 0 {
        assert(g =~= b);
        assert(s.skip(0) =~= s);
        if glob_matches(g, s) {
            assert(glob_matches(a, s.take(0)));
        }
        if exists|k: int|
            0 <= k <= s.len() && glob_matches(a, #[trigger] s.take(k)) && glob_matches(b, s.skip(k)) {
            let k = choose|k: int|
                0 <= k <= s.len() && glob_matches(a, #[trigger] s.take(k)) && glob_matches(
                    b,
                    s.skip(k),
                );
            assert(s.take(k).len() == k);
        }
    } else {
        let rest = a.skip(1);
        assert(g.skip(1) =~= rest + b);
        assert(g[0] == a[0]);
        law_glob_matches_piece_by_piece(rest, b, s);
        if s.len() > 0 {
            law_glob_matches_piece_by_piece(a, b, s.skip(1));
            law_glob_matches_piece_by_piece(rest, b, s.skip(1));
        }
        if glob_matches(g, s) {
            if a[0] == '*' && glob_matches(rest + b, s) {
                let k = choose|k: int|
                    0 <= k <= s.len() && glob_matches(rest, #[trigger] s.take(k)) && glob_matches(
                        b,
                        s.skip(k),
                    );
                assert(glob_matches(a, s.take(k)));
            } else {
                let t = s.skip(1);
                let x = if a[0] == '*' {
                    a
                } else {
                    rest
                };
                let k = choose|k: int|
                    0 <= k <= t.len() && glob_matches(x, #[trigger] t.take(k)) && glob_matches(
                        b,
                        t.skip(k),
                    );
                assert(s.take(k + 1).skip(1) =~= t.take(k));
                assert(s.skip(k + 1) =~= t.skip(k));
                assert(s.take(k + 1)[0] == s[0]);
                assert(glob_matches(a, s.take(k + 1)));
            }
        }
        if exists|k: int|
            0 <= k <= s.len() && glob_matches(a, #[trigger] s.take(k)) && glob_matches(b, s.skip(k)) {
            let k = choose|k: int|
                0 <= k <= s.len() && glob_matches(a, #[trigger] s.take(k)) && glob_matches(
                    b,
                    s.skip(k),
                );
            if a[0] == '*' && glob_matches(rest, s.take(k)) {
                assert(glob_matches(rest + b, s));
            } else {
                assert(s.take(k).len() > 0);
                let t = s.skip(1);
                let x = if a[0] == '*' {
                    a
                } else {
                    rest
                };
                assert(s.take(k).skip(1) =~= t.take(k - 1));
                assert(s.take(k)[0] == s[0]);
                assert(t.skip(k - 1) =~= s.skip(k));
                assert(glob_matches(x, t.take(k - 1)));
                assert(glob_matches(x + b, t));
            }
        }
    }
}

/// A question mark matches any one character but a line feed, and nothing else; a star matches a
/// text exactly when no line feed is in it.
pub proof fn law_wildcards(s: Seq<char>)
    ensures
        glob_matches(seq!['?'], s) <==> s.len() == 1 && s[0] != '\n',
        glob_matches(seq!['*'], s) <==> !s.contains('\n'),
    decreases s.len(),
{
    reveal_with_fuel(glob_matches, 3);
    assert(seq!['?'].skip(1) =~= Seq::<char>::empty());
    assert(seq!['*'].skip(1) =~= Seq::<char>::empty());
    if s.len() > 0 {
        assert(s.skip(1).len() == s.len() - 1);
    }
    if !s.contains('\n') {
        law_star_matches_all(s);
    }
    if s.contains('\n') {
        let t = s.skip(1);
        let k = choose|k: int| 0 <= k < s.len() && s[k] == '\n';
        if s[0] != '\n' {
            assert(t[k - 1] == '\n');
            law_wildcards(t);
        }
    }
}

/// The expression of a glob is made character by character: a star becomes `.*`, a question mark
/// a dot, a letter or digit itself, and a character with a meaning in expressions is escaped.
pub proof fn law_glob_expression_is_made_by_character(a: Seq<char>, c: char)
    ensures
        glob_regex(seq![]).len() == 0,
        glob_regex(a.push('*')) == glob_regex(a).push('.').push('*'),
        glob_regex(a.push('?')) == glob_regex(a).push('.'),
        ('a' <= c <= 'z' || 'A' <= c <= 'Z' || '0' <= c <= '9' || c == '/' || c == '-' || c == '_'
            || c == ' ' || c as u32 >= 128) ==> glob_regex(a.push(c)) == glob_regex(a).push(c),
        (c == '.' || c == '+' || c == '(' || c == ')' || c == '|' || c == '^' || c == '$' || c == '{'
            || c == '}' || c == '[' || c == ']' || c == '\\') ==> glob_regex(a.push(c))
            == glob_regex(a).push('\\').push(c),
{
    assert(a.push('*').drop_last() =~= a);
    assert(a.push('?').drop_last() =~= a);
    assert(a.push(c).drop_last() =~= a);
    assert(glob_regex(a.push('*')) =~= glob_regex(a).push('.').push('*'));
    assert(glob_regex(a.push('?')) =~= glob_regex(a).push('.'));
    if is_meta(c) {
        assert(glob_regex(a.push(c)) =~= glob_regex(a).push('\\').push(c));
    } else if c != '*' && c != '?' {
        assert(glob_regex(a.push(c)) =~= glob_regex(a).push(c));
    }
}

} // verus!
