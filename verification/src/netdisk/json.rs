//! JSON values.
use vstd::prelude::*;

use crate::numbers;
use crate::numbers::{decimal, signed_decimal};
use crate::text;
use crate::text::same;

verus! {

/// A JSON value.
#[derive(Debug)]
pub enum Json {
    Null,
    Bool(bool),
    /// An integer that is not negative.
    Unsigned(u64),
    /// An integer below zero.
    Negative(i64),
    /// Any other number, as it is shown.
    Float(String),
    Text(String),
    Array(Vec<Json>),
    /// Names and values.
    Object(Vec<(String, Json)>),
}

// ---------------------------------------------------------------------------
// Reading and showing
// ---------------------------------------------------------------------------
/// `serde_json::Value`.
#[verifier::external_type_specification]
#[verifier::external_body]
pub struct ExValue(serde_json::Value);

/// The JSON value that a text stands for, if it does: the name for the result of
/// `read_json`.
pub uninterp spec fn json_of(s: Seq<char>) -> Option<Json>;

/// A value of `serde_json`, variant by variant. Nothing is claimed of it here: see
/// `read_json`.
#[verifier::external_body]
fn converted(v: serde_json::Value) -> (r: Json) {
    match v {
        serde_json::Value::Null => Json::Null,
        serde_json::Value::Bool(b) => Json::Bool(b),
        serde_json::Value::Number(n) => match (n.as_u64(), n.as_i64()) {
            (Some(u), _) => Json::Unsigned(u),
            (None, Some(i)) => Json::Negative(i),
            (None, None) => Json::Float(n.to_string()),
        },
        serde_json::Value::String(s) => Json::Text(s),
        serde_json::Value::Array(a) => Json::Array(a.into_iter().map(converted).collect()),
        serde_json::Value::Object(m) => Json::Object(
            m.into_iter().map(|kv| (kv.0, converted(kv.1))).collect()),
    }
}

/// `serde_json::from_str`: the JSON value that a text stands for; `None` where it stands
/// for none. The result depends on the text alone; which texts stand for what is not
/// stated.
#[verifier::external_body]
pub(crate) fn read_json(s: &str) -> (r: Option<Json>)
    ensures
        r == json_of(s@),
{
    serde_json::from_str::<serde_json::Value>(s).ok().map(converted)
}

/// How a list of texts is written in JSON: the name for the result of `texts_as_json`.
pub uninterp spec fn json_list_of(items: Seq<Seq<char>>) -> Seq<char>;

/// `serde_json::to_string` of a list of texts: a JSON array of strings, and an empty
/// array where it fails. The result depends on the texts alone; which characters are
/// escaped, and how, is not stated.
#[verifier::external_body]
pub(crate) fn texts_as_json(items: &Vec<String>) -> (r: String)
    ensures
        r@ == json_list_of(text::texts(items@)),
{
    serde_json::to_string(items).unwrap_or_else(|_| "[]".to_string())
}

/// How a JSON value is written: the name for the result of `show_json`.
pub uninterp spec fn json_text_of(j: Json) -> Seq<char>;

/// A value of `serde_json`, variant by variant. Nothing is claimed of it here: see
/// `show_json`.
#[verifier::external_body]
fn restored(j: &Json) -> (r: serde_json::Value) {
    match j {
        Json::Null => serde_json::Value::Null,
        Json::Bool(b) => serde_json::Value::Bool(*b),
        Json::Unsigned(u) => serde_json::Value::from(*u),
        Json::Negative(i) => serde_json::Value::from(*i),
        Json::Float(s) => serde_json::from_str(s).unwrap_or(serde_json::Value::Null),
        Json::Text(s) => serde_json::Value::String(s.clone()),
        Json::Array(a) => serde_json::Value::Array(a.iter().map(restored).collect()),
        Json::Object(m) => serde_json::Value::Object(
            m.iter().map(|kv| (kv.0.clone(), restored(&kv.1))).collect()),
    }
}

/// `to_string` of `serde_json::Value`: the value in JSON, without white space between its
/// parts. The result depends on the value alone; how it is written is not stated.
#[verifier::external_body]
pub(crate) fn show_json(j: &Json) -> (r: String)
    ensures
        r@ == json_text_of(*j),
{
    restored(j).to_string()
}

// ---------------------------------------------------------------------------
// Looking inside
// ---------------------------------------------------------------------------
/// The value under a name; the last where the name occurs more than once.
pub open spec fn member(entries: Seq<(String, Json)>, name: Seq<char>) -> Option<Json>
    decreases entries.len(),
{
    if entries.len() == 0 {
        None
    } else if entries.last().0@ == name {
        Some(entries.last().1)
    } else {
        member(entries.drop_last(), name)
    }
}

/// The value under a name of an object; `None` of anything else.
pub open spec fn get(j: Json, name: Seq<char>) -> Option<Json> {
    match j {
        Json::Object(entries) => member(entries@, name),
        _ => None,
    }
}

/// The value under a name; null where there is none.
pub open spec fn at(j: Json, name: Seq<char>) -> Json {
    match get(j, name) {
        Some(v) => v,
        None => Json::Null,
    }
}

/// The text that a value is.
pub open spec fn text_of(j: Json) -> Option<Seq<char>> {
    match j {
        Json::Text(s) => Some(s@),
        _ => None,
    }
}

/// The text that a value is; empty where it is none.
pub open spec fn text_or_empty(j: Json) -> Seq<char> {
    match j {
        Json::Text(s) => s@,
        _ => Seq::empty(),
    }
}

/// The integer that a value is, where it fits in `u64`.
pub open spec fn u64_of(j: Json) -> Option<u64> {
    match j {
        Json::Unsigned(n) => Some(n),
        _ => None,
    }
}

/// The integer that a value is, where it fits in `i64`.
pub open spec fn i64_of(j: Json) -> Option<i64> {
    match j {
        Json::Unsigned(n) => if n <= i64::MAX {
            Some(n as i64)
        } else {
            None
        },
        Json::Negative(n) => Some(n),
        _ => None,
    }
}

/// The items of an array.
pub open spec fn items_of(j: Json) -> Option<Seq<Json>> {
    match j {
        Json::Array(v) => Some(v@),
        _ => None,
    }
}

/// How a number is shown.
pub open spec fn number_text(j: Json) -> Option<Seq<char>> {
    match j {
        Json::Unsigned(n) => Some(numbers::decimal_of(n as nat)),
        Json::Negative(n) => Some(numbers::signed_decimal_of(n as int)),
        Json::Float(s) => Some(s@),
        _ => None,
    }
}

impl Json {
    /// The JSON value that a text stands for.
    pub fn parse(s: &str) -> (r: Option<Json>)
        ensures
            r == json_of(s@),
    {
        read_json(s)
    }

    /// The value under a name of an object.
    pub fn get(&self, name: &str) -> (r: Option<&Json>)
        ensures
            match r {
                Some(v) => get(*self, name@) == Some(*v),
                None => get(*self, name@) is None,
            },
    {
        match self {
            Json::Object(entries) => {
                let mut i: usize = entries.len();
                assert(entries@.take(i as int) =~= entries@);
                while i > 0
                    invariant
                        i <= entries@.len(),
                        member(entries@.take(i as int), name@) == member(entries@, name@),
                        *self == Json::Object(*entries),
                    decreases i,
                {
                    i -= 1;
                    let ghost t = entries@.take(i + 1);
                    assert(t.last() == entries@[i as int]);
                    assert(t.drop_last() =~= entries@.take(i as int));
                    if same(entries[i].0.as_str(), name) {
                        return Some(&entries[i].1);
                    }
                }
                None
            },
            _ => None,
        }
    }

    /// The text that a value is.
    pub fn as_str(&self) -> (r: Option<&str>)
        ensures
            match r {
                Some(s) => text_of(*self) == Some(s@),
                None => text_of(*self) is None,
            },
    {
        match self {
            Json::Text(s) => Some(s.as_str()),
            _ => None,
        }
    }

    /// The integer that a value is, where it fits in `u64`.
    pub fn as_u64(&self) -> (r: Option<u64>)
        ensures
            r == u64_of(*self),
    {
        match self {
            Json::Unsigned(n) => Some(*n),
            _ => None,
        }
    }

    /// The integer that a value is, where it fits in `i64`.
    pub fn as_i64(&self) -> (r: Option<i64>)
        ensures
            r == i64_of(*self),
    {
        match self {
            Json::Unsigned(n) => if *n <= i64::MAX as u64 {
                Some(*n as i64)
            } else {
                None
            },
            Json::Negative(n) => Some(*n),
            _ => None,
        }
    }

    /// The items of an array.
    pub fn as_array(&self) -> (r: Option<&Vec<Json>>)
        ensures
            match r {
                Some(v) => items_of(*self) == Some(v@),
                None => items_of(*self) is None,
            },
    {
        match self {
            Json::Array(v) => Some(v),
            _ => None,
        }
    }

    /// Whether a value is null.
    pub fn is_null(&self) -> (r: bool)
        ensures
            r == (*self == Json::Null),
    {
        match self {
            Json::Null => true,
            _ => false,
        }
    }

    /// How a number is shown.
    pub fn number(&self) -> (r: Option<String>)
        ensures
            text::opt_text(r) == number_text(*self),
    {
        match self {
            Json::Unsigned(n) => Some(decimal(*n)),
            Json::Negative(n) => Some(signed_decimal(*n)),
            Json::Float(s) => Some(s.clone()),
            _ => None,
        }
    }
}

/// The text under a name; empty where there is none.
pub fn text_at(j: &Json, name: &str) -> (r: String)
    ensures
        r@ == text_or_empty(at(*j, name@)),
{
    match j.get(name) {
        Some(v) => match v.as_str() {
            Some(s) => s.to_owned(),
            None => String::new(),
        },
        None => String::new(),
    }
}

/// The integer under a name, where it fits in `i64`.
pub fn i64_at(j: &Json, name: &str) -> (r: Option<i64>)
    ensures
        r == i64_of(at(*j, name@)),
{
    match j.get(name) {
        Some(v) => v.as_i64(),
        None => None,
    }
}

/// The items of the array under a name.
pub fn array_at<'a>(j: &'a Json, name: &str) -> (r: Option<&'a Vec<Json>>)
    ensures
        match r {
            Some(v) => items_of(at(*j, name@)) == Some(v@),
            None => items_of(at(*j, name@)) is None,
        },
{
    match j.get(name) {
        Some(v) => v.as_array(),
        None => None,
    }
}

/// The items of the array under a name of the value under another.
pub fn array_at2<'a>(j: &'a Json, outer: &str, inner: &str) -> (r: Option<&'a Vec<Json>>)
    ensures
        match r {
            Some(v) => items_of(at(at(*j, outer@), inner@)) == Some(v@),
            None => items_of(at(at(*j, outer@), inner@)) is None,
        },
{
    match j.get(outer) {
        Some(v) => array_at(v, inner),
        None => None,
    }
}

/// The items of the array three names deep.
pub fn array_at3<'a>(j: &'a Json, outer: &str, middle: &str, inner: &str) -> (r: Option<
    &'a Vec<Json>,
>)
    ensures
        match r {
            Some(v) => items_of(at(at(at(*j, outer@), middle@), inner@)) == Some(v@),
            None => items_of(at(at(at(*j, outer@), middle@), inner@)) is None,
        },
{
    match j.get(outer) {
        Some(v) => array_at2(v, middle, inner),
        None => None,
    }
}

/// A member of an object is the last one under its name.
pub proof fn law_last_member_counts(
    entries: Seq<(String, Json)>,
    e: (String, Json),
    name: Seq<char>,
)
    ensures
        member(seq![], name) is None,
        e.0@ == name ==> member(entries.push(e), name) == Some(e.1),
        e.0@ != name ==> member(entries.push(e), name) == member(entries, name),
        !(Json::Null is Object) && get(Json::Null, name) is None && at(Json::Null, name)
            == Json::Null,
{
    assert(entries.push(e).drop_last() =~= entries);
}

} // verus!
