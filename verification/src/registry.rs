//! Concurrent maps keyed by identifier.
use vstd::prelude::*;

use crate::share_sync::config::{ShareSubscription, SubscriptionView};
use crate::text;

verus! {

/// `dashmap::DashMap`, a concurrent hash map.
#[verifier::external_type_specification]
#[verifier::external_body]
#[verifier::reject_recursive_types(K)]
#[verifier::reject_recursive_types(V)]
#[verifier::reject_recursive_types(S)]
pub struct ExDashMap<K, V, S>(dashmap::DashMap<K, V, S>);

// ---------------------------------------------------------------------------
// Subscriptions
// ---------------------------------------------------------------------------
/// What a map of subscriptions holds.
pub uninterp spec fn subscriptions_in(
    map: dashmap::DashMap<String, ShareSubscription>,
) -> Map<Seq<char>, SubscriptionView>;

/// `DashMap::new`: an empty map.
#[verifier::external_body]
pub(crate) fn new_subscriptions() -> (r: dashmap::DashMap<String, ShareSubscription>)
    ensures
        subscriptions_in(r).dom() == Set::<Seq<char>>::empty(),
{
    dashmap::DashMap::new()
}

/// `DashMap::insert`: puts the value under the key, in place of the one that was there.
#[verifier::external_body]
pub(crate) fn put_subscription(
    map: &mut dashmap::DashMap<String, ShareSubscription>,
    id: String,
    sub: ShareSubscription,
)
    ensures
        subscriptions_in(*final(map)) == subscriptions_in(*old(map)).insert(id@, sub@),
{
    map.insert(id, sub);
}

/// `DashMap::get`: a copy of the value under the key, if there is one.
#[verifier::external_body]
pub(crate) fn get_subscription(
    map: &dashmap::DashMap<String, ShareSubscription>,
    id: &str,
) -> (r: Option<ShareSubscription>)
    ensures
        match r {
            Some(s) => subscriptions_in(*map).contains_key(id@) && s@ == subscriptions_in(
                *map,
            )[id@],
            None => !subscriptions_in(*map).contains_key(id@),
        },
{
    map.get(id).map(|kv| kv.value().clone())
}

/// `DashMap::remove`: takes the key and its value out of the map, and gives the value back.
#[verifier::external_body]
pub(crate) fn take_subscription(
    map: &mut dashmap::DashMap<String, ShareSubscription>,
    id: &str,
) -> (r: Option<ShareSubscription>)
    ensures
        subscriptions_in(*final(map)) == subscriptions_in(*old(map)).remove(id@),
        match r {
            Some(s) => subscriptions_in(*old(map)).contains_key(id@) && s@ == subscriptions_in(
                *old(map),
            )[id@],
            None => !subscriptions_in(*old(map)).contains_key(id@),
        },
{
    map.remove(id).map(|kv| kv.1)
}

/// What several subscriptions hold.
pub open spec fn subscription_views(v: Seq<ShareSubscription>) -> Seq<SubscriptionView> {
    v.map_values(|s: ShareSubscription| s@)
}

/// `keys` lists each key of the map once.
pub open spec fn is_walk<V>(keys: Seq<Seq<char>>, map: Map<Seq<char>, V>) -> bool {
    &&& keys.no_duplicates()
    &&& forall|k: Seq<char>| #[trigger] keys.contains(k) <==> map.contains_key(k)
}

/// The values under the keys.
pub open spec fn values_at<V>(keys: Seq<Seq<char>>, map: Map<Seq<char>, V>) -> Seq<V> {
    keys.map_values(|k: Seq<char>| map[k])
}

/// `list` holds the value of each key of the map once, in some order.
pub open spec fn lists_all(
    list: Seq<SubscriptionView>,
    map: Map<Seq<char>, SubscriptionView>,
) -> bool {
    exists|keys: Seq<Seq<char>>| #[trigger] is_walk(keys, map) && list == values_at(keys, map)
}

/// `DashMap::iter`: a copy of each value, once for each key. The order is left open.
#[verifier::external_body]
pub(crate) fn all_subscriptions(
    map: &dashmap::DashMap<String, ShareSubscription>,
) -> (r: Vec<ShareSubscription>)
    ensures
        lists_all(subscription_views(r@), subscriptions_in(*map)),
{
    map.iter().map(|kv| kv.value().clone()).collect()
}

// ---------------------------------------------------------------------------
// Marks
// ---------------------------------------------------------------------------
/// What a map of marks holds.
pub uninterp spec fn marks_in(map: dashmap::DashMap<String, u64>) -> Map<Seq<char>, u64>;

/// `DashMap::new`: an empty map.
#[verifier::external_body]
pub(crate) fn new_marks() -> (r: dashmap::DashMap<String, u64>)
    ensures
        marks_in(r).dom() == Set::<Seq<char>>::empty(),
{
    dashmap::DashMap::new()
}

/// `DashMap::insert`: puts the value under the key and gives back the one that was there.
#[verifier::external_body]
pub(crate) fn put_mark(map: &mut dashmap::DashMap<String, u64>, id: String, value: u64) -> (r:
    Option<u64>)
    ensures
        marks_in(*final(map)) == marks_in(*old(map)).insert(id@, value),
        r == if marks_in(*old(map)).contains_key(id@) {
            Some(marks_in(*old(map))[id@])
        } else {
            None
        },
{
    map.insert(id, value)
}

/// `DashMap::contains_key`: whether there is a value under the key.
#[verifier::external_body]
pub(crate) fn has_mark(map: &dashmap::DashMap<String, u64>, id: &str) -> (r: bool)
    ensures
        r == marks_in(*map).contains_key(id@),
{
    map.contains_key(id)
}

/// `DashMap::get`: a copy of the value under the key, if there is one.
#[verifier::external_body]
pub(crate) fn mark_of(map: &dashmap::DashMap<String, u64>, id: &str) -> (r: Option<u64>)
    ensures
        r == if marks_in(*map).contains_key(id@) {
            Some(marks_in(*map)[id@])
        } else {
            None
        },
{
    map.get(id).map(|kv| *kv.value())
}

/// `DashMap::remove`: takes the key and its value out of the map, and gives the value back.
#[verifier::external_body]
pub(crate) fn take_mark(map: &mut dashmap::DashMap<String, u64>, id: &str) -> (r: Option<u64>)
    ensures
        marks_in(*final(map)) == marks_in(*old(map)).remove(id@),
        r == if marks_in(*old(map)).contains_key(id@) {
            Some(marks_in(*old(map))[id@])
        } else {
            None
        },
{
    map.remove(id).map(|kv| kv.1)
}

/// `DashMap::iter`: a copy of each key. The order is left open.
#[verifier::external_body]
pub(crate) fn marked_ids(map: &dashmap::DashMap<String, u64>) -> (r: Vec<String>)
    ensures
        is_walk(text::texts(r@), marks_in(*map)),
{
    map.iter().map(|kv| kv.key().clone()).collect()
}

/// A list of all subscriptions holds those that are kept, each once, and nothing else.
pub proof fn law_all_are_listed_once(
    list: Seq<SubscriptionView>,
    map: Map<Seq<char>, SubscriptionView>,
    k: Seq<char>,
    i: int,
)
    requires
        lists_all(list, map),
        map.dom().finite(),
    ensures
        list.len() == map.dom().len(),
        map.contains_key(k) ==> list.contains(map[k]),
        0 <= i < list.len() ==> exists|key: Seq<char>| #[trigger]
            map.contains_key(key) && map[key] == list[i],
{
    let keys = choose|keys: Seq<Seq<char>>| #[trigger]
        is_walk(keys, map) && list == values_at(keys, map);
    assert(keys.to_set() =~= map.dom()) by {
        assert forall|x: Seq<char>| keys.to_set().contains(x) <==> map.dom().contains(x) by {
            assert(keys.contains(x) <==> map.contains_key(x));
        }
    }
    keys.unique_seq_to_set();
    if map.contains_key(k) {
        assert(keys.contains(k));
        let j = choose|j: int| 0 <= j < keys.len() && keys[j] == k;
        assert(list[j] == map[k]);
    }
    if 0 <= i < list.len() {
        assert(keys.contains(keys[i]));
        assert(map.contains_key(keys[i]) && map[keys[i]] == list[i]);
    }
}

} // verus!
