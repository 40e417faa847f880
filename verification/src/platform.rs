//! The hash collections of Bevy's platform layer, as this library uses them.
use crate::ids::{GraphContextId, StateKey, SubContextId};
use bevy::platform::collections::{HashMap, HashSet};
use bevy::platform::hash::FixedHasher;
use vstd::prelude::*;

verus! {

/// Times by state key.
pub type TimeMap = HashMap<StateKey, u32>;

/// A set of state keys.
pub type KeySet = HashSet<StateKey>;

/// Child contexts by where they hang.
pub type HierarchyMap = HashMap<SubContextId, GraphContextId>;

/// Sort keys by pin name.
pub type PinKeyMap = HashMap<String, i32>;

#[verifier::external_type_specification]
#[verifier::external_body]
pub struct ExFixedHasher(FixedHasher);

#[verifier::external_type_specification]
#[verifier::external_body]
#[verifier::reject_recursive_types(K)]
#[verifier::reject_recursive_types(V)]
#[verifier::reject_recursive_types(S)]
pub struct ExPlatformHashMap<K, V, S>(HashMap<K, V, S>);

#[verifier::external_type_specification]
#[verifier::external_body]
#[verifier::reject_recursive_types(T)]
#[verifier::reject_recursive_types(S)]
pub struct ExPlatformHashSet<T, S>(HashSet<T, S>);

/// What a map from state keys to times holds.
pub uninterp spec fn time_entries(m: TimeMap) -> Map<StateKey, u32>;

/// What a set of state keys holds.
pub uninterp spec fn key_set_entries(s: KeySet) -> Set<StateKey>;

/// What a map from sub-context positions to graph contexts holds.
pub uninterp spec fn hierarchy_entries(m: HierarchyMap) -> Map<
    SubContextId,
    GraphContextId,
>;

/// What a map from pin names to sort keys holds, by the pin names' characters.
pub uninterp spec fn pin_key_entries(m: PinKeyMap) -> Map<Seq<char>, i32>;

/// `HashMap::default`: a new map holds nothing.
#[verifier::external_body]
pub(crate) fn time_map_new() -> (r: TimeMap)
    ensures
        time_entries(r).dom() == Set::<StateKey>::empty(),
{
    HashMap::default()
}

/// `HashMap::get`: the time stored under `k`, if any.
#[verifier::external_body]
pub(crate) fn time_map_get(m: &TimeMap, k: &StateKey) -> (r: Option<u32>)
    ensures
        r == (if time_entries(*m).contains_key(*k) {
            Some(time_entries(*m)[*k])
        } else {
            None
        }),
{
    m.get(k).copied()
}

/// `HashMap::insert`: afterwards `k` maps to `v` and every other key to what it did.
#[verifier::external_body]
pub(crate) fn time_map_insert(m: &mut TimeMap, k: StateKey, v: u32)
    ensures
        time_entries(*final(m)) == time_entries(*old(m)).insert(k, v),
{
    m.insert(k, v);
}

/// `HashMap::clear`: afterwards the map holds nothing.
#[verifier::external_body]
pub(crate) fn time_map_clear(m: &mut TimeMap)
    ensures
        time_entries(*final(m)).dom() == Set::<StateKey>::empty(),
{
    m.clear();
}

/// `HashSet::default`: a new set holds nothing.
#[verifier::external_body]
pub(crate) fn key_set_new() -> (r: KeySet)
    ensures
        key_set_entries(r) == Set::<StateKey>::empty(),
{
    HashSet::default()
}

/// `HashSet::contains`: whether `k` is in the set.
#[verifier::external_body]
pub(crate) fn key_set_contains(s: &KeySet, k: &StateKey) -> (b: bool)
    ensures
        b == key_set_entries(*s).contains(*k),
{
    s.contains(k)
}

/// `HashSet::insert`: afterwards the set holds `k` besides what it held.
#[verifier::external_body]
pub(crate) fn key_set_insert(s: &mut KeySet, k: StateKey)
    ensures
        key_set_entries(*final(s)) == key_set_entries(*old(s)).insert(k),
{
    s.insert(k);
}

/// `HashMap::default`: a new map holds nothing.
#[verifier::external_body]
pub(crate) fn hierarchy_new() -> (r: HierarchyMap)
    ensures
        hierarchy_entries(r).dom() == Set::<SubContextId>::empty(),
{
    HashMap::default()
}

/// `HashMap::get`: the context stored under `k`, if any.
#[verifier::external_body]
pub(crate) fn hierarchy_get(m: &HierarchyMap, k: &SubContextId) -> (r:
    Option<GraphContextId>)
    ensures
        r == (if hierarchy_entries(*m).contains_key(*k) {
            Some(hierarchy_entries(*m)[*k])
        } else {
            None
        }),
{
    m.get(k).copied()
}

/// `HashMap::insert`: afterwards `k` maps to `v` and every other key to what it did.
#[verifier::external_body]
pub(crate) fn hierarchy_insert(
    m: &mut HierarchyMap,
    k: SubContextId,
    v: GraphContextId,
)
    ensures
        hierarchy_entries(*final(m)) == hierarchy_entries(*old(m)).insert(k, v),
{
    m.insert(k, v);
}

/// `HashMap::iter`, each entry copied out: every entry of the map once, in the map's
/// own order.
#[verifier::external_body]
pub(crate) fn hierarchy_list(m: &HierarchyMap) -> (r: Vec<
    (SubContextId, GraphContextId),
>)
    ensures
        forall|i: int, j: int| 0 <= i < j < r@.len() ==> r@[i].0 != r@[j].0,
        forall|i: int|
            0 <= i < r@.len() ==> hierarchy_entries(*m).contains_key(#[trigger] r@[i].0)
                && hierarchy_entries(*m)[r@[i].0] == r@[i].1,
        forall|k: SubContextId|
            #[trigger] hierarchy_entries(*m).contains_key(k) ==> exists|i: int|
                0 <= i < r@.len() && r@[i].0 == k,
{
    m.iter().map(|(k, v)| (*k, *v)).collect()
}

/// `HashMap::default`: a new map holds nothing.
#[verifier::external_body]
pub(crate) fn pin_key_map_new() -> (r: PinKeyMap)
    ensures
        pin_key_entries(r).dom() == Set::<Seq<char>>::empty(),
{
    HashMap::default()
}

/// `HashMap::get`: the sort key stored under the pin named `k`, if any.
#[verifier::external_body]
pub(crate) fn pin_key_get(m: &PinKeyMap, k: &String) -> (r: Option<i32>)
    ensures
        r == (if pin_key_entries(*m).contains_key(k@) {
            Some(pin_key_entries(*m)[k@])
        } else {
            None
        }),
{
    m.get(k).copied()
}

/// `HashMap::clone`: the copy holds the same entries (keys and times are plain values).
#[verifier::external_body]
pub(crate) fn time_map_clone(m: &TimeMap) -> (r: TimeMap)
    ensures
        time_entries(r) == time_entries(*m),
{
    m.clone()
}

/// `HashSet::clone`: the copy holds the same keys.
#[verifier::external_body]
pub(crate) fn key_set_clone(s: &KeySet) -> (r: KeySet)
    ensures
        key_set_entries(r) == key_set_entries(*s),
{
    s.clone()
}

/// `HashMap::clone`: the copy holds the same entries (both sides are plain values).
#[verifier::external_body]
pub(crate) fn hierarchy_clone(m: &HierarchyMap) -> (r: HierarchyMap)
    ensures
        hierarchy_entries(r) == hierarchy_entries(*m),
{
    m.clone()
}

/// `HashMap::clone`: the copy holds the same entries (`String::clone` copies the
/// characters).
#[verifier::external_body]
pub(crate) fn pin_key_map_clone(m: &PinKeyMap) -> (r: PinKeyMap)
    ensures
        pin_key_entries(r) == pin_key_entries(*m),
{
    m.clone()
}

} // verus!
