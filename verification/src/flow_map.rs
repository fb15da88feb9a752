//! The insertion-ordered hash map that holds the open flows.
//!
//! The map is `indexmap::IndexMap`, hashed with `ahash`. Verus does not look
//! inside it: what it holds is named by [`entries`], and each method that the
//! flow table calls is reached through a wrapper whose contract says, over
//! that name, what the method does.

use vstd::prelude::*;
use ahash::RandomState;
use indexmap::IndexMap;
use crate::flow::FlowState;

verus! {

/// Declares `ahash::RandomState`, the hasher of the map, as a type that is
/// carried through and never looked into.
#[verifier::external_type_specification]
#[verifier::external_body]
pub struct ExRandomState(RandomState);

/// Declares `indexmap::IndexMap` as a type that is carried through and never
/// looked into.
#[verifier::external_type_specification]
#[verifier::external_body]
#[verifier::reject_recursive_types(K)]
#[verifier::reject_recursive_types(V)]
#[verifier::reject_recursive_types(S)]
pub struct ExIndexMap<K, V, S>(IndexMap<K, V, S>);

/// The map of open flows, from packed flow key to flow state.
pub type FlowMap = IndexMap<u64, FlowState, RandomState>;

/// The key-value pairs that a map of open flows holds.
pub uninterp spec fn entries(map: FlowMap) -> Map<u64, FlowState>;

/// Calls `ahash::RandomState::new`. Nothing is claimed of the hasher.
#[verifier::external_body]
pub(crate) fn new_hasher() -> RandomState {
    RandomState::new()
}

/// Calls `IndexMap::with_hasher`.
///
/// Trusted: the new map holds nothing.
#[verifier::external_body]
pub(crate) fn empty_map(hasher: RandomState) -> (fresh: FlowMap)
    ensures
        (entries(fresh) == Map::<u64, FlowState>::empty()),
{
    IndexMap::with_hasher(hasher)
}

/// Calls `IndexMap::get`.
///
/// Trusted: the result is the value stored for `key`, or `None` where the
/// map holds no such key.
#[verifier::external_body]
pub(crate) fn lookup(map: &FlowMap, key: u64) -> (r: Option<FlowState>)
    ensures
        r == if entries(*map).contains_key(key) {
            Some(entries(*map)[key])
        } else {
            None::<FlowState>
        },
{
    map.get(&key).copied()
}

/// Calls `IndexMap::insert`.
///
/// Trusted: afterwards the map holds `value` for `key` and is otherwise as
/// before; the result is the value that `key` had before, if it had one.
#[verifier::external_body]
pub(crate) fn store(map: &mut FlowMap, key: u64, value: FlowState) -> (r: Option<FlowState>)
    ensures
        entries(*final(map)) == entries(*old(map)).insert(key, value),
        r == if entries(*old(map)).contains_key(key) {
            Some(entries(*old(map))[key])
        } else {
            None::<FlowState>
        },
{
    map.insert(key, value)
}

/// Calls `IndexMap::swap_remove`.
///
/// Trusted: afterwards the map no longer holds `key` and is otherwise as
/// before; the result is the value that `key` had, if it had one.
#[verifier::external_body]
pub(crate) fn discard(map: &mut FlowMap, key: u64) -> (r: Option<FlowState>)
    ensures
        entries(*final(map)) == entries(*old(map)).remove(key),
        r == if entries(*old(map)).contains_key(key) {
            Some(entries(*old(map))[key])
        } else {
            None::<FlowState>
        },
{
    map.swap_remove(&key)
}

/// Calls `IndexMap::len`.
///
/// Trusted: the result is the number of pairs that the map holds.
#[verifier::external_body]
pub(crate) fn count(map: &FlowMap) -> (r: usize)
    ensures
        r == entries(*map).dom().len(),
{
    map.len()
}

/// Calls `IndexMap::pop`.
///
/// Trusted: an empty map stays as it is and gives `None`; from any other map
/// one pair that it held is removed and returned. Which pair that is, is
/// left open here.
#[verifier::external_body]
pub(crate) fn take_one(map: &mut FlowMap) -> (r: Option<(u64, FlowState)>)
    ensures
        match r {
            None => entries(*old(map)).dom() =~= Set::<u64>::empty() && entries(*final(map))
                == entries(*old(map)),
            Some((key, value)) => entries(*old(map)).contains_key(key) && entries(*old(map))[key]
                == value && entries(*final(map)) == entries(*old(map)).remove(key),
        },
{
    map.pop()
}

} // verus!
