//! The two ends of an ordered map.
//!
//! The books keep their levels in `BTreeMap`s keyed by tick. Finding the best
//! level means asking the map for its least or its greatest key; the contracts
//! of those two library calls are stated here and taken on trust.

use std::collections::BTreeMap;
use vstd::prelude::*;

verus! {

/// Whether `key` is the least key of `map`.
pub open spec fn is_least_key<V>(map: Map<u64, V>, key: u64) -> bool {
    &&& map.contains_key(key)
    &&& forall|other: u64| map.contains_key(other) ==> key <= other
}

/// Whether `key` is the greatest key of `map`.
pub open spec fn is_greatest_key<V>(map: Map<u64, V>, key: u64) -> bool {
    &&& map.contains_key(key)
    &&& forall|other: u64| map.contains_key(other) ==> other <= key
}

/// `BTreeMap::first_key_value`, keeping the key only: the least key of the
/// map, or `None` when the map holds no key at all. Not verified: this is what
/// the standard library documents of the call.
#[verifier::external_body]
pub(crate) fn least_key<V>(map: &BTreeMap<u64, V>) -> (least: Option<u64>)
    ensures
        match least {
            Some(key) => is_least_key(map@, key),
            None => forall|other: u64| !map@.contains_key(other),
        },
{
    match map.first_key_value() {
        Some((key, _)) => Some(*key),
        None => None,
    }
}

/// `BTreeMap::last_key_value`, keeping the key only: the greatest key of the
/// map, or `None` when the map holds no key at all. Not verified: this is what
/// the standard library documents of the call.
#[verifier::external_body]
pub(crate) fn greatest_key<V>(map: &BTreeMap<u64, V>) -> (greatest: Option<u64>)
    ensures
        match greatest {
            Some(key) => is_greatest_key(map@, key),
            None => forall|other: u64| !map@.contains_key(other),
        },
{
    match map.last_key_value() {
        Some((key, _)) => Some(*key),
        None => None,
    }
}

/// A map with a key has a least key.
pub proof fn lemma_least_key_exists<V>(map: Map<u64, V>, key: u64)
    requires
        map.contains_key(key),
    ensures
        exists|least: u64| is_least_key(map, least),
    decreases key,
{
    if exists|lower: u64| map.contains_key(lower) && lower < key {
        let lower = choose|lower: u64| map.contains_key(lower) && lower < key;
        lemma_least_key_exists(map, lower);
    } else {
        assert(is_least_key(map, key));
    }
}

/// A map with a key has a greatest key.
pub proof fn lemma_greatest_key_exists<V>(map: Map<u64, V>, key: u64)
    requires
        map.contains_key(key),
    ensures
        exists|greatest: u64| is_greatest_key(map, greatest),
    decreases u64::MAX - key,
{
    if exists|higher: u64| map.contains_key(higher) && key < higher {
        let higher = choose|higher: u64| map.contains_key(higher) && key < higher;
        lemma_greatest_key_exists(map, higher);
    } else {
        assert(is_greatest_key(map, key));
    }
}

} // verus!
