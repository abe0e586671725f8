//! Trusted declarations for `intmap::IntMap`, the integer-keyed map that
//! carries per-offset values and settings across the public boundary.

use vstd::prelude::*;
use intmap::IntMap;
use crate::line::Value;
use crate::line_settings::Settings;

verus! {

/// Declares `intmap::IntMap` so it can stand in signatures and fields.
#[verifier::external_type_specification]
#[verifier::external_body]
#[verifier::reject_recursive_types(K)]
#[verifier::reject_recursive_types(V)]
pub struct ExIntMap<K, V>(IntMap<K, V>);

/// What an offset-to-value map holds.
pub uninterp spec fn value_map_of(m: IntMap<u32, Value>) -> Map<u32, Value>;

/// Relies on `IntMap::new`: the new map is empty.
#[verifier::external_body]
pub(crate) fn value_map_new() -> (m: IntMap<u32, Value>)
    ensures
        value_map_of(m) =~= Map::empty(),
{
    IntMap::new()
}

/// Relies on `IntMap::insert`: stores `v` under `k`, replacing any earlier
/// entry with that key.
#[verifier::external_body]
pub(crate) fn value_map_insert(m: &mut IntMap<u32, Value>, k: u32, v: Value)
    ensures
        value_map_of(*final(m)) == value_map_of(*old(m)).insert(k, v),
{
    m.insert(k, v);
}

/// Relies on `IntMap::iter`: yields each stored entry exactly once, in no
/// promised order.
#[verifier::external_body]
pub(crate) fn value_map_entries(m: &IntMap<u32, Value>) -> (r: Vec<(u32, Value)>)
    ensures
        forall|i: int|
            0 <= i < r@.len() ==> value_map_of(*m).contains_key(#[trigger] r@[i].0)
                && value_map_of(*m)[r@[i].0] == r@[i].1,
        forall|k: u32|
            value_map_of(*m).contains_key(k) ==> exists|i: int|
                0 <= i < r@.len() && (#[trigger] r@[i]).0 == k,
        forall|i: int, j: int| 0 <= i < j < r@.len() ==> r@[i].0 != r@[j].0,
{
    m.iter().map(|kv| (kv.0, *kv.1)).collect()
}

/// What an offset-to-settings map holds.
pub uninterp spec fn settings_map_of(m: IntMap<u32, Settings>) -> Map<u32, Settings>;

/// Relies on `IntMap::new`: the new map is empty.
#[verifier::external_body]
pub(crate) fn settings_map_new() -> (m: IntMap<u32, Settings>)
    ensures
        settings_map_of(m) =~= Map::empty(),
{
    IntMap::new()
}

/// Relies on `IntMap::insert`: stores `v` under `k`, replacing any earlier
/// entry with that key.
#[verifier::external_body]
pub(crate) fn settings_map_insert(m: &mut IntMap<u32, Settings>, k: u32, v: Settings)
    ensures
        settings_map_of(*final(m)) == settings_map_of(*old(m)).insert(k, v),
{
    m.insert(k, v);
}

} // verus!
