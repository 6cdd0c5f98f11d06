//! The hash index from chunk coordinates to storage slots.
//!
//! The index is the hash map of the `bevy` engine. Verus does not look inside
//! it: what the map holds is named by [`slots_of`], and each operation used
//! here is stated over that name without proof, as the map's documentation
//! describes it.

use vstd::prelude::*;
use bevy::platform::collections::HashMap;
use bevy::platform::hash::FixedHasher;

verus! {

/// `bevy::platform::collections::HashMap`, taken as an opaque type.
#[verifier::external_type_specification]
#[verifier::external_body]
#[verifier::reject_recursive_types(K)]
#[verifier::reject_recursive_types(V)]
#[verifier::reject_recursive_types(S)]
pub struct ExHashMap<K, V, S>(HashMap<K, V, S>);

/// `bevy::platform::hash::FixedHasher`, the map's default hasher, taken as an
/// opaque type.
#[verifier::external_type_specification]
#[verifier::external_body]
pub struct ExFixedHasher(FixedHasher);

/// A chunk coordinate as the key of the index.
pub type Key = (i32, i32, i32);

/// The index from coordinates to slots.
pub type SlotIndex = HashMap<Key, usize, FixedHasher>;

/// The key-to-slot pairs that an index holds. Keys are tuples of integers,
/// which the map compares and hashes component by component.
pub uninterp spec fn slots_of(index: SlotIndex) -> Map<Key, usize>;

/// `bevy::platform::collections::HashMap::new`: assumed to return a map
/// with no entries.
#[verifier::external_body]
pub(crate) fn slot_index_new() -> (index: SlotIndex)
    ensures
        slots_of(index) =~= Map::empty(),
{
    HashMap::new()
}

/// `bevy::platform::collections::HashMap::get`: assumed to return the slot
/// stored under `key`, or `None` when the map has no entry for `key`. The
/// slot is copied out of the reference that the map hands back.
#[verifier::external_body]
pub(crate) fn slot_index_get(index: &SlotIndex, key: Key) -> (slot: Option<usize>)
    ensures
        slot == (if slots_of(*index).contains_key(key) {
            Some(slots_of(*index)[key])
        } else {
            None
        }),
{
    index.get(&key).copied()
}

/// `bevy::platform::collections::HashMap::insert`: assumed to store `slot`
/// under `key`, replacing an earlier entry for `key` and leaving all other
/// entries alone, and to return the slot that was replaced, if any.
#[verifier::external_body]
pub(crate) fn slot_index_insert(index: &mut SlotIndex, key: Key, slot: usize) -> (previous: Option<
    usize,
>)
    ensures
        slots_of(*final(index)) == slots_of(*old(index)).insert(key, slot),
        previous == (if slots_of(*old(index)).contains_key(key) {
            Some(slots_of(*old(index))[key])
        } else {
            None
        }),
{
    index.insert(key, slot)
}

/// `bevy::platform::collections::HashMap::remove`: assumed to delete the
/// entry for `key`, leaving all other entries alone, and to return the slot
/// that was stored, if any.
#[verifier::external_body]
pub(crate) fn slot_index_remove(index: &mut SlotIndex, key: Key) -> (removed: Option<usize>)
    ensures
        slots_of(*final(index)) == slots_of(*old(index)).remove(key),
        removed == (if slots_of(*old(index)).contains_key(key) {
            Some(slots_of(*old(index))[key])
        } else {
            None
        }),
{
    index.remove(&key)
}

} // verus!
