//! A store of values keyed by chunk coordinate.
//!
//! Values live in a dense vector; a hash index maps each coordinate to the
//! slot of its value. Walking the store follows the vector, so the order of
//! the coordinates is determined by the operations applied, not by hashing.

use vstd::prelude::*;
use crate::math::IVec3;
use crate::slot_index::Key;
use crate::slot_index::SlotIndex;
use crate::slot_index::slots_of;
use crate::slot_index::slot_index_new;
use crate::slot_index::slot_index_get;
use crate::slot_index::slot_index_insert;
use crate::slot_index::slot_index_remove;

verus! {

/// The index key of a coordinate.
pub open spec fn key_of(coord: IVec3) -> Key {
    (coord.x, coord.y, coord.z)
}

fn key(coord: IVec3) -> (k: Key)
    ensures
        k == key_of(coord),
{
    (coord.x, coord.y, coord.z)
}

/// The sequence left when the element at `i` is replaced by the last element
/// and the last position is dropped.
pub open spec fn swap_removed<A>(s: Seq<A>, i: int) -> Seq<A> {
    s.update(i, s.last()).drop_last()
}

/// The sequence left when each of `names` that the sequence holds at that
/// point is removed in turn, the last element taking its place.
pub open spec fn removed_all(locals: Seq<IVec3>, names: Seq<IVec3>) -> Seq<IVec3>
    decreases names.len(),
{
    if names.len() == 0 {
        locals
    } else {
        let rest = removed_all(locals, names.drop_last());
        if rest.contains(names.last()) {
            swap_removed(rest, rest.index_of(names.last()))
        } else {
            rest
        }
    }
}

/// The index and the two vectors it describes.
struct Slots<T> {
    index: SlotIndex,
    coords: Vec<IVec3>,
    items: Vec<T>,
}

impl<T> Slots<T> {
    /// The index maps each stored coordinate to its position, and nothing
    /// else.
    spec fn wf(self) -> bool {
        let slots = slots_of(self.index);
        &&& self.coords@.len() == self.items@.len()
        &&& forall|i: int|
            0 <= i < self.coords@.len() ==> slots.contains_key(key_of(#[trigger] self.coords@[i]))
                && slots[key_of(self.coords@[i])] == i
        &&& forall|k: Key| #[trigger]
            slots.contains_key(k) ==> slots[k] < self.coords@.len() && key_of(
                self.coords@[slots[k] as int],
            ) == k
    }

    spec fn map(self) -> Map<IVec3, T> {
        Map::new(
            |c: IVec3| slots_of(self.index).contains_key(key_of(c)),
            |c: IVec3| self.items@[slots_of(self.index)[key_of(c)] as int],
        )
    }

    fn new() -> (slots: Slots<T>)
        ensures
            slots.wf(),
            slots.map() == Map::<IVec3, T>::empty(),
            slots.coords@ == Seq::<IVec3>::empty(),
    {
        let slots = Slots { index: slot_index_new(), coords: Vec::new(), items: Vec::new() };
        assert(slots.map() =~= Map::<IVec3, T>::empty());
        slots
    }

    fn try_insert(&mut self, coord: IVec3, item: T) -> (refused: Result<(), T>)
        requires
            old(self).wf(),
        ensures
            final(self).wf(),
            refused.is_err() == old(self).map().contains_key(coord),
            refused.is_err() ==> refused == Err::<(), T>(item) && *final(self) == *old(self),
            refused.is_ok() ==> final(self).map() == old(self).map().insert(coord, item),
            refused.is_ok() ==> final(self).coords@ == old(self).coords@.push(coord),
            refused.is_ok() ==> final(self).items@ == old(self).items@.push(item),
    {
        if slot_index_get(&self.index, key(coord)).is_some() {
            return Err(item);
        }
        let slot = self.coords.len();
        slot_index_insert(&mut self.index, key(coord), slot);
        self.coords.push(coord);
        self.items.push(item);
        assert(self.map() =~= old(self).map().insert(coord, item));
        Ok(())
    }

    fn remove(&mut self, coord: IVec3) -> (removed: Option<T>)
        requires
            old(self).wf(),
        ensures
            final(self).wf(),
            removed.is_some() == old(self).map().contains_key(coord),
            removed.is_none() ==> *final(self) == *old(self),
            removed.is_some() ==> removed == Some(old(self).map()[coord]),
            removed.is_some() ==> final(self).map() == old(self).map().remove(coord),
            removed.is_some() ==> final(self).coords@ == swap_removed(
                old(self).coords@,
                old(self).coords@.index_of(coord),
            ),
            removed.is_some() ==> final(self).items@ == swap_removed(
                old(self).items@,
                old(self).coords@.index_of(coord),
            ),
    {
        let slot = match slot_index_get(&self.index, key(coord)) {
            Some(slot) => slot,
            None => {
                return None;
            },
        };
        slot_index_remove(&mut self.index, key(coord));
        assert(old(self).coords@[slot as int] == coord);
        assert(old(self).coords@.index_of(coord) == slot) by {
            let i = old(self).coords@.index_of(coord);
            assert(slots_of(old(self).index)[key_of(old(self).coords@[i])] == i);
        }
        let last = self.coords.len() - 1;
        let moved = self.coords[last];
        self.coords.swap_remove(slot);
        let item = self.items.swap_remove(slot);
        if slot != last {
            slot_index_insert(&mut self.index, key(moved), slot);
        }
        proof {
            let before = slots_of(old(self).index);
            assert(before[key_of(moved)] == last);
            assert forall|i: int| 0 <= i < self.coords@.len() implies slots_of(
                self.index,
            ).contains_key(key_of(#[trigger] self.coords@[i])) && slots_of(self.index)[key_of(
                self.coords@[i],
            )] == i by {
                if i == slot {
                } else {
                    assert(self.coords@[i] == old(self).coords@[i]);
                    assert(before[key_of(old(self).coords@[i])] == i);
                }
            }
            assert forall|k: Key| #[trigger] slots_of(self.index).contains_key(k) implies slots_of(
                self.index,
            )[k] < self.coords@.len() && key_of(self.coords@[slots_of(self.index)[k] as int])
                == k by {
                if slot != last && k == key_of(moved) {
                } else {
                    assert(before.contains_key(k));
                    assert(before[k] != slot);
                    if before[k] == last {
                        assert(key_of(old(self).coords@[last as int]) == k);
                    }
                }
            }
            assert(self.map() =~= old(self).map().remove(coord)) by {
                assert forall|c: IVec3| #[trigger]
                    old(self).map().remove(coord).contains_key(c) implies self.map().contains_key(c)
                    && self.map()[c] == old(self).map()[c] by {
                    let k = key_of(c);
                    assert(before.contains_key(k));
                    assert(key_of(old(self).coords@[before[k] as int]) == k);
                }
            }
        }
        Some(item)
    }
}

/// A map from chunk coordinates to values of type `T`.
pub struct CoordMap<T> {
    slots: Slots<T>,
}

impl<T> View for CoordMap<T> {
    type V = Map<IVec3, T>;

    /// The value stored under each coordinate.
    closed spec fn view(&self) -> Map<IVec3, T> {
        self.slots.map()
    }
}

impl<T> CoordMap<T> {
    #[verifier::type_invariant]
    spec fn well_formed(self) -> bool {
        self.slots.wf()
    }

    /// The stored coordinates, in storage order.
    pub closed spec fn coords(&self) -> Seq<IVec3> {
        self.slots.coords@
    }

    /// The stored values, in storage order.
    pub closed spec fn items(&self) -> Seq<T> {
        self.slots.items@
    }

    /// The storage order lists the coordinates of the map once each, with the
    /// value of each coordinate at the same position.
    pub open spec fn ordered(&self) -> bool {
        &&& self.coords().len() == self.items().len()
        &&& self.coords().no_duplicates()
        &&& forall|c: IVec3| self@.contains_key(c) <==> self.coords().contains(c)
        &&& forall|i: int|
            0 <= i < self.coords().len() ==> self@.contains_key(#[trigger] self.coords()[i])
                && self@[self.coords()[i]] == self.items()[i]
    }

    proof fn lemma_ordered(self)
        requires
            self.slots.wf(),
        ensures
            self.ordered(),
    {
        let slots = slots_of(self.slots.index);
        let coords = self.slots.coords@;
        assert forall|c: IVec3| self@.contains_key(c) implies self.coords().contains(c) by {
            let k = key_of(c);
            assert(slots.contains_key(k));
            let i = slots[k] as int;
            assert(key_of(coords[i]) == k);
            assert(coords[i] == c);
        }
        assert forall|c: IVec3| self.coords().contains(c) implies self@.contains_key(c) by {
            let i = choose|i: int| 0 <= i < coords.len() && coords[i] == c;
            assert(slots.contains_key(key_of(coords[i])));
        }
        assert forall|i: int, j: int|
            0 <= i < coords.len() && 0 <= j < coords.len() && i != j implies coords[i]
            != coords[j] by {
            assert(slots[key_of(coords[i])] == i);
            assert(slots[key_of(coords[j])] == j);
        }
        assert forall|i: int| 0 <= i < coords.len() implies self@.contains_key(
            #[trigger] self.coords()[i],
        ) && self@[self.coords()[i]] == self.items()[i] by {
            assert(slots[key_of(coords[i])] == i);
        }
    }

    /// An empty map.
    pub fn new() -> (map: CoordMap<T>)
        ensures
            map@ == Map::<IVec3, T>::empty(),
            map.coords() == Seq::<IVec3>::empty(),
            map.ordered(),
    {
        let map = CoordMap { slots: Slots::new() };
        proof {
            map.lemma_ordered();
        }
        map
    }

    /// The number of stored values.
    pub fn len(&self) -> (n: usize)
        ensures
            n == self.coords().len(),
            n == self@.dom().len(),
            self@.dom().finite(),
            self.ordered(),
    {
        proof {
            use_type_invariant(self);
            self.lemma_ordered();
            self.coords().unique_seq_to_set();
            assert(self.coords().to_set() =~= self@.dom());
        }
        self.slots.coords.len()
    }

    /// The stored coordinates, in storage order.
    pub fn locals(&self) -> (coords: &Vec<IVec3>)
        ensures
            coords@ == self.coords(),
            self.ordered(),
    {
        proof {
            use_type_invariant(self);
            self.lemma_ordered();
        }
        &self.slots.coords
    }

    /// Whether a value is stored under `coord`.
    pub fn contains(&self, coord: IVec3) -> (present: bool)
        ensures
            present == self@.contains_key(coord),
    {
        slot_index_get(&self.slots.index, key(coord)).is_some()
    }

    /// The value stored under `coord`, if any.
    pub fn get(&self, coord: IVec3) -> (item: Option<&T>)
        ensures
            item == (if self@.contains_key(coord) {
                Some(&self@[coord])
            } else {
                None
            }),
    {
        proof {
            use_type_invariant(self);
        }
        match slot_index_get(&self.slots.index, key(coord)) {
            Some(slot) => Some(&self.slots.items[slot]),
            None => None,
        }
    }

    /// The value stored under `coord`, if any, for changing in place. The map
    /// afterwards holds whatever the caller leaves there; nothing else
    /// changes.
    pub fn get_mut(&mut self, coord: IVec3) -> (item: Option<&mut T>)
        ensures
            item.is_some() == old(self)@.contains_key(coord),
            item.is_none() ==> final(self)@ == old(self)@,
            item.is_some() ==> *item.unwrap() == old(self)@[coord],
            item.is_some() ==> final(self)@ == old(self)@.insert(coord, *final(item.unwrap())),
            final(self).coords() == old(self).coords(),
    {
        proof {
            use_type_invariant(&*self);
        }
        match slot_index_get(&self.slots.index, key(coord)) {
            Some(slot) => {
                Some(&mut self.slots.items[slot])
            },
            None => None,
        }
    }

    /// Stores `item` under `coord` when the coordinate is free, at the end of
    /// the storage order. When the coordinate is taken the map does not
    /// change and `item` comes back.
    pub fn try_insert(&mut self, coord: IVec3, item: T) -> (refused: Result<(), T>)
        ensures
            refused.is_err() == old(self)@.contains_key(coord),
            refused.is_err() ==> refused == Err::<(), T>(item) && final(self)@ == old(self)@,
            refused.is_err() ==> final(self).coords() == old(self).coords(),
            refused.is_ok() ==> final(self)@ == old(self)@.insert(coord, item),
            refused.is_ok() ==> final(self).coords() == old(self).coords().push(coord),
            final(self).ordered(),
    {
        proof {
            use_type_invariant(&*self);
        }
        // The parts are changed outside the map, which holds an empty store
        // meanwhile: it stays well-formed at every point that can unwind.
        let mut slots = Slots::new();
        core::mem::swap(&mut self.slots, &mut slots);
        let refused = slots.try_insert(coord, item);
        core::mem::swap(&mut self.slots, &mut slots);
        proof {
            self.lemma_ordered();
        }
        refused
    }

    /// Removes the value stored under `coord` and returns it; `None`, and no
    /// change, when there is none. The last coordinate of the storage order
    /// takes the place of the one removed.
    pub fn remove(&mut self, coord: IVec3) -> (removed: Option<T>)
        ensures
            removed == (if old(self)@.contains_key(coord) {
                Some(old(self)@[coord])
            } else {
                None
            }),
            final(self)@ == old(self)@.remove(coord),
            removed.is_some() == old(self).coords().contains(coord),
            removed.is_none() ==> final(self).coords() == old(self).coords(),
            removed.is_some() ==> final(self).coords() == swap_removed(
                old(self).coords(),
                old(self).coords().index_of(coord),
            ),
            final(self).ordered(),
    {
        proof {
            use_type_invariant(&*self);
            self.lemma_ordered();
        }
        let mut slots = Slots::new();
        core::mem::swap(&mut self.slots, &mut slots);
        let removed = slots.remove(coord);
        core::mem::swap(&mut self.slots, &mut slots);
        proof {
            self.lemma_ordered();
            if removed.is_none() {
                assert(self@ =~= old(self)@.remove(coord));
            }
        }
        removed
    }
}

} // verus!
