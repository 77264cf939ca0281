//! The mathematical model of the arena: what it holds, and what each
//! operation does to it.

use vstd::prelude::*;

verus! {

/// The mathematical content of an [`EntityList`](super::EntityList): the slots in order, `None`
/// marking an empty one, and the freed indices in the order they were freed.
#[verifier::ext_equal]
pub struct Arena<T> {
    pub slots: Seq<Option<T>>,
    pub free: Seq<int>,
}

impl<T> Arena<T> {
    /// The free queue names exactly the empty slots, each once.
    pub open spec fn wf(self) -> bool {
        &&& forall|k: int|
            0 <= k < self.free.len() ==> 0 <= (#[trigger] self.free[k]) < self.slots.len()
                && self.slots[self.free[k]] is None
        &&& self.free.no_duplicates()
        &&& forall|i: int|
            0 <= i < self.slots.len() && (#[trigger] self.slots[i]) is None
                ==> self.free.contains(i)
    }

    /// The arena with no slots.
    pub open spec fn empty() -> Self {
        Arena { slots: Seq::empty(), free: Seq::empty() }
    }

    /// What a lookup at `index` finds: the value of an occupied slot, and
    /// nothing for an empty slot or an index past the last slot.
    pub open spec fn get(self, index: int) -> Option<T> {
        if 0 <= index < self.slots.len() {
            self.slots[index]
        } else {
            None
        }
    }

    /// The index that the next insertion will return: the oldest freed index
    /// if there is one, else the index of a new slot at the end.
    pub open spec fn next_index(self) -> int {
        if self.free.len() > 0 {
            self.free[0]
        } else {
            self.slots.len() as int
        }
    }

    /// The arena after `value` is stored at `next_index()`.
    pub open spec fn insert(self, value: T) -> Self {
        if self.free.len() > 0 {
            Arena {
                slots: self.slots.update(self.free[0], Some(value)),
                free: self.free.drop_first(),
            }
        } else {
            Arena { slots: self.slots.push(Some(value)), free: self.free }
        }
    }

    /// The arena after slot `index` is emptied and the index queued for
    /// reuse behind those freed before it.
    pub open spec fn remove(self, index: int) -> Self {
        Arena { slots: self.slots.update(index, None), free: self.free.push(index) }
    }

    /// The values of the occupied slots, in slot order.
    pub open spec fn values(self) -> Seq<T> {
        occupied(self.slots)
    }
}

/// The values that `slots` holds, in order, the empty slots left out.
pub open spec fn occupied<T>(slots: Seq<Option<T>>) -> Seq<T> {
    slots.filter(|slot: Option<T>| slot is Some).map_values(|slot: Option<T>| slot->0)
}

/// The number of occupied slots before `index`: the place in `occupied(slots)`
/// of the value of an occupied slot `index`.
pub open spec fn rank<T>(slots: Seq<Option<T>>, index: int) -> int {
    occupied(slots.take(index)).len() as int
}

/// How `occupied` grows when one more slot is taken into account.
pub proof fn lemma_occupied_push<T>(slots: Seq<Option<T>>, slot: Option<T>)
    ensures
        occupied(slots.push(slot)) == match slot {
            Some(value) => occupied(slots).push(value),
            None => occupied(slots),
        },
{
    let keep = |slot: Option<T>| slot is Some;
    let unwrap = |slot: Option<T>| slot->0;
    reveal(Seq::filter);
    assert(slots.push(slot).drop_last() =~= slots);
    assert(slots.push(slot).filter(keep) == if keep(slot) {
        slots.filter(keep).push(slot)
    } else {
        slots.filter(keep)
    });
    match slot {
        Some(value) => {
            assert(slots.filter(keep).push(slot).map_values(unwrap) =~= slots.filter(
                keep,
            ).map_values(unwrap).push(value));
        },
        None => {},
    }
}

/// Insertion keeps an arena well-formed, fills a slot that was empty or new,
/// and leaves every other index as it was.
pub proof fn lemma_insert<T>(arena: Arena<T>, value: T)
    requires
        arena.wf(),
    ensures
        arena.insert(value).wf(),
        arena.get(arena.next_index()) is None,
        arena.insert(value).get(arena.next_index()) == Some(value),
        forall|other: int|
            other != arena.next_index() ==> arena.insert(value).get(other) == arena.get(other),
{
    let after = arena.insert(value);
    if arena.free.len() > 0 {
        assert forall|k: int| 0 <= k < after.free.len() implies 0 <= (#[trigger] after.free[k])
            < after.slots.len() && after.slots[after.free[k]] is None by {
            assert(after.free[k] == arena.free[k + 1]);
        }
        assert forall|i: int|
            0 <= i < after.slots.len() && (#[trigger] after.slots[i]) is None implies after.free.contains(
            i,
        ) by {
            let k = choose|k: int| 0 <= k < arena.free.len() && arena.free[k] == i;
            assert(after.free[k - 1] == i);
        }
    }
}

/// Removal of an occupied slot keeps an arena well-formed, empties that slot,
/// and leaves every other index as it was.
pub proof fn lemma_remove<T>(arena: Arena<T>, index: int)
    requires
        arena.wf(),
        arena.get(index) is Some,
    ensures
        arena.remove(index).wf(),
        arena.remove(index).get(index) is None,
        forall|other: int| other != index ==> arena.remove(index).get(other) == arena.get(other),
{
    let after = arena.remove(index);
    assert forall|i: int|
        0 <= i < after.slots.len() && (#[trigger] after.slots[i]) is None implies after.free.contains(
        i,
    ) by {
        if i == index {
            assert(after.free[arena.free.len() as int] == i);
        } else {
            let k = choose|k: int| 0 <= k < arena.free.len() && arena.free[k] == i;
            assert(after.free[k] == i);
        }
    }
}

} // verus!
