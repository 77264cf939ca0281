//! A stable-index arena with slot reuse.
//!
//! Removing from a plain growable sequence shifts what follows and so breaks
//! every index held elsewhere. Here an index, once handed out by `insert`,
//! names the same element until that index is removed; freed indices are
//! handed out again oldest first.

use std::collections::VecDeque;
use vstd::prelude::*;

mod arena;
mod laws;

pub use arena::{lemma_insert, lemma_occupied_push, lemma_remove, occupied, rank, Arena};
pub use laws::{
    lemma_index_lifetime, lemma_index_stable, lemma_index_stays_absent, lemma_run_wf, ArenaOp,
};

verus! {

/// A stable-index arena: a growable array of optional slots together with a
/// first-in-first-out queue of the indices that have been freed.
pub struct EntityList<T> {
    entities: Vec<Option<T>>,
    free: VecDeque<usize>,
}

impl<T> View for EntityList<T> {
    type V = Arena<T>;

    closed spec fn view(&self) -> Arena<T> {
        Arena { slots: self.entities@, free: self.free@.map_values(|index: usize| index as int) }
    }
}

impl<T> EntityList<T> {
    /// Well-formedness: every constructor establishes it and every method
    /// keeps it.
    pub open spec fn wf(&self) -> bool {
        self@.wf()
    }

    /// An arena with no slots.
    pub fn new() -> (list: Self)
        ensures
            list.wf(),
            list@ == Arena::<T>::empty(),
    {
        Self { entities: Vec::new(), free: VecDeque::new() }
    }

    /// An arena whose slots hold `values` in order, with no slot empty.
    pub fn from_iter(values: Vec<T>) -> (list: Self)
        ensures
            list.wf(),
            list@.slots == values@.map_values(|value: T| Some(value)),
            list@.free == Seq::<int>::empty(),
    {
        let mut entities: Vec<Option<T>> = Vec::new();
        for value in iter: values
            invariant
                iter.seq() == values@,
                entities@ == values@.take(iter.index()).map_values(|value: T| Some(value)),
        {
            entities.push(Some(value));
        }
        Self { entities, free: VecDeque::new() }
    }

    /// Looks up `index`; an empty slot and an index out of range both give
    /// `None`.
    pub fn get(&self, index: usize) -> (found: Option<&T>)
        ensures
            match found {
                Some(value) => self@.get(index as int) == Some(*value),
                None => self@.get(index as int) is None,
            },
    {
        if index < self.entities.len() {
            self.entities[index].as_ref()
        } else {
            None
        }
    }

    /// Stores `entity` in the oldest freed slot, or in a new slot at the end
    /// if none is free, and returns the index of that slot.
    pub fn insert(&mut self, entity: T) -> (index: usize)
        requires
            old(self).wf(),
        ensures
            final(self).wf(),
            index == old(self)@.next_index(),
            final(self)@ == old(self)@.insert(entity),
    {
        proof {
            lemma_insert(self@, entity);
        }
        if let Some(index) = self.free.pop_front() {
            self.entities[index] = Some(entity);
            assert(self@.free =~= old(self)@.free.drop_first());
            index
        } else {
            self.entities.push(Some(entity));
            self.entities.len() - 1
        }
    }

    /// The occupied slots in slot order, the empty ones skipped.
    pub fn iter(&self) -> (items: Vec<&T>)
        ensures
            items@.len() == self@.values().len(),
            forall|k: int| 0 <= k < items@.len() ==> *items@[k] == self@.values()[k],
    {
        let mut items: Vec<&T> = Vec::new();
        let mut index: usize = 0;
        while index < self.entities.len()
            invariant
                index <= self.entities.len(),
                items@.len() == occupied(self.entities@.take(index as int)).len(),
                forall|k: int|
                    0 <= k < items@.len() ==> *items@[k] == occupied(
                        self.entities@.take(index as int),
                    )[k],
            decreases self.entities.len() - index,
        {
            proof {
                lemma_occupied_push(self.entities@.take(index as int), self.entities@[index as int]);
                assert(self.entities@.take(index as int).push(self.entities@[index as int])
                    =~= self.entities@.take(index + 1));
            }
            if let Some(value) = &self.entities[index] {
                items.push(value);
            }
            index += 1;
        }
        assert(self.entities@.take(index as int) =~= self.entities@);
        items
    }

    /// Mutable access to the occupied slots in slot order, the empty ones
    /// skipped. What is written through a reference lands in the slot it came
    /// from; no slot is filled, emptied or moved.
    pub fn iter_mut(&mut self) -> (items: Vec<&mut T>)
        ensures
            items@.len() == old(self)@.values().len(),
            forall|k: int| 0 <= k < items@.len() ==> *items@[k] == old(self)@.values()[k],
            final(self)@.free == old(self)@.free,
            final(self)@.slots.len() == old(self)@.slots.len(),
            forall|i: int|
                0 <= i < old(self)@.slots.len() ==> final(self)@.slots[i] == match old(
                    self,
                )@.slots[i] {
                    Some(_) => Some(*final(items@[rank(old(self)@.slots, i)])),
                    None => None,
                },
            old(self).wf() ==> final(self).wf(),
    {
        let mut items: Vec<&mut T> = Vec::new();
        let mut rest: &mut [Option<T>] = self.entities.as_mut_slice();
        // `end` is what the slots hold once the last reference handed out has
        // been written through. The first `done` slots of it are settled: each
        // is empty, or holds the last value of the reference taken from it.
        let ghost start = rest@;
        let ghost end = final(rest)@;
        let ghost done: int = 0;
        while rest.len() > 0
            invariant
                0 <= done <= start.len(),
                done <= end.len(),
                rest@ == start.skip(done),
                end.skip(done) == final(rest)@,
                items@.len() == occupied(start.take(done)).len(),
                forall|k: int| 0 <= k < items@.len() ==> *items@[k] == occupied(start.take(done))[k],
                forall|i: int|
                    0 <= i < done ==> end[i] == match start[i] {
                        Some(_) => Some(*final(items@[rank(start, i)])),
                        None => None,
                    },
                forall|i: int|
                    0 <= i < done && start[i] is Some ==> 0 <= rank(start, i) < items@.len(),
            decreases rest@.len(),
        {
            proof {
                lemma_occupied_push(start.take(done), start[done]);
                assert(start.take(done).push(start[done]) =~= start.take(done + 1));
            }
            let whole = rest;
            let (head, tail) = whole.split_at_mut(1);
            let ghost head_end = final(head)@;
            let ghost tail_end = final(tail)@;
            assert(end.skip(done) == head_end + tail_end);
            if let Some(slot) = head.first_mut() {
                if let Some(value) = slot.as_mut() {
                    items.push(value);
                }
            }
            rest = tail;
            proof {
                assert(end.skip(done)[0] == end[done]);
                assert(end.skip(done).skip(1) =~= tail_end);
                done = done + 1;
            }
        }
        assert(start.take(done) =~= start);
        items
    }

    /// Empties the occupied slot `index` and queues the index for reuse.
    pub fn remove(&mut self, index: usize)
        requires
            old(self).wf(),
            old(self)@.get(index as int) is Some,
        ensures
            final(self).wf(),
            final(self)@ == old(self)@.remove(index as int),
    {
        proof {
            lemma_remove(self@, index as int);
        }
        self.entities[index] = None;
        self.free.push_back(index);
        assert(self@.free =~= old(self)@.free.push(index as int));
    }
}

impl<T> Default for EntityList<T> {
    fn default() -> (list: Self)
        ensures
            list.wf(),
            list@ == Arena::<T>::empty(),
    {
        Self::new()
    }
}

} // verus!
