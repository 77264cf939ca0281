//! What holds of an arena over any run of insertions and removals.

use super::arena::{lemma_insert, lemma_remove, Arena};
use vstd::prelude::*;

verus! {

/// One step in the life of an arena.
pub enum ArenaOp<T> {
    Insert(T),
    Remove(int),
}

impl<T> Arena<T> {
    /// Whether a caller may perform `op` now: anything may be inserted, and
    /// only an occupied slot may be removed.
    pub open spec fn admits(self, op: ArenaOp<T>) -> bool {
        match op {
            ArenaOp::Insert(_) => true,
            ArenaOp::Remove(index) => self.get(index) is Some,
        }
    }

    /// The arena after `op`.
    pub open spec fn apply(self, op: ArenaOp<T>) -> Self {
        match op {
            ArenaOp::Insert(value) => self.insert(value),
            ArenaOp::Remove(index) => self.remove(index),
        }
    }

    /// The arena after `ops`, performed in order.
    pub open spec fn run(self, ops: Seq<ArenaOp<T>>) -> Self
        decreases ops.len(),
    {
        if ops.len() == 0 {
            self
        } else {
            self.run(ops.drop_last()).apply(ops.last())
        }
    }

    /// Whether each of `ops` is admitted at the moment it is performed.
    pub open spec fn admits_all(self, ops: Seq<ArenaOp<T>>) -> bool
        decreases ops.len(),
    {
        ops.len() == 0 || (self.admits_all(ops.drop_last()) && self.run(ops.drop_last()).admits(
            ops.last(),
        ))
    }
}

/// Any admitted run of operations keeps an arena well-formed.
pub proof fn lemma_run_wf<T>(arena: Arena<T>, ops: Seq<ArenaOp<T>>)
    requires
        arena.wf(),
        arena.admits_all(ops),
    ensures
        arena.run(ops).wf(),
    decreases ops.len(),
{
    if ops.len() > 0 {
        lemma_run_wf(arena, ops.drop_last());
        match ops.last() {
            ArenaOp::Insert(value) => lemma_insert(arena.run(ops.drop_last()), value),
            ArenaOp::Remove(index) => lemma_remove(arena.run(ops.drop_last()), index),
        }
    }
}

/// An occupied index keeps its value through any admitted run of operations
/// that does not remove that very index: other insertions and removals never
/// move or overwrite it.
pub proof fn lemma_index_stable<T>(arena: Arena<T>, index: int, ops: Seq<ArenaOp<T>>)
    requires
        arena.wf(),
        arena.admits_all(ops),
        arena.get(index) is Some,
        forall|k: int| 0 <= k < ops.len() ==> ops[k] != ArenaOp::<T>::Remove(index),
    ensures
        arena.run(ops).get(index) == arena.get(index),
    decreases ops.len(),
{
    if ops.len() > 0 {
        let before = arena.run(ops.drop_last());
        assert forall|k: int| 0 <= k < ops.drop_last().len() implies ops.drop_last()[k]
            != ArenaOp::<T>::Remove(index) by {
            assert(ops.drop_last()[k] == ops[k]);
        }
        lemma_index_stable(arena, index, ops.drop_last());
        lemma_run_wf(arena, ops.drop_last());
        match ops.last() {
            ArenaOp::Insert(value) => lemma_insert(before, value),
            ArenaOp::Remove(other) => lemma_remove(before, other),
        }
    }
}

/// An index that holds nothing keeps holding nothing through any admitted run
/// of operations in which no insertion is handed that index.
pub proof fn lemma_index_stays_absent<T>(arena: Arena<T>, index: int, ops: Seq<ArenaOp<T>>)
    requires
        arena.wf(),
        arena.admits_all(ops),
        arena.get(index) is None,
        forall|k: int|
            0 <= k < ops.len() && (#[trigger] ops[k]) is Insert ==> arena.run(
                ops.take(k),
            ).next_index() != index,
    ensures
        arena.run(ops).get(index) is None,
    decreases ops.len(),
{
    if ops.len() > 0 {
        let shorter = ops.drop_last();
        let before = arena.run(shorter);
        assert forall|k: int| 0 <= k < shorter.len() && (#[trigger] shorter[k]) is Insert implies arena.run(
            shorter.take(k),
        ).next_index() != index by {
            assert(shorter[k] == ops[k]);
            assert(shorter.take(k) =~= ops.take(k));
        }
        lemma_index_stays_absent(arena, index, shorter);
        lemma_run_wf(arena, shorter);
        match ops.last() {
            ArenaOp::Insert(value) => {
                assert(ops.take(ops.len() - 1) =~= shorter);
                lemma_insert(before, value);
            },
            ArenaOp::Remove(other) => lemma_remove(before, other),
        }
    }
}

/// The life of an index: the index that an insertion returns resolves to the
/// inserted value after any admitted run of further operations that does not
/// remove it, and to nothing once it is removed.
pub proof fn lemma_index_lifetime<T>(arena: Arena<T>, value: T, ops: Seq<ArenaOp<T>>)
    requires
        arena.wf(),
        arena.insert(value).admits_all(ops),
        forall|k: int| 0 <= k < ops.len() ==> ops[k] != ArenaOp::<T>::Remove(arena.next_index()),
    ensures
        arena.insert(value).run(ops).get(arena.next_index()) == Some(value),
        arena.insert(value).run(ops).remove(arena.next_index()).get(arena.next_index()) is None,
{
    lemma_insert(arena, value);
    lemma_index_stable(arena.insert(value), arena.next_index(), ops);
    lemma_run_wf(arena.insert(value), ops);
    lemma_remove(arena.insert(value).run(ops), arena.next_index());
}

} // verus!
