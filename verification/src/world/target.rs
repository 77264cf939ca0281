//! What a creature heads for.

use crate::world::EntityType;
use vstd::prelude::*;

verus! {

/// Whether `target` is the nearest food among `seen`, where each entry gives
/// the kind of an entity and the key of its distance: the food item with the
/// least key, and among several with the least key the first; nothing where
/// no food is in sight.
pub open spec fn is_nearest_food(seen: Seq<(EntityType, i32)>, target: Option<usize>) -> bool {
    match target {
        Some(found) => {
            &&& found < seen.len()
            &&& seen[found as int].0 is Food
            &&& forall|other: int|
                0 <= other < seen.len() && (#[trigger] seen[other]).0 is Food ==> {
                    &&& seen[found as int].1 <= seen[other].1
                    &&& other < found ==> seen[found as int].1 < seen[other].1
                }
        },
        None => forall|other: int| 0 <= other < seen.len() ==> !((#[trigger] seen[other]).0 is Food),
    }
}

/// There is one nearest food at most.
pub proof fn lemma_nearest_food_unique(
    seen: Seq<(EntityType, i32)>,
    one: Option<usize>,
    other: Option<usize>,
)
    requires
        is_nearest_food(seen, one),
        is_nearest_food(seen, other),
    ensures
        one == other,
{
    if one is Some && other is Some {
        let (a, b) = (one->0 as int, other->0 as int);
        assert(seen[a].1 <= seen[b].1 && seen[b].1 <= seen[a].1);
    }
}

/// The index of the food item with the least distance key, the first of them
/// where several share it.
pub fn nearest_food(seen: &Vec<(EntityType, i32)>) -> (target: Option<usize>)
    ensures
        is_nearest_food(seen@, target),
{
    let mut target: Option<usize> = None;
    let mut index: usize = 0;
    while index < seen.len()
        invariant
            index <= seen.len(),
            is_nearest_food(seen@.take(index as int), target),
        decreases seen.len() - index,
    {
        let (kind, key) = seen[index];
        if kind == EntityType::Food {
            let closer = match target {
                Some(found) => key < seen[found].1,
                None => true,
            };
            if closer {
                target = Some(index);
            }
        }
        proof {
            let before = seen@.take(index as int);
            let after = seen@.take(index + 1);
            assert forall|other: int| 0 <= other < before.len() implies before[other]
                == after[other] by {}
        }
        index += 1;
    }
    assert(seen@.take(index as int) =~= seen@);
    target
}

} // verus!
