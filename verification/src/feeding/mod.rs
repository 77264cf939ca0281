//! Who eats what: the part of a tick that pairs each food item with the
//! creature that gets it.
//!
//! Positions are the caller's business. The caller says, through `touches`,
//! whether a food item and a creature are within reach of each other; the
//! functions here decide from those answers alone which creature is credited
//! and which food is gone.

use crate::world::EntityType;
use vstd::prelude::*;

mod laws;

pub use laws::{
    eaten_count, is_decided, lemma_feeding_conserves, lemma_feeding_unique,
    lemma_first_eater_unique, total_meals,
};

verus! {

/// Whether `eater` is what the search for a creature touching `food` comes
/// to: the first creature, in index order, for which `touches` says yes, or
/// nothing where it says no for every creature.
pub open spec fn is_first_eater<F: Fn(usize, usize) -> bool>(
    kinds: Seq<EntityType>,
    touches: F,
    food: usize,
    eater: Option<usize>,
) -> bool {
    match eater {
        Some(found) => {
            &&& found < kinds.len()
            &&& kinds[found as int] is Creature
            &&& call_ensures(touches, (food, found), true)
            &&& forall|earlier: usize|
                earlier < found && kinds[earlier as int] is Creature ==> call_ensures(
                    touches,
                    (food, earlier),
                    false,
                )
        },
        None => forall|other: usize|
            other < kinds.len() && kinds[other as int] is Creature ==> call_ensures(
                touches,
                (food, other),
                false,
            ),
    }
}

/// The first creature, in index order, that touches the entity at `food`.
pub fn find_eater<F: Fn(usize, usize) -> bool>(
    kinds: &Vec<EntityType>,
    food: usize,
    touches: &F,
) -> (eater: Option<usize>)
    requires
        forall|other: usize|
            other < kinds.len() && kinds[other as int] is Creature ==> call_requires(
                *touches,
                (food, other),
            ),
    ensures
        is_first_eater(kinds@, *touches, food, eater),
{
    let mut other: usize = 0;
    while other < kinds.len()
        invariant
            other <= kinds.len(),
            forall|later: usize|
                later < kinds.len() && kinds[later as int] is Creature ==> call_requires(
                    *touches,
                    (food, later),
                ),
            forall|earlier: usize|
                earlier < other && kinds[earlier as int] is Creature ==> call_ensures(
                    *touches,
                    (food, earlier),
                    false,
                ),
        decreases kinds.len() - other,
    {
        if kinds[other] == EntityType::Creature && touches(food, other) {
            return Some(other);
        }
        other += 1;
    }
    None
}

/// The number of food items that `eaten_by` gives to `eater`.
pub open spec fn meals_of(eaten_by: Seq<Option<usize>>, eater: usize) -> nat {
    eaten_by.filter(|by: Option<usize>| by == Some(eater)).len()
}

/// How the count of one creature's meals grows with one more entity, and
/// that it never exceeds the number of entities counted.
pub proof fn lemma_meals_of_push(eaten_by: Seq<Option<usize>>, by: Option<usize>, eater: usize)
    ensures
        meals_of(eaten_by.push(by), eater) == meals_of(eaten_by, eater) + if by == Some(eater) {
            1nat
        } else {
            0nat
        },
        meals_of(eaten_by, eater) <= eaten_by.len(),
{
    let given = |by: Option<usize>| by == Some(eater);
    reveal(Seq::filter);
    assert(eaten_by.push(by).drop_last() =~= eaten_by);
    eaten_by.lemma_filter_len(given);
}

/// An entity that no entry of `eaten_by` names has no meals.
pub proof fn lemma_meals_of_unnamed(eaten_by: Seq<Option<usize>>, eater: usize)
    requires
        forall|index: int| 0 <= index < eaten_by.len() ==> eaten_by[index] != Some(eater),
    ensures
        meals_of(eaten_by, eater) == 0,
    decreases eaten_by.len(),
{
    reveal(Seq::filter);
    if eaten_by.len() > 0 {
        lemma_meals_of_unnamed(eaten_by.drop_last(), eater);
        lemma_meals_of_push(eaten_by.drop_last(), eaten_by.last(), eater);
        assert(eaten_by.drop_last().push(eaten_by.last()) =~= eaten_by);
    }
}

/// Whether `eaten_by` and `meals` are the outcome of feeding for the entities
/// of `kinds`: each food item is eaten by the first creature that touches it,
/// no creature is eaten, and each entity's meals are the food items it ate.
pub open spec fn is_feeding<F: Fn(usize, usize) -> bool>(
    kinds: Seq<EntityType>,
    touches: F,
    eaten_by: Seq<Option<usize>>,
    meals: Seq<usize>,
) -> bool {
    &&& eaten_by.len() == kinds.len()
    &&& meals.len() == kinds.len()
    &&& forall|index: usize|
        index < kinds.len() ==> match kinds[index as int] {
            EntityType::Food => is_first_eater(kinds, touches, index, #[trigger] eaten_by[index as int]),
            EntityType::Creature => eaten_by[index as int] is None,
        }
    &&& forall|index: usize|
        index < kinds.len() ==> #[trigger] meals[index as int] == meals_of(eaten_by, index)
}

/// The outcome of feeding for every entity of a snapshot, by index.
#[derive(Debug)]
pub struct Feeding {
    /// The creature credited with the entity: `Some` for a food item that
    /// was eaten, `None` for one that was not and for every creature.
    pub eaten_by: Vec<Option<usize>>,
    /// The number of food items the entity is credited with.
    pub meals: Vec<usize>,
}

/// Pairs each food item with the first creature, in index order, that
/// touches it. A food item is eaten by at most one creature; a creature may
/// eat any number of food items.
pub fn resolve_feeding<F: Fn(usize, usize) -> bool>(kinds: &Vec<EntityType>, touches: F) -> (feeding:
    Feeding)
    requires
        forall|food: usize, other: usize|
            food < kinds.len() && other < kinds.len() && kinds[food as int] is Food
                && kinds[other as int] is Creature ==> call_requires(touches, (food, other)),
    ensures
        is_feeding(kinds@, touches, feeding.eaten_by@, feeding.meals@),
        forall|index: usize|
            index < kinds.len() && kinds[index as int] is Food
                ==> #[trigger] feeding.meals@[index as int] == 0,
{
    let count = kinds.len();
    let mut meals: Vec<usize> = Vec::new();
    while meals.len() < count
        invariant
            meals.len() <= count,
            forall|index: int| 0 <= index < meals.len() ==> meals[index] == 0,
        decreases count - meals.len(),
    {
        meals.push(0);
    }
    let mut eaten_by: Vec<Option<usize>> = Vec::new();
    proof {
        reveal(Seq::filter);
    }
    while eaten_by.len() < count
        invariant
            count == kinds.len(),
            meals.len() == count,
            eaten_by.len() <= count,
            forall|food: usize, other: usize|
                food < kinds.len() && other < kinds.len() && kinds[food as int] is Food
                    && kinds[other as int] is Creature ==> call_requires(touches, (food, other)),
            forall|index: usize|
                index < eaten_by.len() ==> match kinds[index as int] {
                    EntityType::Food => is_first_eater(
                        kinds@,
                        touches,
                        index,
                        #[trigger] eaten_by@[index as int],
                    ),
                    EntityType::Creature => eaten_by@[index as int] is None,
                },
            forall|index: usize|
                index < count ==> #[trigger] meals@[index as int] == meals_of(eaten_by@, index),
        decreases count - eaten_by.len(),
    {
        let food = eaten_by.len();
        let eater = match kinds[food] {
            EntityType::Food => find_eater(kinds, food, &touches),
            EntityType::Creature => None,
        };
        proof {
            assert forall|index: usize| index < count implies meals_of(eaten_by@.push(eater), index)
                == meals_of(eaten_by@, index) + if eater == Some(index) {
                1nat
            } else {
                0nat
            } && meals_of(eaten_by@, index) <= food by {
                lemma_meals_of_push(eaten_by@, eater, index);
            }
        }
        if let Some(found) = eater {
            meals[found] = meals[found] + 1;
        }
        eaten_by.push(eater);
    }
    proof {
        assert forall|index: usize| index < count && kinds[index as int] is Food implies meals_of(
            eaten_by@,
            index,
        ) == 0 by {
            assert forall|entry: int| 0 <= entry < eaten_by@.len() implies eaten_by@[entry]
                != Some(index) by {
                let at = entry as usize;
                assert(eaten_by@[at as int] == eaten_by@[entry]);
            }
            lemma_meals_of_unnamed(eaten_by@, index);
        }
    }
    Feeding { eaten_by, meals }
}

} // verus!
